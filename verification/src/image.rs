//! What a file holds, as bytes, and what writing to it and cutting it off does.

use vstd::prelude::*;

verus! {

/// What a file holds after `bytes` were written at `offset`: it grows where it has to, with zeros in a gap.
pub open spec fn write_at(image: Seq<u8>, offset: nat, bytes: Seq<u8>) -> Seq<u8> {
    let end = offset + bytes.len();
    Seq::new(
        if image.len() <= end {
            end
        } else {
            image.len()
        },
        |i: int|
            if offset <= i < end {
                bytes[i - offset]
            } else if i < image.len() {
                image[i]
            } else {
                0u8
            },
    )
}

/// What a file holds after its length was set to `len`: cut off, or filled up with zeros.
pub open spec fn resized(image: Seq<u8>, len: nat) -> Seq<u8> {
    Seq::new(
        len,
        |i: int|
            if i < image.len() {
                image[i]
            } else {
                0u8
            },
    )
}

/// A write puts its bytes at their offset, leaves every other byte as it was, and extends the file only as far as
/// it has to, with zeros in between.
pub proof fn law_write_changes_only_its_bytes(image: Seq<u8>, offset: nat, bytes: Seq<u8>, p: int)
    requires
        0 <= p < write_at(image, offset, bytes).len(),
    ensures
        offset <= p < offset + bytes.len() ==> write_at(image, offset, bytes)[p] == bytes[p - offset],
        !(offset <= p < offset + bytes.len()) && p < image.len() ==> write_at(image, offset, bytes)[p]
            == image[p],
        !(offset <= p < offset + bytes.len()) && p >= image.len() ==> write_at(image, offset, bytes)[p] == 0,
        write_at(image, offset, bytes).len() == if offset + bytes.len() > image.len() {
            (offset + bytes.len()) as nat
        } else {
            image.len()
        },
{
}

} // verus!
