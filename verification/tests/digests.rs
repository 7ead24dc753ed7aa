//! The checksums.

use xget::checksum::Checksum;
use xget::cli::expect::{digest_in, judge};
use xget::digest::can_hash;

const ALL: [Checksum; 6] = [
    Checksum::Skip,
    Checksum::Md5,
    Checksum::Sha1,
    Checksum::Sha256,
    Checksum::Sha512,
    Checksum::Blake3,
];

fn digest(checksum: Checksum, pieces: &[&[u8]]) -> Option<String> {
    checksum.hasher().map(|mut hasher| {
        for piece in pieces {
            hasher.update(piece);
        }
        hasher.finalize_hex()
    })
}

#[test]
fn names_read_back_in_any_case() {
    for checksum in ALL {
        assert_eq!(Checksum::from_str(checksum.name()), Ok(checksum));
        assert_eq!(checksum.name().to_ascii_uppercase().parse(), Ok(checksum));
    }
    assert_eq!(Checksum::Skip.name(), "none");
    assert_eq!(Checksum::default(), Checksum::Sha256);
}

#[test]
fn an_unknown_name_says_which_are_known() {
    let error = Checksum::from_str("sha3").expect_err("an unknown name");
    assert_eq!(
        error.message(),
        "unknown checksum (use none, md5, sha1, sha256, sha512, or blake3)"
    );
}

#[test]
fn digests_are_the_published_ones() {
    let abc: &[&[u8]] = &[b"abc"];
    assert_eq!(digest(Checksum::Skip, abc), None);
    assert_eq!(
        digest(Checksum::Md5, abc).as_deref(),
        Some("900150983cd24fb0d6963f7d28e17f72")
    );
    assert_eq!(
        digest(Checksum::Sha1, abc).as_deref(),
        Some("a9993e364706816aba3e25717850c26c9cd0d89d")
    );
    assert_eq!(
        digest(Checksum::Sha256, abc).as_deref(),
        Some("ba7816bf8f01cfea414140de5dae2223b00361a396177a9cb410ff61f20015ad")
    );
    assert_eq!(
        digest(Checksum::Sha512, abc).as_deref(),
        Some(
            "ddaf35a193617abacc417349ae20413112e6fa4e89a97ea20a9eeee64b55d39a\
             2192992a274fc1a836ba3c23a3feebbd454d4423643ce80e2a9ac94fa54ca49f"
        )
    );
    assert_eq!(
        digest(Checksum::Blake3, abc).as_deref(),
        Some("6437b3ac38465133ffb63b75273a8db548c558465d79db03fd359c6cd5bd9d85")
    );
}

#[test]
fn the_pieces_do_not_matter() {
    for checksum in ALL {
        assert_eq!(
            digest(checksum, &[b"a", b"", b"bc"]),
            digest(checksum, &[b"abc"])
        );
    }
}

#[test]
fn the_older_families_count_bits_in_a_word() {
    assert!(can_hash(Checksum::Sha256, (1 << 61) - 1));
    assert!(!can_hash(Checksum::Sha256, 1 << 61));
    assert!(!can_hash(Checksum::Sha1, u64::MAX));
    assert!(can_hash(Checksum::Blake3, u64::MAX));
    assert!(can_hash(Checksum::Skip, u64::MAX));
}

#[test]
fn a_published_digest_passes() {
    for algo in [
        Checksum::Md5,
        Checksum::Sha1,
        Checksum::Sha256,
        Checksum::Sha512,
        Checksum::Blake3,
    ] {
        let mut hasher = algo.hasher().expect("an algorithm");
        hasher.update(b"published");
        let hash = hasher.finalize_hex();
        let stated = digest_in(&format!("{hash}  file.bin\n"));
        assert_eq!(stated.as_deref(), Some(hash.as_str()));
        assert_eq!(digest_in(&hash), stated);
        let expected = Some((Some(algo), stated.expect("a digest")));
        assert_eq!(judge(&expected, algo, &Some(hash)), Ok(()));
        assert!(judge(&expected, algo, &None).is_err());
    }
}
