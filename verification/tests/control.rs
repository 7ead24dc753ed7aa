//! The control trailer of a `.xget` file.

use xget::control::{footer_bytes, footer_offset, locate, parse, read, Patch, Writer, FOOTER};
use xget::{control_source, inspect, resumable, ByteRange, Checksum, Error};

/// Write a patch into an image, growing it as a file grows.
fn apply(image: &mut Vec<u8>, patch: &Patch) {
    let start = patch.offset as usize;
    let end = start + patch.bytes.len();
    if image.len() < end {
        image.resize(end, 0);
    }
    image[start..end].copy_from_slice(&patch.bytes);
}

fn fresh(total: usize, validator: Option<&str>, source: Option<&str>) -> (Writer, Vec<u8>) {
    let mut image = vec![9u8; total];
    let (writer, patch) = Writer::create(total as u64, validator, source, Checksum::Blake3);
    apply(&mut image, &patch);
    (writer, image)
}

#[test]
fn a_fresh_control_reads_back() {
    let (_, image) = fresh(100, Some("Mon, 01 Jan 2024"), Some("https://x/y z"));
    let control = read(&image).expect("a control that was just written");
    assert_eq!(control.total, 100);
    assert_eq!(control.validator.as_deref(), Some("Mon, 01 Jan 2024"));
    assert_eq!(control.source.as_deref(), Some("https://x/y z"));
    assert_eq!(control.checksum, Some(Checksum::Blake3));
    assert!(control.done.is_empty());
    assert_eq!(&image[..100], &[9u8; 100], "the data is untouched");
}

#[test]
fn appended_ranges_read_back_in_order() {
    let (mut writer, mut image) = fresh(50, None, None);
    let ranges = [
        ByteRange { start: 0, end: 10 },
        ByteRange { start: 30, end: 50 },
        ByteRange { start: 0, end: 20 },
    ];
    for range in ranges {
        assert!(writer.has_room());
        let patch = writer.append(range);
        apply(&mut image, &patch);
        assert!(read(&image).is_some(), "valid after every append");
    }
    let control = read(&image).expect("a valid control");
    assert_eq!(control.done, ranges);
    assert_eq!(control.validator, None);
    assert_eq!(control.source, None);
}

#[test]
fn a_data_write_keeps_the_control() {
    let (mut writer, mut image) = fresh(50, Some("v"), None);
    let patch = writer.append(ByteRange { start: 1, end: 2 });
    apply(&mut image, &patch);
    let data = Patch {
        offset: 40,
        bytes: vec![1; 10],
    };
    apply(&mut image, &data);
    let control = read(&image).expect("still a control");
    assert_eq!(control.done, [ByteRange { start: 1, end: 2 }]);
}

#[test]
fn finishing_leaves_the_data() {
    let (mut writer, mut image) = fresh(20, Some("v"), Some("s"));
    let patch = writer.append(ByteRange { start: 0, end: 20 });
    apply(&mut image, &patch);
    image.truncate(writer.finish() as usize);
    assert_eq!(image, [9u8; 20]);
    assert!(read(&image).is_none());
}

#[test]
fn a_reopened_control_goes_on_after_its_trailer() {
    let (mut writer, mut image) = fresh(20, Some("v"), None);
    let patch = writer.append(ByteRange { start: 0, end: 5 });
    apply(&mut image, &patch);
    let mut again = Writer::open(image.len() as u64, 20).expect("the layout adds up");
    let patch = again.append(ByteRange { start: 5, end: 9 });
    apply(&mut image, &patch);
    let control = read(&image).expect("a valid control");
    assert_eq!(
        control.done,
        [
            ByteRange { start: 0, end: 5 },
            ByteRange { start: 5, end: 9 }
        ]
    );
}

#[test]
fn a_file_smaller_than_its_layout_is_an_error() {
    match Writer::open(51, 20) {
        Err(Error::Transport(causes)) => {
            assert_eq!(causes, ["control file is smaller than its own layout"])
        }
        other => panic!("{other:?}"),
    }
    assert!(Writer::open(52, 20).is_ok());
    assert!(Writer::open(u64::MAX, u64::MAX).is_err());
}

#[test]
fn a_foreign_or_truncated_file_is_no_control() {
    assert!(read(&[]).is_none());
    assert!(read(&[0u8; 64]).is_none());
    let (_, image) = fresh(20, None, None);
    assert!(read(&image[1..]).is_none(), "the layout no longer adds up");
    assert!(read(&image[..image.len() - 1]).is_none());
    assert_eq!(footer_offset(31), None);
    assert_eq!(footer_offset(40), Some(40 - FOOTER));
}

#[test]
fn a_footer_states_the_layout() {
    let footer = footer_bytes(7, 300);
    assert_eq!(&footer[..8], b"XGETCTL1");
    assert_eq!(footer[8], 7);
    assert_eq!(footer[16], 44);
    assert_eq!(footer[17], 1);
    assert_eq!(locate(&footer, 339), Some((7, 300)));
    assert_eq!(locate(&footer, 340), None);
    let huge = footer_bytes(u64::MAX, u64::MAX);
    assert_eq!(locate(&huge, 30), None, "no wrap-around");
}

#[test]
fn unknown_lines_are_passed_over() {
    let text = "algo SHA1\nwhatever\ndone 1\ndone x 2\ndone 3 4 5\r\n done 6 7\nalgo crc\n";
    let control = parse(9, text.as_bytes().to_vec()).expect("text");
    assert_eq!(control.checksum, None, "an unknown algorithm counts as none");
    assert_eq!(
        control.done,
        [
            ByteRange { start: 3, end: 4 },
            ByteRange { start: 6, end: 7 }
        ]
    );
    assert!(parse(9, vec![0xff]).is_none(), "a trailer is text");
}

#[test]
fn an_inspection_counts_bytes_once() {
    let (mut writer, mut image) = fresh(100, None, Some("https://example.com/thing.bin"));
    for range in [
        ByteRange { start: 0, end: 30 },
        ByteRange { start: 10, end: 40 },
    ] {
        let patch = writer.append(range);
        apply(&mut image, &patch);
    }
    assert!(resumable(&read(&image)));
    assert!(!resumable(&None));
    assert_eq!(
        control_source(read(&image)).as_deref(),
        Some("https://example.com/thing.bin")
    );
    assert_eq!(control_source(None), None);
    let info = inspect(read(&image)).expect("a valid control inspects");
    assert_eq!(info.total, 100);
    assert_eq!(info.downloaded, 40);
    assert_eq!(info.checksum, Some(Checksum::Blake3));
    assert!(inspect(None).is_none());
}
