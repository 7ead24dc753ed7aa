//! What the sources ask for and what they make of the answers.

use xget::source::http::{
    content_disposition_name, content_range_start, content_range_total, decode_extended_filename,
    range_header, refusal, Head,
};
use xget::error::short_error;
use xget::source::ipfs::{
    checksum_from_cid, gateway_file, read_cid, resolve_gateway, split_reference, CidParts,
};
use xget::source::s3;
use xget::source::s3::{stored_checksum, ObjectHead};
use xget::{ByteRange, Checksum, Error, HttpSource, IpfsSource, Mirrors, Platform, Probe, S3Source};

use cid::multihash::Multihash;
use cid::Cid;

/// The raw-block multicodec, whose CID hashes the content bytes.
const RAW: u64 = 0x55;
/// The dag-pb multicodec, used for a UnixFS DAG root.
const DAG_PB: u64 = 0x70;

#[test]
fn http_tests_total_is_the_number_after_the_slash() {
    assert_eq!(content_range_total("bytes 0-0/1234"), Some(1234));
    assert_eq!(content_range_total("bytes 100-199/58000"), Some(58000));
    assert_eq!(content_range_total("bytes */4096"), Some(4096));
    assert_eq!(content_range_total("nonsense"), None);
}

#[test]
fn http_tests_start_is_the_offset_after_the_unit() {
    assert_eq!(content_range_start("bytes 0-0/1234"), Some(0));
    assert_eq!(content_range_start("bytes 100-199/1234"), Some(100));
    assert_eq!(
        content_range_start("100-199/1234"),
        None,
        "the bytes unit is required"
    );
    assert_eq!(content_range_start("bytes x-y/z"), None);
}

#[test]
fn total_is_the_number_after_the_slash() {
    assert_eq!(content_range_total("bytes 0-0/1234"), Some(1234));
    assert_eq!(content_range_total("bytes 100-199/58000"), Some(58000));
    assert_eq!(content_range_total("bytes */4096"), Some(4096));
    assert_eq!(content_range_total("nonsense"), None);
}

#[test]
fn start_is_the_offset_after_the_unit() {
    assert_eq!(content_range_start("bytes 0-0/1234"), Some(0));
    assert_eq!(content_range_start("bytes 100-199/1234"), Some(100));
    assert_eq!(
        content_range_start("100-199/1234"),
        None,
        "the bytes unit is required"
    );
    assert_eq!(content_range_start("bytes x-y/z"), None);
}

#[test]
fn a_plain_disposition_filename_is_taken_and_unquoted() {
    assert_eq!(
        content_disposition_name(r#"attachment; filename="report.pdf""#, Platform::Unix),
        Some("report.pdf".to_owned())
    );
    assert_eq!(
        content_disposition_name("attachment; filename=data.csv", Platform::Unix),
        Some("data.csv".to_owned())
    );
    assert_eq!(content_disposition_name("inline", Platform::Unix), None);
}

#[test]
fn an_extended_filename_is_percent_decoded_and_preferred() {
    assert_eq!(
        content_disposition_name(
            "attachment; filename=\"fallback.bin\"; filename*=UTF-8''my%20file.zip",
            Platform::Unix
        ),
        Some("my file.zip".to_owned()),
        "the extended form wins over the plain one"
    );
}

#[test]
fn a_disposition_filename_is_stripped_to_its_basename() {
    assert_eq!(
        content_disposition_name(r#"attachment; filename="../../etc/passwd""#, Platform::Unix),
        Some("passwd".to_owned()),
        "path components cannot escape the output directory"
    );
}

#[test]
fn a_windows_filename_is_stripped_at_backslashes() {
    let value = r#"attachment; filename="..\..\x.bin""#;
    assert_eq!(content_disposition_name(value, Platform::Windows), Some("x.bin".to_owned()));
    assert_eq!(
        content_disposition_name(value, Platform::Unix),
        Some(r"..\..\x.bin".to_owned())
    );
    assert_eq!(s3::content_disposition_name(value, Platform::Windows), Some("x.bin".to_owned()));
}

#[test]
fn a_filename_that_leads_elsewhere_is_no_filename() {
    assert_eq!(content_disposition_name("attachment; filename=..", Platform::Unix), None);
    assert_eq!(content_disposition_name("attachment; filename=/", Platform::Unix), None);
    assert_eq!(content_disposition_name("attachment; filename=\"\"", Platform::Unix), None);
    assert_eq!(content_disposition_name("attachment; filename=a/..", Platform::Unix), None);
    assert_eq!(
        content_disposition_name("attachment; filename=dir/name/./", Platform::Unix),
        Some("name".to_owned())
    );
}

#[test]
fn extended_values_decode_utf8_only() {
    assert_eq!(
        decode_extended_filename("UTF-8''na%C3%AFve.txt"),
        Some("na\u{ef}ve.txt".to_owned())
    );
    assert_eq!(decode_extended_filename("UTF-8''%ff"), None, "not UTF-8");
    assert_eq!(decode_extended_filename("UTF-8''a%2"), None, "cut short");
    assert_eq!(decode_extended_filename("UTF-8''a%zz"), None, "no digits");
    assert_eq!(decode_extended_filename("plain"), Some("plain".to_owned()));
    assert_eq!(decode_extended_filename("x''y''z"), Some("z".to_owned()));
    assert_eq!(
        content_disposition_name("a; filename*=UTF-8''%ff; filename=ok.bin", Platform::Unix),
        Some("ok.bin".to_owned()),
        "an extended name that cannot be decoded is passed over"
    );
}

fn head(status: u16) -> Head {
    Head {
        status,
        disposition: None,
        content_type: None,
        content_range: None,
        content_length: None,
        etag: None,
        last_modified: None,
    }
}

fn detail(error: Error) -> String {
    match error {
        Error::Transport(causes) => causes.join("|"),
        other => panic!("{other:?}"),
    }
}

#[test]
fn probe_reports_length_and_range_support() {
    let probe = HttpSource::probed(
        Head {
            content_range: Some("bytes 0-0/2048".to_owned()),
            ..head(206)
        },
        Platform::Unix,
    )
    .expect("a range-capable server probes cleanly");
    assert_eq!(probe.length, 2048, "the total length");
    assert!(probe.supports_ranges, "the 206 marks range support");
}

#[test]
fn a_probe_carries_what_the_headers_say() {
    let probe = HttpSource::probed(
        Head {
            disposition: Some("attachment; filename=x.iso".to_owned()),
            content_type: Some(" text/html ; charset=utf-8".to_owned()),
            content_length: Some(7),
            last_modified: Some("Mon, 01 Jan 2024 00:00:00 GMT".to_owned()),
            ..head(200)
        },
        Platform::Unix,
    )
    .expect("a plain answer with a length is a probe");
    assert_eq!(
        probe,
        Probe {
            length: 7,
            supports_ranges: false,
            filename: Some("x.iso".to_owned()),
            content_type: Some("text/html".to_owned()),
            validator: Some("Mon, 01 Jan 2024 00:00:00 GMT".to_owned()),
            checksum: None,
        }
    );
    let tagged = HttpSource::probed(
        Head {
            content_length: Some(7),
            content_type: Some("; charset=utf-8".to_owned()),
            etag: Some("\"v1\"".to_owned()),
            last_modified: Some("Mon, 01 Jan 2024 00:00:00 GMT".to_owned()),
            ..head(200)
        },
        Platform::Unix,
    )
    .expect("a probe");
    assert_eq!(tagged.validator.as_deref(), Some("\"v1\""));
    assert_eq!(tagged.content_type, None);
}

#[test]
fn a_probe_without_a_length_is_an_error() {
    assert_eq!(
        detail(HttpSource::probed(head(206), Platform::Unix).expect_err("no total")),
        "206 without a parseable Content-Range total"
    );
    assert_eq!(
        detail(HttpSource::probed(head(200), Platform::Unix).expect_err("no length")),
        "response has no Content-Length"
    );
    assert_eq!(
        detail(HttpSource::probed(head(404), Platform::Unix).expect_err("no resource")),
        "probe returned HTTP 404 Not Found"
    );
}

#[test]
fn a_server_that_ignores_the_range_is_rejected() {
    let range = ByteRange { start: 0, end: 100 };
    match HttpSource::fetched(Some(range), 200, None) {
        Err(Error::RangeNotHonored { requested }) => assert_eq!(requested, range),
        other => panic!("expected RangeNotHonored, got {other:?}"),
    }
    assert!(HttpSource::fetched(Some(range), 206, Some("bytes 1-99/100")).is_err());
    assert!(HttpSource::fetched(Some(range), 206, None).is_err());
    assert!(HttpSource::fetched(Some(range), 206, Some("bytes 0-99/100")).is_ok());
}

#[test]
fn a_whole_fetch_needs_success() {
    assert!(HttpSource::fetched(None, 200, None).is_ok());
    assert_eq!(
        detail(HttpSource::fetched(None, 503, None).expect_err("unavailable")),
        "fetch returned HTTP 503 Service Unavailable"
    );
}

#[test]
fn ranges_are_inclusive_on_the_wire() {
    assert_eq!(
        range_header(ByteRange {
            start: 100,
            end: 200
        }),
        "bytes=100-199"
    );
    assert_eq!(HttpSource::probe_range(), "bytes=0-0");
}

#[test]
fn a_url_is_parsed_and_is_its_own_identity() {
    let source = HttpSource::new("HTTPS://Example.com").expect("a valid URL");
    assert_eq!(source.url(), "https://example.com/");
    assert_eq!(source.identity().as_deref(), Some("https://example.com/"));
    assert_eq!(
        detail(HttpSource::new("not a url").expect_err("no URL")),
        "relative URL without a base"
    );
}

/// Build a CIDv1 with the given codec and a multihash of the given code over `digest`.
fn cid(codec: u64, hash_code: u64, digest: &[u8]) -> Cid {
    let hash = Multihash::<64>::wrap(hash_code, digest).expect("a digest that fits");
    Cid::new_v1(codec, hash)
}

/// The parts of a CID, read from its text.
fn parts(codec: u64, hash_code: u64, digest: &[u8]) -> CidParts {
    read_cid(&cid(codec, hash_code, digest).to_string()).expect("a valid CID")
}

#[test]
fn a_raw_sha256_cid_verifies_against_its_own_hash() {
    let digest = [0xabu8; 32];
    let checksum = checksum_from_cid(&parts(RAW, 0x12, &digest));
    assert_eq!(checksum, Some((Checksum::Sha256, hex::encode(digest))));
}

#[test]
fn a_raw_blake3_cid_maps_to_blake3() {
    let digest = [0x11u8; 32];
    let checksum = checksum_from_cid(&parts(RAW, 0x1e, &digest));
    assert_eq!(checksum, Some((Checksum::Blake3, hex::encode(digest))));
}

#[test]
fn a_dag_wrapped_cid_is_not_directly_verifiable() {
    // A UnixFS DAG root addresses the tree of blocks, not the raw bytes, so its CID cannot verify the file by
    // a straight hash.
    assert_eq!(checksum_from_cid(&parts(DAG_PB, 0x12, &[0u8; 32])), None);
}

#[test]
fn an_unsupported_hash_is_left_unverified() {
    // sha3-256 (0x16) is a hash the engine cannot compute: leave it unverified rather than mis-map it.
    assert_eq!(checksum_from_cid(&parts(RAW, 0x16, &[0u8; 32])), None);
}

#[test]
fn resolve_gateway_prefers_explicit_and_trims_a_trailing_slash() {
    assert_eq!(
        resolve_gateway(Some("http://127.0.0.1:8080/".to_owned()), None, None),
        "http://127.0.0.1:8080"
    );
}

#[test]
fn a_gateway_is_looked_for_in_order() {
    let some = |s: &str| Some(s.to_owned());
    assert_eq!(resolve_gateway(some(""), some("http://env//"), some("http://file")), "http://env");
    assert_eq!(resolve_gateway(None, some(""), some("http://file")), "http://file");
    assert_eq!(resolve_gateway(None, None, None), "https://dweb.link");
    assert_eq!(gateway_file("  http://local:1 \n"), some("http://local:1"));
    assert_eq!(gateway_file(" \n"), None);
}

#[test]
fn an_invalid_cid_is_rejected() {
    assert!(IpfsSource::new(
        "definitely-not-a-cid",
        Some("http://localhost".to_owned()),
        None,
        None
    )
    .is_err());
}

#[test]
fn a_valid_cid_builds_a_source() {
    let reference = cid(RAW, 0x12, &[0u8; 32]).to_string();
    assert!(IpfsSource::new(
        &reference,
        Some("http://localhost:8080".to_owned()),
        None,
        None
    )
    .is_ok());
}

#[test]
fn an_ipfs_source_vouches_by_its_address() {
    let digest = [7u8; 32];
    let text = cid(RAW, 0x12, &digest).to_string();
    let source = IpfsSource::new(
        &format!("{text}/a/b"),
        Some("http://localhost:8080/".to_owned()),
        None,
        None,
    )
    .expect("a valid reference");
    assert_eq!(
        source.http().url(),
        format!("http://localhost:8080/ipfs/{text}/a/b")
    );
    assert_eq!(source.identity(), Some(format!("ipfs://{text}/a/b")));
    let probe = source.probed(Probe {
        length: 3,
        validator: Some("gateway".to_owned()),
        ..Probe::default()
    });
    assert_eq!(probe.length, 3);
    assert_eq!(probe.validator, Some(format!("{text}/a/b")));
    assert_eq!(probe.checksum, Some((Checksum::Sha256, hex::encode(digest))));
    let kept = source.probed(Probe {
        checksum: Some((Checksum::Md5, "00".to_owned())),
        ..Probe::default()
    });
    assert_eq!(kept.checksum, Some((Checksum::Md5, "00".to_owned())));
}

fn object(length: Option<i64>) -> ObjectHead {
    ObjectHead {
        content_length: length,
        accept_ranges: None,
        content_type: None,
        disposition: None,
        sha256: None,
        sha1: None,
        etag: None,
    }
}

#[test]
fn an_object_head_is_a_probe() {
    let probe = S3Source::probed(
        ObjectHead {
            accept_ranges: Some("BYTES".to_owned()),
            content_type: Some(String::new()),
            disposition: Some("attachment; filename=\"x/y.bin\"".to_owned()),
            sha256: Some("q80=".to_owned()),
            etag: Some("\"e\"".to_owned()),
            ..object(Some(9))
        },
        Platform::Unix,
    )
    .expect("a head with a length");
    assert_eq!(
        probe,
        Probe {
            length: 9,
            supports_ranges: true,
            filename: Some("y.bin".to_owned()),
            content_type: None,
            validator: Some("\"e\"".to_owned()),
            checksum: Some((Checksum::Sha256, "abcd".to_owned())),
        }
    );
    for length in [None, Some(-1)] {
        assert_eq!(
            detail(S3Source::probed(object(length), Platform::Unix).expect_err("no length")),
            "HeadObject response has no content length"
        );
    }
}

#[test]
fn a_stored_checksum_is_of_the_whole_object() {
    assert_eq!(
        stored_checksum(Some("q80=-3"), Some("EjQ=")),
        Some((Checksum::Sha1, "1234".to_owned())),
        "a composite is passed over"
    );
    assert_eq!(stored_checksum(Some("!"), None), None);
    assert_eq!(stored_checksum(None, None), None);
}

#[test]
fn an_object_is_named_by_its_url() {
    let source = S3Source::new("bucket".to_owned(), "a/b.bin".to_owned());
    assert_eq!(source.identity().as_deref(), Some("s3://bucket/a/b.bin"));
}

/// What a set of mirrors answers, when each source answers `Some` or fails.
fn ask(mirrors: &Mirrors<Option<u32>>) -> Result<u32, Error> {
    let mut failover = mirrors.begin();
    while let Some(index) = failover.next() {
        match mirrors.source(index) {
            Some(answer) => return Ok(*answer),
            None => failover.failed(Error::detail(&format!("source {index} is dead"))),
        }
    }
    Err(failover.give_up())
}

#[test]
fn falls_over_to_a_working_mirror() {
    let mirrors = Mirrors::new(None, vec![Some(10)]);
    assert_eq!(ask(&mirrors).expect("the dead primary is skipped"), 10);
}

#[test]
fn fails_when_every_mirror_is_dead() {
    let mirrors = Mirrors::new(None, vec![None]);
    assert_eq!(mirrors.count(), 2);
    assert_eq!(
        detail(ask(&mirrors).expect_err("no mirror can answer")),
        "source 1 is dead"
    );
}

#[test]
fn uses_the_primary_when_it_works() {
    let mirrors = Mirrors::new(Some(1), vec![None]);
    assert_eq!(ask(&mirrors).expect("the primary answers"), 1);
}

#[test]
fn a_percent_sign_takes_two_hex_digits() {
    assert_eq!(decode_extended_filename("UTF-8''%41%4a%4A").as_deref(), Some("AJJ"));
    for raw in ["UTF-8''%+f", "UTF-8''%f+", "UTF-8''%g0", "UTF-8''%4", "UTF-8''%"] {
        assert_eq!(decode_extended_filename(raw), None, "{raw}");
    }
}

#[test]
fn a_refusal_names_the_request_and_the_status() {
    assert_eq!(
        short_error(&refusal("probe", "404 Not Found")),
        "probe returned HTTP 404 Not Found"
    );
}

#[test]
fn a_reference_splits_into_its_cid_and_its_path() {
    let split = |reference| split_reference(reference);
    assert_eq!(split("cid/dir/file"), ("cid".to_owned(), "/dir/file".to_owned()));
    assert_eq!(split("cid/"), ("cid".to_owned(), "/".to_owned()));
    assert_eq!(split("cid"), ("cid".to_owned(), String::new()));
}

#[test]
fn an_address_is_the_cid_as_it_is_written() {
    let source = IpfsSource::addressed(
        HttpSource::new("https://gateway.example/ipfs/x/dir").expect("a URL"),
        CidParts {
            codec: 0x55,
            code: 0x12,
            digest: vec![0x00, 0xff],
            text: "written".to_owned(),
        },
        "/dir",
    );
    assert_eq!(source.identity().as_deref(), Some("ipfs://written/dir"));
    let probe = source.probed(Probe::default());
    assert_eq!(probe.validator.as_deref(), Some("written/dir"));
    assert_eq!(probe.checksum, Some((Checksum::Sha256, "00ff".to_owned())));
}

#[test]
fn a_stored_sha256_is_preferred() {
    let prefer = |sha256: Option<Vec<u8>>, sha1: Option<Vec<u8>>| s3::prefer(sha256, sha1);
    assert_eq!(
        prefer(Some(vec![0xab]), Some(vec![1])),
        Some((Checksum::Sha256, "ab".to_owned()))
    );
    assert_eq!(prefer(None, Some(vec![1])), Some((Checksum::Sha1, "01".to_owned())));
    assert_eq!(prefer(None, None), None);
    assert_eq!(s3::whole_object(Some("abc=")), Some("abc="));
    assert_eq!(s3::whole_object(Some("abc=-3")), None);
    assert_eq!(s3::whole_object(None), None);
}
