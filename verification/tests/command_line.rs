//! What the command line decides.

use xget::cli::expect::{
    adopt, algo_from_extension, choose_checksum, digest_in, judge, parse_expect, resolve_sidecar, Expect,
};
use xget::cli::naming::{
    control_output, control_path, control_resume_target, infer_name, may_write, placement, segment_name,
    url_basename, Placement,
};
use xget::cli::notice::{adoption_notice, not_resumable, preamble, show_info, summary};
use xget::cli::request::{
    parse_header, parse_tries, scheme_of, sidecar_object, split_object, Scheme,
};
use xget::cli::sink::{
    continues_partial, log_filter, resolve_mode, resolve_sink, should_resume, ProgressMode, Sink,
};
use xget::{Checksum, Inspection, Platform, Probe, Report};

#[test]
fn an_inline_expectation_is_a_literal() {
    match parse_expect("SHA256:ABCD") {
        Ok(Expect::Literal { algo, hex }) => {
            assert_eq!(algo, Some(Checksum::Sha256));
            assert_eq!(hex, "abcd");
        }
        other => panic!("{other:?}"),
    }
    match parse_expect("ABCD") {
        Ok(Expect::Literal { algo, hex }) => {
            assert_eq!(algo, None);
            assert_eq!(hex, "abcd");
        }
        other => panic!("{other:?}"),
    }
    assert_eq!(
        parse_expect("crc32:00").expect_err("an unknown algorithm"),
        "unknown checksum (use none, md5, sha1, sha256, sha512, or blake3)"
    );
}

#[test]
fn a_url_expectation_is_a_sidecar() {
    match parse_expect("https://example.com/big.iso.SHA256SUM") {
        Ok(Expect::Sidecar { algo, url }) => {
            assert_eq!(algo, Some(Checksum::Sha256));
            assert_eq!(url, "https://example.com/big.iso.SHA256SUM");
        }
        other => panic!("{other:?}"),
    }
}

#[test]
fn extensions_name_algorithms() {
    assert_eq!(algo_from_extension("a.sha512"), Some(Checksum::Sha512));
    assert_eq!(algo_from_extension("a.sha1sum"), Some(Checksum::Sha1));
    assert_eq!(algo_from_extension("a.MD5"), Some(Checksum::Md5));
    assert_eq!(algo_from_extension("a.txt"), None);
}

#[test]
fn a_checksum_file_states_its_first_digest() {
    let hex = "D41D8CD98F00B204E9800998ECF8427E";
    assert_eq!(
        digest_in(&format!("# sums\n{hex}  empty.txt\n")),
        Some(hex.to_ascii_lowercase())
    );
    assert_eq!(digest_in("deadbeef"), None, "no digest's length");
    let lower = hex.to_ascii_lowercase();
    assert_eq!(
        resolve_sidecar(Some(Checksum::Md5), "http://x/y", &lower),
        Ok((Some(Checksum::Md5), lower.clone()))
    );
    assert_eq!(
        resolve_sidecar(None, "http://x/y", "nothing here"),
        Err("no checksum found at http://x/y".to_owned())
    );
}

#[test]
fn a_vouched_checksum_is_adopted_only_without_an_expectation() {
    let vouched = Some((Checksum::Sha1, "11".to_owned()));
    assert_eq!(
        adopt(None, vouched.clone()),
        Some((Some(Checksum::Sha1), "11".to_owned()))
    );
    let asked = Some((None, "22".to_owned()));
    assert_eq!(adopt(asked.clone(), vouched), asked);
    assert_eq!(adopt(None, None), None);
}

#[test]
fn an_expectation_pins_the_algorithm() {
    let pinned = Some((Some(Checksum::Md5), "00".to_owned()));
    assert_eq!(choose_checksum(&pinned, Checksum::Skip), Ok(Checksum::Md5));
    let bare = Some((None, "00".to_owned()));
    assert_eq!(choose_checksum(&bare, Checksum::Sha1), Ok(Checksum::Sha1));
    assert_eq!(
        choose_checksum(&bare, Checksum::Skip),
        Err("--expect needs an algorithm: pass --checksum or use algo:hex".to_owned())
    );
    assert_eq!(choose_checksum(&None, Checksum::Skip), Ok(Checksum::Skip));
}

#[test]
fn a_mismatch_fails() {
    let want = Some((Some(Checksum::Md5), "aB".to_owned()));
    assert_eq!(judge(&want, Checksum::Md5, &Some("Ab".to_owned())), Ok(()));
    assert_eq!(
        judge(&want, Checksum::Md5, &Some("cd".to_owned())),
        Err("checksum mismatch: expected md5:aB, got md5:cd".to_owned())
    );
    assert_eq!(
        judge(&want, Checksum::Md5, &None),
        Err("no checksum was computed to verify against".to_owned())
    );
    assert_eq!(judge(&None, Checksum::Md5, &None), Ok(()));
}

#[test]
fn the_output_argument_selects_the_sink() {
    assert_eq!(resolve_sink(None, false, Platform::Unix), Sink::File);
    assert_eq!(resolve_sink(Some("-"), false, Platform::Unix), Sink::Stdout);
    assert_eq!(resolve_sink(Some("/dev/null"), true, Platform::Unix), Sink::Discard);
    assert_eq!(resolve_sink(Some("/dev//./null/"), true, Platform::Unix), Sink::Discard);
    assert_eq!(resolve_sink(Some("./-"), false, Platform::Unix), Sink::File);
    assert_eq!(resolve_sink(Some("/dev/fd/63"), true, Platform::Unix), Sink::Stream);
    assert_eq!(resolve_sink(Some("out.bin"), false, Platform::Unix), Sink::File);
    assert_eq!(resolve_sink(Some(r"\dev\null"), false, Platform::Unix), Sink::File);
    assert_eq!(resolve_sink(Some(r"\dev\null"), false, Platform::Windows), Sink::Discard);
}

#[test]
fn only_a_file_resumes() {
    assert!(should_resume(Sink::File, false, false, true));
    assert!(should_resume(Sink::File, true, false, false));
    assert!(!should_resume(Sink::File, true, true, true));
    assert!(!should_resume(Sink::Stdout, true, false, true));
    assert!(!should_resume(Sink::File, false, false, false));
    assert!(continues_partial(Sink::File, false, true));
    assert!(!continues_partial(Sink::File, true, true));
    assert!(!continues_partial(Sink::Stream, false, true));
}

#[test]
fn auto_is_a_bar_on_a_terminal() {
    assert_eq!(resolve_mode(ProgressMode::Auto, false, true), ProgressMode::Bar);
    assert_eq!(resolve_mode(ProgressMode::Auto, false, false), ProgressMode::Plain);
    assert_eq!(resolve_mode(ProgressMode::Auto, true, true), ProgressMode::Plain);
    assert_eq!(resolve_mode(ProgressMode::Bar, true, false), ProgressMode::Plain);
    assert_eq!(resolve_mode(ProgressMode::Json, true, true), ProgressMode::Json);
}

#[test]
fn verbosity_selects_the_log() {
    assert_eq!(log_filter(0), None);
    assert_eq!(log_filter(1), Some("xget=debug"));
    assert_eq!(log_filter(3), Some("xget=trace"));
}

#[test]
fn a_control_file_tells_of_its_output() {
    assert_eq!(control_output("dir/big.iso.xget", Platform::Unix), Some("dir/big.iso".to_owned()));
    assert_eq!(control_output("big.iso.xget/", Platform::Unix), Some("big.iso".to_owned()));
    assert_eq!(control_output(".xget", Platform::Unix), None);
    assert_eq!(control_output("big.iso", Platform::Unix), None);
    assert_eq!(
        control_output(r"C:\dir\big.iso.xget\", Platform::Windows),
        Some(r"C:\dir\big.iso".to_owned())
    );
    assert_eq!(control_output(r"dir\.xget", Platform::Windows), None);
    assert_eq!(control_output("C:.xget", Platform::Windows), None);
    assert_eq!(control_path("big.iso", Platform::Unix), "big.iso.xget");
    assert_eq!(control_path("big.iso.xget", Platform::Unix), "big.iso.xget");
}

#[test]
fn a_control_file_alone_is_enough_to_resume() {
    let url = || Some("https://example.com/big.iso".to_owned());
    assert_eq!(
        control_resume_target("big.iso.xget", false, url(), Platform::Unix),
        Some(("https://example.com/big.iso".to_owned(), "big.iso".to_owned()))
    );
    assert_eq!(control_resume_target("big.iso.xget", true, url(), Platform::Unix), None);
    assert_eq!(control_resume_target("big.iso.xget", false, None, Platform::Unix), None);
    assert_eq!(control_resume_target("https://example.com/", false, url(), Platform::Unix), None);
}

#[test]
fn a_name_is_inferred_from_the_source_or_the_url() {
    assert_eq!(
        url_basename("https://example.com/a/big.iso?x=1"),
        Ok("big.iso".to_owned())
    );
    assert_eq!(
        url_basename("https://example.com/a/"),
        Err("cannot infer a filename from https://example.com/a/; give an output path".to_owned())
    );
    assert_eq!(
        url_basename("nonsense"),
        Err("relative URL without a base".to_owned())
    );
    assert_eq!(
        infer_name(Some("report.pdf"), "https://example.com/"),
        Ok("report.pdf".to_owned())
    );
    assert_eq!(
        infer_name(None, "https://example.com/b.bin"),
        Ok("b.bin".to_owned())
    );
    let segments = |all: &[&str]| Some(all.iter().map(|s| s.to_string()).collect::<Vec<_>>());
    assert_eq!(segment_name("u", segments(&["dir", "x"])), Ok("x".to_owned()));
    assert_eq!(segment_name("u", segments(&["x"])), Ok("x".to_owned()));
    assert_eq!(
        segment_name("u", segments(&["dir", ""])),
        Err("cannot infer a filename from u; give an output path".to_owned())
    );
    assert!(segment_name("u", segments(&[])).is_err());
    assert!(segment_name("u", None).is_err());
}

#[test]
fn an_output_is_placed_where_asked() {
    assert_eq!(placement(true, true, true), Placement::InDirectory);
    assert_eq!(placement(true, false, true), Placement::AsGiven);
    assert_eq!(placement(false, false, true), Placement::UnderPrefix);
    assert_eq!(placement(false, false, false), Placement::Here);
}

#[test]
fn a_complete_file_is_not_clobbered() {
    assert_eq!(
        may_write("big.iso", true, false),
        Err("big.iso already exists (use -f to overwrite)".to_owned())
    );
    assert_eq!(may_write("big.iso", true, true), Ok(()));
    assert_eq!(may_write("big.iso", false, false), Ok(()));
}

#[test]
fn the_scheme_selects_the_source() {
    match scheme_of("s3://bucket/a/b") {
        Ok(Scheme::S3 { bucket, key }) => {
            assert_eq!(bucket, "bucket");
            assert_eq!(key, "a/b");
        }
        other => panic!("{other:?}"),
    }
    for bad in ["s3://bucket", "s3://bucket/", "s3:///key"] {
        assert_eq!(
            scheme_of(bad).expect_err("no object"),
            "s3 URL must be s3://bucket/key"
        );
    }
    assert!(matches!(scheme_of("ipfs://bafy/x"), Ok(Scheme::Ipfs(rest)) if rest == "bafy/x"));
    assert!(matches!(scheme_of("https://example.com"), Ok(Scheme::Http)));
    assert_eq!(split_object("nothing"), None);
    assert_eq!(
        sidecar_object("s3://b/k.sha256"),
        Ok(Some(("b".to_owned(), "k.sha256".to_owned())))
    );
    assert_eq!(
        sidecar_object("s3://b"),
        Err("s3 checksum URL must be s3://bucket/key".to_owned())
    );
    assert_eq!(sidecar_object("http://b"), Ok(None));
}

#[test]
fn headers_are_validated() {
    assert_eq!(
        parse_header("X-Token:  a:b "),
        Ok(("x-token".to_owned(), "a:b".to_owned()))
    );
    assert_eq!(
        parse_header("nothing"),
        Err("header must be `Name: Value`: nothing".to_owned())
    );
    assert_eq!(
        parse_header("bad name: x"),
        Err("invalid header name: bad name".to_owned())
    );
    assert_eq!(
        parse_header("ok: a\u{7f}"),
        Err("invalid header value:  a\u{7f}".to_owned())
    );
}

#[test]
fn tries_may_be_infinite() {
    assert_eq!(parse_tries("10"), Ok(10));
    assert_eq!(parse_tries("INF"), Ok(u32::MAX));
    assert_eq!(parse_tries("infinite"), Ok(u32::MAX));
    assert_eq!(
        parse_tries("many"),
        Err("expected a number or `inf`, got `many`".to_owned())
    );
    assert!(parse_tries("4294967296").is_err());
}

#[test]
fn a_preamble_announces_the_download() {
    let probe = Some(Probe {
        length: 3,
        supports_ranges: true,
        content_type: Some("text/plain".to_owned()),
        ..Probe::default()
    });
    assert_eq!(
        preamble("http://x", 5, true, &probe, Some("out"), Sink::File, true),
        [
            "\x1b[2mURL:\x1b[0m http://x",
            "\x1b[2mChunks:\x1b[0m 3",
            "\x1b[2mLength:\x1b[0m 3 [text/plain]",
            "\x1b[2mSaving:\x1b[0m 'out'",
            "\x1b[2mResuming a previous download\x1b[0m",
        ]
    );
    assert_eq!(
        preamble("u", 7, false, &None, None, Sink::Stdout, false),
        [
            "\x1b[2mURL:\x1b[0m u",
            "\x1b[2mChunks:\x1b[0m 7",
            "\x1b[2mLength:\x1b[0m unknown",
            "\x1b[2mSaving:\x1b[0m <stdout>",
        ]
    );
    let stream = preamble("u", 7, true, &Some(Probe::default()), Some("p"), Sink::Stream, false);
    assert_eq!(stream[1], "\x1b[2mChunks:\x1b[0m 1");
    assert_eq!(stream[3], "\x1b[2mSaving:\x1b[0m 'p' <stream>");
    let none = preamble("u", 7, true, &None, None, Sink::Discard, false);
    assert_eq!(none[3], "\x1b[2mSaving:\x1b[0m <discarded>");
}

#[test]
fn a_summary_closes_the_download() {
    let report = Report {
        length: 2048,
        hash: Some("ab".to_owned()),
    };
    assert_eq!(
        summary(ProgressMode::Plain, false, Checksum::Md5, &report, "4.29s"),
        ["Downloaded 2 KiB in 4.29s", "Hash(md5): ab"]
    );
    assert!(summary(ProgressMode::Json, false, Checksum::Md5, &report, "4.29s").is_empty());
    let unhashed = Report {
        length: 1,
        hash: None,
    };
    assert_eq!(
        summary(ProgressMode::Quiet, true, Checksum::Skip, &unhashed, "1s"),
        ["Downloaded 1 in 1s"]
    );
    assert_eq!(
        adoption_notice(ProgressMode::Plain, Checksum::Sha1).as_deref(),
        Some("\x1b[2mVerifying against the source's stored sha1 checksum\x1b[0m")
    );
    assert_eq!(adoption_notice(ProgressMode::Json, Checksum::Sha1), None);
}

#[test]
fn a_partial_is_described() {
    let mut info = Inspection {
        source: Some("http://x/y".to_owned()),
        total: 1000,
        downloaded: 250,
        validator: Some("\"v\"".to_owned()),
        checksum: Some(Checksum::Sha256),
    };
    assert_eq!(
        show_info(&info, "y", "25.0", true),
        [
            "Source:     http://x/y",
            "Size:       1000",
            "Downloaded: 250  (25.0%)",
            "Validator:  \"v\"",
            "Status:     resumable   ->  xget y",
        ]
    );
    info.source = None;
    info.validator = None;
    assert_eq!(
        show_info(&info, "y", "25.0", true),
        [
            "Source:     (unknown)",
            "Size:       1000",
            "Downloaded: 250  (25.0%)",
            "Status:     resumable (re-run with the original URL to resume)",
        ]
    );
    assert_eq!(not_resumable("a.xget"), "a.xget is not a resumable xget control file");
}

#[test]
fn a_header_is_made_of_its_two_sides() {
    assert_eq!(
        parse_header(" X-Name :  a: b "),
        Ok(("x-name".to_owned(), "a: b".to_owned()))
    );
    assert_eq!(
        parse_header("X!#$%&'*+-.^_`|~9: \u{e9}\tx"),
        Ok(("x!#$%&'*+-.^_`|~9".to_owned(), "\u{e9}\tx".to_owned()))
    );
    assert_eq!(parse_header("X:"), Ok(("x".to_owned(), String::new())));
    assert_eq!(
        parse_header("X: a\u{1}b"),
        Err("invalid header value:  a\u{1}b".to_owned())
    );
    assert_eq!(
        parse_header("X: a\u{7f}"),
        Err("invalid header value:  a\u{7f}".to_owned())
    );
    for name in ["", "X y", "X\"", "X(", "X,", "X/", "X;", "X=", "X@", "X[", "X{", "\u{e9}"] {
        assert_eq!(
            parse_header(&format!("{name}: v")),
            Err(format!("invalid header name: {name}"))
        );
    }
    let longest = "A".repeat(65535);
    assert_eq!(
        parse_header(&format!("{longest}: v")),
        Ok((longest.to_lowercase(), "v".to_owned()))
    );
    assert!(parse_header(&format!("{longest}A: v")).is_err());
    assert_eq!(
        parse_header("no colon"),
        Err("header must be `Name: Value`: no colon".to_owned())
    );
}

#[test]
fn a_recorded_identity_selects_its_source() {
    let source = xget::S3Source::new("bucket".to_owned(), "dir/key".to_owned());
    match scheme_of(&source.identity().expect("an identity")) {
        Ok(Scheme::S3 { bucket, key }) => assert_eq!((bucket, key), (source.bucket, source.key)),
        other => panic!("{other:?}"),
    }
    match scheme_of("ipfs://cid/path") {
        Ok(Scheme::Ipfs(reference)) => assert_eq!(reference, "cid/path"),
        other => panic!("{other:?}"),
    }
}
