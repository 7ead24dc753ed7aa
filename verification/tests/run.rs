//! A run of the command line, decision by decision.

use xget::cli::expect::Expect;
use xget::cli::naming::Placement;
use xget::cli::run::{destination, orders, reads_control, retarget, Request, HUGE};
use xget::cli::sink::Sink;
use xget::{Checksum, Platform, Probe};

fn request(url: &str, output: Option<&str>) -> Request {
    Request {
        url: url.to_owned(),
        output: output.map(str::to_owned),
        chunks: 8,
        tries: 3,
        resume: false,
        restart: false,
        sequential: false,
        checksum: None,
        timeout: None,
    }
}

fn probe(length: u64, checksum: Option<(Checksum, String)>) -> Option<Probe> {
    Some(Probe {
        length,
        supports_ranges: true,
        checksum,
        ..Probe::default()
    })
}

#[test]
fn a_control_file_retargets_the_run() {
    let run = request("dir/big.iso.xget", None);
    assert!(reads_control(&run, Platform::Unix));
    let run = retarget(run, Some("https://example.com/big.iso".to_owned()), Some(Checksum::Blake3), Platform::Unix);
    assert_eq!(run.url, "https://example.com/big.iso");
    assert_eq!(run.output.as_deref(), Some("dir/big.iso"));
    assert!(run.resume);
    assert_eq!(run.chunks, 8);
    assert_eq!(run.checksum, Some(Checksum::Blake3), "the digest the first run would have reported");

    let mut run = request("big.iso.xget", None);
    run.checksum = Some(Checksum::Md5);
    let run = retarget(run, Some("https://example.com/big.iso".to_owned()), Some(Checksum::Blake3), Platform::Unix);
    assert_eq!(run.checksum, Some(Checksum::Md5), "the one that was asked for");
}

#[test]
fn a_plain_run_is_not_retargeted() {
    let run = request("https://example.com/big.iso", None);
    assert!(!reads_control(&run, Platform::Unix));
    let run = retarget(run, Some("https://example.com/other".to_owned()), Some(Checksum::Md5), Platform::Unix);
    assert_eq!(run.url, "https://example.com/big.iso");
    assert_eq!(run.output, None);
    assert_eq!(run.checksum, None);
    assert!(!run.resume);

    let run = request("big.iso.xget", Some("elsewhere"));
    assert!(!reads_control(&run, Platform::Unix));
    let run = retarget(run, Some("https://example.com/other".to_owned()), Some(Checksum::Md5), Platform::Unix);
    assert_eq!(run.url, "big.iso.xget");

    let run = retarget(request("big.iso.xget", None), None, None, Platform::Unix);
    assert_eq!(run.url, "big.iso.xget", "no source was recorded");
}

#[test]
fn a_destination_is_named_where_it_has_to_be() {
    let url = "https://example.com/dir/big.iso";
    assert_eq!(
        destination(&request(url, Some("out")), Sink::File, None, false, false),
        Ok(Some((Placement::AsGiven, None)))
    );
    assert_eq!(
        destination(&request(url, Some("out")), Sink::File, None, true, false),
        Ok(Some((Placement::InDirectory, Some("big.iso".to_owned()))))
    );
    assert_eq!(
        destination(&request(url, None), Sink::File, Some("name.bin"), false, true),
        Ok(Some((Placement::UnderPrefix, Some("name.bin".to_owned()))))
    );
    assert_eq!(
        destination(&request(url, None), Sink::File, None, false, false),
        Ok(Some((Placement::Here, Some("big.iso".to_owned()))))
    );
    assert_eq!(destination(&request(url, Some("-")), Sink::Stdout, None, false, false), Ok(None));
    assert!(destination(&request("https://example.com/", None), Sink::File, None, false, false).is_err());
}

#[test]
fn orders_follow_the_request() {
    let run = request("https://example.com/a", None);
    let given = orders(&run, Sink::File, false, None, None, "", &probe(10, None)).expect("no objection");
    assert_eq!(given.options.parts, 8);
    assert_eq!(given.options.retries, 3);
    assert_eq!(given.options.checksum, Checksum::Sha256);
    assert!(!given.options.resume && !given.options.sequential && !given.partial);
    assert!(given.expected.is_none() && given.adopted.is_none());
}

#[test]
fn a_partial_is_continued_unless_told_otherwise() {
    let mut run = request("https://example.com/a", None);
    let given = orders(&run, Sink::File, true, None, None, "", &None).expect("no objection");
    assert!(given.options.resume && given.partial);
    run.restart = true;
    let given = orders(&run, Sink::File, true, None, None, "", &None).expect("no objection");
    assert!(!given.options.resume && !given.partial);
    run.restart = false;
    run.resume = true;
    let given = orders(&run, Sink::File, false, None, None, "", &None).expect("no objection");
    assert!(given.options.resume && !given.partial);
    let given = orders(&run, Sink::Stdout, true, None, None, "", &None).expect("no objection");
    assert!(!given.options.resume && !given.partial);
}

#[test]
fn a_pipe_that_overflows_the_scratch_space_is_streamed() {
    let mut run = request("https://example.com/a", None);
    let streams = |run: &Request, sink, room| {
        orders(run, sink, false, room, None, "", &probe(100, None))
            .expect("no objection")
            .options
            .sequential
    };
    assert!(streams(&run, Sink::Stdout, Some(99)));
    assert!(streams(&run, Sink::Stream, Some(99)));
    assert!(!streams(&run, Sink::Stdout, Some(100)));
    assert!(!streams(&run, Sink::Stdout, None));
    assert!(!streams(&run, Sink::File, Some(99)));
    assert!(!streams(&run, Sink::Discard, Some(99)));
    let huge = |sink, length| {
        orders(&run, sink, false, None, None, "", &probe(length, None))
            .expect("no objection")
            .options
            .sequential
    };
    assert!(huge(Sink::Stdout, HUGE + 1));
    assert!(huge(Sink::Stream, HUGE + 1));
    assert!(!huge(Sink::Stdout, HUGE));
    assert!(!huge(Sink::File, HUGE + 1));
    run.sequential = true;
    assert!(streams(&run, Sink::File, None));
}

#[test]
fn a_vouched_checksum_is_ordered() {
    let run = request("https://example.com/a", None);
    let vouched = probe(1, Some((Checksum::Sha1, "abcd".to_owned())));
    let given = orders(&run, Sink::File, false, None, None, "", &vouched).expect("no objection");
    assert_eq!(given.adopted, Some(Checksum::Sha1));
    assert_eq!(given.expected, Some((Some(Checksum::Sha1), "abcd".to_owned())));
    assert_eq!(given.options.checksum, Checksum::Sha1);

    let literal = Expect::Literal {
        algo: Some(Checksum::Md5),
        hex: "00ff".to_owned(),
    };
    let given = orders(&run, Sink::File, false, None, Some(literal), "", &vouched).expect("no objection");
    assert_eq!(given.adopted, None);
    assert_eq!(given.options.checksum, Checksum::Md5);
}

#[test]
fn a_checksum_file_without_a_digest_is_refused() {
    let run = request("https://example.com/a", None);
    let sidecar = || Expect::Sidecar {
        algo: None,
        url: "https://example.com/a.sha256".to_owned(),
    };
    let digest = "0123456789ABCDEF0123456789abcdef";
    let body = format!("{digest}  a\n");
    let given = orders(&run, Sink::File, false, None, Some(sidecar()), &body, &None).expect("a digest");
    assert_eq!(given.expected, Some((None, digest.to_ascii_lowercase())));
    assert_eq!(
        orders(&run, Sink::File, false, None, Some(sidecar()), "not here", &None).expect_err("no digest"),
        "no checksum found at https://example.com/a.sha256"
    );
}

#[test]
fn an_expectation_without_an_algorithm_is_refused() {
    let mut run = request("https://example.com/a", None);
    run.checksum = Some(Checksum::Skip);
    let literal = Expect::Literal {
        algo: None,
        hex: "00ff".to_owned(),
    };
    assert_eq!(
        orders(&run, Sink::File, false, None, Some(literal), "", &None).expect_err("no algorithm"),
        "--expect needs an algorithm: pass --checksum or use algo:hex"
    );
}
