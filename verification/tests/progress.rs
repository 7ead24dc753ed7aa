//! How progress is counted and written.

use xget::progress::bar::{bar_width, frame, is_multi, locale_is_utf8, supports_unicode};
use xget::progress::json::{end_event, escape, progress_event, retry_event, verified_event};
use xget::progress::meter::{total_of, Meter};
use xget::progress::plain::{progress_line, retry_line};
use xget::progress::sizes::{fmt_size, fmt_speed, format_eta};
use xget::Progress;

#[test]
fn speed_defaults_to_bytes_matching_the_size_readout() {
    // 10 MiB/s: bytes by default, IEC, the same spelling as the size readout, with a `/s` suffix.
    assert_eq!(fmt_speed(10 * 1024 * 1024, false, false), "10 MiB/s");
}

#[test]
fn bits_flag_renders_decimal_bits_per_second() {
    // 10 MiB/s in bits is ~83.89 Mbps (10 * 1024 * 1024 * 8 / 1_000_000), contracted `Mbps`.
    assert_eq!(fmt_speed(10 * 1024 * 1024, false, true), "83.89 Mbps");
}

#[test]
fn raw_takes_precedence_over_bits() {
    // A raw count is a byte count, so --bits does not apply: a plain number with a `/s` suffix, even with
    // bits requested.
    assert_eq!(fmt_speed(1_048_576, true, true), "1048576/s");
}

#[test]
fn bar_utf8_locales_are_recognized() {
    assert!(locale_is_utf8("en_US.UTF-8"));
    assert!(locale_is_utf8("C.utf8"));
    assert!(!locale_is_utf8("C"));
    assert!(!locale_is_utf8("en_US.ISO8859-1"));
}

#[test]
fn bar_tests_utf8_locales_are_recognized() {
    assert!(locale_is_utf8("en_US.UTF-8"));
    assert!(locale_is_utf8("C.utf8"));
    assert!(!locale_is_utf8("C"));
    assert!(!locale_is_utf8("en_US.ISO8859-1"));
}

#[test]
fn the_first_locale_setting_decides() {
    assert!(!supports_unicode(Some("C"), Some("en_US.UTF-8"), None));
    assert!(supports_unicode(None, Some("en_US.UTF-8"), Some("C")));
    assert!(supports_unicode(None, None, Some("de_DE.utf8")));
    assert!(!supports_unicode(None, None, None));
}

#[test]
fn sizes_are_written_in_powers_of_1024_or_raw() {
    assert_eq!(fmt_size(2048, false), "2 KiB");
    assert_eq!(fmt_size(2048, true), "2048");
    assert_eq!(fmt_size(0, true), "0");
    assert_eq!(fmt_size(512, false), "512 B");
}

#[test]
fn slow_speeds_are_whole_bits() {
    assert_eq!(fmt_speed(100, false, true), "800 bps");
    // 15625 bytes are exactly 125 kilobits.
    assert!(fmt_speed(15_625, false, true).starts_with("125 "));
}

#[test]
fn waits_are_compact() {
    assert_eq!(format_eta(5), "5s");
    assert_eq!(format_eta(184), "3m4s");
    assert_eq!(format_eta(3725), "1h2m");
    assert_eq!(format_eta(0), "0s");
}

#[test]
fn the_bar_scales_with_the_terminal() {
    assert_eq!(bar_width(Some(80), true), 32);
    assert_eq!(bar_width(Some(80), false), 28);
    assert_eq!(bar_width(None, false), 28);
    assert_eq!(bar_width(Some(20), true), 8);
    assert_eq!(bar_width(Some(300), true), 48);
    assert_eq!(bar_width(Some(u16::MAX), false), 48);
    assert!(!is_multi(1));
    assert!(is_multi(2));
    assert!(is_multi(19));
    assert!(!is_multi(20));
}

#[test]
fn a_meter_counts_and_estimates() {
    let mut meter = Meter::new(1000, 5000);
    assert_eq!(meter.percent(), 0);
    meter.add(5500, 100);
    // 100 bytes in half a second are 200 a second; 900 remain.
    assert_eq!(meter.rate(5500), 200);
    assert_eq!(meter.eta(5500), 4);
    assert_eq!(meter.eta_clock(5500), "00:04");
    assert_eq!(meter.percent(), 10);
    assert_eq!(meter.elapsed_ms(5500), 500);
    assert_eq!(meter.elapsed_ms(4000), 0);
}

#[test]
fn restored_bytes_have_no_speed() {
    let mut meter = Meter::new(1000, 0);
    meter.restore(400);
    assert_eq!(meter.done(), 400);
    assert_eq!(meter.rate(100), 0);
    assert_eq!(meter.eta(100), 0);
}

#[test]
fn redraws_are_throttled() {
    let mut meter = Meter::new(10, 1000);
    assert!(!meter.advance(1059, 1, 60));
    assert!(meter.advance(1060, 1, 60));
    assert!(!meter.ready(1100, 60));
    assert!(meter.ready(1120, 60));
    assert!(meter.ready(1120, 0));
}

#[test]
fn a_meter_of_nothing_reads_zero_percent() {
    assert_eq!(Meter::new(0, 0).percent(), 0);
}

#[test]
fn totals_add_up() {
    assert_eq!(total_of(&[1, 2, 3]), 6);
    assert_eq!(total_of(&[]), 0);
}

#[test]
fn a_plain_line_shows_everything() {
    let mut meter = Meter::new(2048, 0);
    meter.add(1000, 1024);
    assert_eq!(
        progress_line(&mut meter, 1000, " 50.0", false, false),
        "\r\x1b[K 50.0%  1 KiB/2 KiB  1 KiB/s  ETA 00:01"
    );
}

#[test]
fn a_retry_line_counts_chunks_from_one() {
    assert_eq!(
        retry_line(0, 2, 10, 512, "connection reset", true),
        "\r\x1b[Kchunk 1 retry 2/10: connection reset (from 512)"
    );
}

#[test]
fn json_events_are_lines_of_json() {
    let mut meter = Meter::new(1000, 0);
    meter.add(500, 100);
    assert_eq!(
        progress_event(&mut meter, 500, "10.0"),
        r#"{"event":"progress","done":100,"total":1000,"percent":10.0,"speed":200,"eta":4}"#
    );
    assert_eq!(
        retry_event(3, 1, 10, 7, r#"a "quoted" \ cause"#),
        r#"{"event":"retry","chunk":3,"retry":1,"max":10,"resume_from":7,"error":"a \"quoted\" \\ cause"}"#
    );
    assert_eq!(
        end_event(&meter, 1500),
        r#"{"event":"end","done":100,"total":1000,"elapsed":1500}"#
    );
    assert_eq!(escape(r#"\""#), r#"\\\""#);
}

#[test]
fn a_frame_has_one_or_two_lines() {
    let mut meter = Meter::new(100, 0);
    meter.add(1000, 50);
    let one = frame(&mut meter, 1000, "====", "==|=", false, true, false);
    assert_eq!(
        one,
        "  \x1b[2m[\x1b[0m====\x1b[2m]\x1b[0m  \x1b[1m\x1b[32m 50%\x1b[0m  \x1b[1m\x1b[94m50/s\x1b[0m  \
         \x1b[1m\x1b[33m1s\x1b[0m  \x1b[1m\x1b[32m50/100\x1b[0m"
    );
    let two = frame(&mut meter, 1000, "====", "==|=", true, true, false);
    assert_eq!(two.lines().count(), 2);
    assert!(two.contains("┏") && two.contains("==|="));
}

#[test]
fn a_reporter_may_ignore_everything() {
    let none = ();
    none.start(&[1]);
    none.restore(&[1]);
    none.received(0, 1);
    none.wrote(0, 1);
    none.retry(0, 1, 1, 0, "why");
    none.finish();
}

#[test]
fn a_verified_event_carries_the_checksum() {
    assert_eq!(
        verified_event(xget::Checksum::Md5, "00ff"),
        r#"{"event":"verified","checksum":"md5","hash":"00ff"}"#
    );
}

#[test]
fn a_retry_event_is_one_line_of_json() {
    assert_eq!(
        retry_event(0, 1, 3, 5, "a\nb"),
        r#"{"event":"retry","chunk":0,"retry":1,"max":3,"resume_from":5,"error":"a\nb"}"#
    );
    assert_eq!(escape("\r\t\u{0}\u{8}\u{1b}\u{1f}"), r"\r\t\u0000\u0008\u001b\u001f");
    assert!(!verified_event(xget::Checksum::Md5, "0\n").contains('\n'));
    assert_eq!(escape("\u{7f}\u{e9} \u{2028}"), "\u{7f}\u{e9} \u{2028}");
}
