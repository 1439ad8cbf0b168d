use code_ranker::logger::{should_log, MessageKind, OutputMode};
use code_ranker::fmt::{decimal_string, str_byte_len};
use code_ranker::logger::{finish_line, Timer};
use code_ranker::sample::OnlyDerived;

#[test]
fn decimal_and_byte_lengths() {
    assert_eq!(decimal_string(0), "0");
    assert_eq!(decimal_string(1234567), "1234567");
    assert_eq!(str_byte_len("a—b"), 5);
}

#[test]
fn timer_keeps_its_label_and_formats_the_finish_line() {
    let t = Timer::start("analyze");
    assert_eq!(t.label(), "analyze");
    let _ms: u64 = t.finish_quiet();
    assert_eq!(finish_line("analyze", "0.12s", ""), "✓ analyze — 0.12s");
    assert_eq!(finish_line("analyze", "0.12s", "3 files"), "✓ analyze — 0.12s (3 files)");
}

#[test]
fn sample_fixture_holds_its_value() {
    let d = OnlyDerived { v: 3 };
    assert_eq!(d.v, 3);
}

#[test]
fn output_modes_filter_messages() {
    for mode in [OutputMode::Quiet, OutputMode::Summary, OutputMode::Verbose] {
        assert!(should_log(mode, MessageKind::Error));
    }
    assert!(!should_log(OutputMode::Quiet, MessageKind::Summary));
    assert!(should_log(OutputMode::Summary, MessageKind::Summary));
    assert!(should_log(OutputMode::Verbose, MessageKind::Summary));
    assert!(!should_log(OutputMode::Summary, MessageKind::Verbose));
    assert!(should_log(OutputMode::Verbose, MessageKind::Verbose));
}
