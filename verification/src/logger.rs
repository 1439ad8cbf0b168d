//! Stage timers: a labelled start instant, the elapsed milliseconds a stage
//! took, and the `✓ <label> — <time>` summary line a finished stage prints.

use vstd::prelude::*;
use std::time::{Duration, Instant};
use crate::strs::{chars_of, push_str, str_is_empty, string_of};

verus! {

/// A point in time on the monotonic clock.
#[verifier::external_type_specification]
#[verifier::external_body]
pub struct ExInstant(Instant);

/// `Instant::now`: the current instant. Nothing is stated of it: it is the time.
#[verifier::external_body]
fn instant_now() -> Instant {
    Instant::now()
}

/// `Instant::elapsed`: the time since `start`. Nothing is stated of it: it
/// depends on the clock.
#[verifier::external_body]
fn instant_elapsed(start: &Instant) -> Duration {
    start.elapsed()
}

/// `Duration::as_millis`: the whole milliseconds of a span. Nothing is stated
/// of it: the span comes from the clock.
#[verifier::external_body]
fn duration_millis(d: &Duration) -> u128 {
    d.as_millis()
}

/// A named stage timer.
pub struct Timer {
    label: String,
    start: Instant,
}

impl Timer {
    /// The stage label.
    pub closed spec fn label_view(&self) -> Seq<char> {
        self.label@
    }

    /// Starts timing the stage `label` now.
    pub fn start(label: &str) -> (r: Self)
        ensures
            r.label_view() == label@,
    {
        Timer { label: label.to_string(), start: instant_now() }
    }

    /// The stage label.
    pub fn label(&self) -> (r: &str)
        ensures
            r@ == self.label_view(),
    {
        self.label.as_str()
    }

    /// The time since the stage started.
    pub fn elapsed(&self) -> Duration {
        instant_elapsed(&self.start)
    }

    /// The stage's elapsed whole milliseconds, without printing anything (the
    /// number is recorded, kept out of the console output).
    pub fn finish_quiet(self) -> u64 {
        let d = self.elapsed();
        let ms = duration_millis(&d);
        #[verifier::truncate]
        (ms as u64)
    }
}

/// The line a finished stage prints: `✓ <label> — <time>`, followed by
/// ` (<extra>)` when there is extra detail.
pub open spec fn spec_finish_line(label: Seq<char>, time: Seq<char>, extra: Seq<char>) -> Seq<char> {
    "✓ "@ + label + " — "@ + time + if extra.len() == 0 { Seq::empty() } else { " ("@ + extra + ")"@ }
}

/// The summary line of a finished stage, given its formatted elapsed time.
pub fn finish_line(label: &str, time: &str, extra: &str) -> (r: String)
    ensures
        r@ == spec_finish_line(label@, time@, extra@),
{
    let mut v: Vec<char> = Vec::new();
    push_str(&mut v, "✓ ");
    push_str(&mut v, label);
    push_str(&mut v, " — ");
    push_str(&mut v, time);
    if !str_is_empty(extra) {
        push_str(&mut v, " (");
        push_str(&mut v, extra);
        push_str(&mut v, ")");
    }
    string_of(&v)
}

/// How much the console shows: errors only, errors plus warnings and
/// confirmations, or everything including the command echo.
#[derive(Clone, Copy, Debug, PartialEq, Eq, Structural)]
pub enum OutputMode {
    Quiet,
    Summary,
    Verbose,
}

/// The kind of a console message.
#[derive(Clone, Copy, Debug, PartialEq, Eq, Structural)]
pub enum MessageKind {
    /// Always shown, even in quiet mode.
    Error,
    /// Warnings and written-artifact confirmations.
    Summary,
    /// The command echo and the config line.
    Verbose,
}

/// Whether a message of `kind` is shown in `mode`: errors always, summary
/// lines unless quiet, verbose lines only in verbose mode.
pub open spec fn spec_should_log(mode: OutputMode, kind: MessageKind) -> bool {
    match kind {
        MessageKind::Error => true,
        MessageKind::Summary => mode != OutputMode::Quiet,
        MessageKind::Verbose => mode == OutputMode::Verbose,
    }
}

/// Whether a message of `kind` is shown in `mode` (see `spec_should_log`).
pub fn should_log(mode: OutputMode, kind: MessageKind) -> (r: bool)
    ensures
        r == spec_should_log(mode, kind),
{
    match kind {
        MessageKind::Error => true,
        MessageKind::Summary => match mode {
            OutputMode::Quiet => false,
            _ => true,
        },
        MessageKind::Verbose => match mode {
            OutputMode::Verbose => true,
            _ => false,
        },
    }
}

} // verus!
