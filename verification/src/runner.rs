//! The rules of a check execution: how much output is kept, how captured
//! output becomes text, how a wait for the process proceeds, and how the
//! outcome becomes a raw result. Starting, waiting for and killing the process
//! is the caller's part.
use vstd::prelude::*;
use vstd::utf8::{decode_utf8, valid_utf8};

use std::time::{Duration, Instant};

use crate::model::{Execution, Fact};
use crate::text::{decimal, message, push_decimal};

verus! {

/// At most this many bytes of each output stream are kept.
pub const OUTPUT_LIMIT: usize = 64 * 1024;

/// A point in time of the monotonic clock.
#[verifier::external_type_specification]
#[verifier::external_body]
pub struct ExInstant(Instant);

/// `Instant::elapsed`: the time since `started`. Nothing is promised of the
/// result, which depends on the clock.
#[verifier::external_body]
fn elapsed_since(started: &Instant) -> Duration {
    started.elapsed()
}

/// `Duration::as_millis`: the whole milliseconds of `d`. The result is not
/// stated: a `Duration` is opaque here.
#[verifier::external_body]
fn whole_millis(d: &Duration) -> u128 {
    d.as_millis()
}

/// Milliseconds as a `u64`, saturating at `u64::MAX`.
pub fn saturate_millis(ms: u128) -> (r: u64)
    ensures
        r == if ms > u64::MAX {
            u64::MAX as int
        } else {
            ms as int
        },
{
    if ms > 18446744073709551615u128 {
        18446744073709551615u64
    } else {
        ms as u64
    }
}

/// The milliseconds since `started`, saturating at `u64::MAX`.
pub fn elapsed_ms(started: &Instant) -> u64 {
    saturate_millis(whole_millis(&elapsed_since(started)))
}

/// What is kept of a stream of `total` bytes: the first `OUTPUT_LIMIT` bytes,
/// and whether there were more.
pub open spec fn captured(total: Seq<u8>) -> (Seq<u8>, bool) {
    if total.len() <= OUTPUT_LIMIT {
        (total, false)
    } else {
        (total.take(OUTPUT_LIMIT as int), true)
    }
}

/// The bytes read so far from one output stream, bounded by `OUTPUT_LIMIT`.
pub struct CaptureBuffer {
    bytes: Vec<u8>,
    exceeded: bool,
}

impl View for CaptureBuffer {
    type V = (Seq<u8>, bool);

    closed spec fn view(&self) -> (Seq<u8>, bool) {
        (self.bytes@, self.exceeded)
    }
}

impl CaptureBuffer {
    #[verifier::type_invariant]
    spec fn bounded(self) -> bool {
        self.bytes@.len() <= OUTPUT_LIMIT
    }

    /// A buffer that has read nothing.
    pub fn new() -> (b: CaptureBuffer)
        ensures
            b@ == captured(Seq::empty()),
    {
        CaptureBuffer { bytes: Vec::new(), exceeded: false }
    }

    /// Reads one more chunk: keeps what fits and remembers whether anything
    /// did not.
    pub fn append(&mut self, chunk: &[u8])
        ensures
            forall|total: Seq<u8>|
                old(self)@ == captured(total) ==> final(self)@ == captured(total + chunk@),
            final(self)@.0 == (old(self)@.0 + chunk@).take(
                if old(self)@.0.len() + chunk@.len() <= OUTPUT_LIMIT {
                    (old(self)@.0.len() + chunk@.len()) as int
                } else {
                    OUTPUT_LIMIT as int
                },
            ),
            final(self)@.1 == (old(self)@.1 || old(self)@.0.len() + chunk@.len() > OUTPUT_LIMIT),
    {
        proof {
            use_type_invariant(&*self);
        }
        let remaining = OUTPUT_LIMIT - self.bytes.len();
        let keep = if chunk.len() < remaining {
            chunk.len()
        } else {
            remaining
        };
        let ghost before = self.bytes@;
        let mut bytes: Vec<u8> = Vec::new();
        std::mem::swap(&mut bytes, &mut self.bytes);
        let mut i: usize = 0;
        while i < keep
            invariant
                keep <= chunk@.len(),
                before.len() + keep <= OUTPUT_LIMIT,
                i <= keep,
                bytes@ == before + chunk@.take(i as int),
            decreases keep - i,
        {
            bytes.push(chunk[i]);
            assert(chunk@.take(i + 1) =~= chunk@.take(i as int).push(chunk@[i as int]));
            i += 1;
        }
        assert(bytes@ =~= (before + chunk@).take(before.len() + keep));
        let exceeded = self.exceeded || chunk.len() > remaining;
        *self = CaptureBuffer { bytes, exceeded };
        proof {
            assert forall|total: Seq<u8>| old(self)@ == captured(total) implies final(self)@
                == captured(total + chunk@) by {
                if total.len() <= OUTPUT_LIMIT {
                    assert(total == before);
                    if total.len() + chunk@.len() > OUTPUT_LIMIT {
                        assert((total + chunk@).take(OUTPUT_LIMIT as int) =~= (before
                            + chunk@).take(before.len() + keep));
                    }
                } else {
                    assert(before =~= total.take(OUTPUT_LIMIT as int));
                    assert((total + chunk@).take(OUTPUT_LIMIT as int) =~= before);
                    assert((before + chunk@).take(before.len() + keep) =~= before);
                }
            }
        }
    }

    /// The kept bytes and whether the stream was longer.
    pub fn into_parts(self) -> (r: (Vec<u8>, bool))
        ensures
            (r.0@, r.1) == self@,
    {
        (self.bytes, self.exceeded)
    }
}

/// The text that replaces undecodable bytes by U+FFFD (`String::from_utf8_lossy`).
pub uninterp spec fn lossy_utf8(bytes: Seq<u8>) -> Seq<char>;

/// Whether `bytes` is valid UTF-8 (`std::str::from_utf8` succeeds).
#[verifier::external_body]
fn is_utf8(bytes: &[u8]) -> (r: bool)
    ensures
        r == valid_utf8(bytes@),
{
    match std::str::from_utf8(bytes) {
        Ok(_) => true,
        Err(_) => false,
    }
}

/// `String::from_utf8_lossy`: the text of `bytes`, in which every invalid
/// sequence becomes U+FFFD; valid UTF-8 is decoded unchanged.
#[verifier::external_body]
fn lossy_text(bytes: &[u8]) -> (s: String)
    ensures
        s@ == lossy_utf8(bytes@),
        valid_utf8(bytes@) ==> s@ == decode_utf8(bytes@),
{
    String::from_utf8_lossy(bytes).into_owned()
}

/// What reading one stream gave: the kept bytes and whether there were more,
/// or the reason reading failed.
pub type StreamRead = Result<(Vec<u8>, bool), String>;

pub open spec fn stream_read_view(r: StreamRead) -> Result<(Seq<u8>, bool), Seq<char>> {
    match r {
        Ok((b, x)) => Ok((b@, x)),
        Err(e) => Err(e@),
    }
}

/// The decimal notation of `OUTPUT_LIMIT`.
pub open spec fn output_limit_text() -> Seq<char> {
    decimal(OUTPUT_LIMIT as nat)
}

/// The text of a stream and the problems found while decoding it.
pub open spec fn decode_spec(read: Result<(Seq<u8>, bool), Seq<char>>, stream: Seq<char>) -> (
    Seq<char>,
    Seq<Seq<char>>,
) {
    match read {
        Err(e) => (Seq::empty(), seq!["failed reading "@ + stream + ": "@ + e]),
        Ok((bytes, exceeded)) => {
            let limit_errors = if exceeded {
                seq![stream + " exceeded "@ + output_limit_text() + " bytes"@]
            } else {
                Seq::<Seq<char>>::empty()
            };
            if valid_utf8(bytes) {
                (decode_utf8(bytes), limit_errors)
            } else {
                (lossy_utf8(bytes), limit_errors.push(stream + " is not UTF-8"@))
            }
        },
    }
}

pub open spec fn strings_view(v: Seq<String>) -> Seq<Seq<char>> {
    v.map_values(|s: String| s@)
}

fn push_error(errors: &mut Vec<String>, e: String)
    ensures
        strings_view(final(errors)@) == strings_view(old(errors)@).push(e@),
{
    errors.push(e);
    assert(strings_view(errors@) =~= strings_view(old(errors)@).push(e@));
}

/// Turns one captured stream into text, recording problems in `errors`.
pub fn decode(read: StreamRead, stream: &str, errors: &mut Vec<String>) -> (text: String)
    ensures
        text@ == decode_spec(stream_read_view(read), stream@).0,
        strings_view(final(errors)@) == strings_view(old(errors)@) + decode_spec(
            stream_read_view(read),
            stream@,
        ).1,
{
    match read {
        Err(e) => {
            let mut m = message("failed reading ", stream);
            m.append(": ");
            m.append(e.as_str());
            push_error(errors, m);
            assert(strings_view(errors@) =~= strings_view(old(errors)@) + decode_spec(
                stream_read_view(Err(e)),
                stream@,
            ).1);
            String::new()
        },
        Ok((bytes, exceeded)) => {
            let ghost start = strings_view(errors@);
            if exceeded {
                let mut m = message(stream, " exceeded ");
                push_decimal(&mut m, OUTPUT_LIMIT as u64);
                m.append(" bytes");
                push_error(errors, m);
            }
            let valid = is_utf8(bytes.as_slice());
            let text = lossy_text(bytes.as_slice());
            if !valid {
                push_error(errors, message(stream, " is not UTF-8"));
            }
            assert(strings_view(errors@) =~= start + decode_spec(
                stream_read_view(Ok((bytes, exceeded))),
                stream@,
            ).1);
            text
        },
    }
}

/// The technical outcome of running a check, before its output is read.
#[derive(Debug)]
pub struct RawCheckResult {
    pub execution: Execution,
    pub exit_code: Option<i32>,
    pub stdout: String,
    pub stderr: String,
    pub duration_ms: u64,
    pub error: Option<String>,
}

/// A result with no output for an execution that could not go on.
pub fn failed(execution: Execution, started: &Instant, error: String) -> (r: RawCheckResult)
    ensures
        r.execution == execution,
        r.exit_code is None,
        r.stdout@.len() == 0,
        r.stderr@.len() == 0,
        r.error matches Some(e) && e@ == error@,
{
    RawCheckResult {
        execution,
        exit_code: None,
        stdout: String::new(),
        stderr: String::new(),
        duration_ms: elapsed_ms(started),
        error: Some(error),
    }
}

/// The parts joined by `sep` (`[String]::join`).
pub open spec fn join(parts: Seq<Seq<char>>, sep: Seq<char>) -> Seq<char>
    decreases parts.len(),
{
    if parts.len() == 0 {
        Seq::empty()
    } else if parts.len() == 1 {
        parts[0]
    } else {
        join(parts.drop_last(), sep) + sep + parts.last()
    }
}

/// Joins `parts` with `sep`.
pub fn join_strings(parts: &Vec<String>, sep: &str) -> (r: String)
    ensures
        r@ == join(strings_view(parts@), sep@),
{
    let mut r = String::new();
    let mut i: usize = 0;
    while i < parts.len()
        invariant
            i <= parts.len(),
            r@ == join(strings_view(parts@).take(i as int), sep@),
        decreases parts.len() - i,
    {
        let ghost done = strings_view(parts@).take(i as int);
        assert(strings_view(parts@).take(i + 1).drop_last() =~= done);
        if i > 0 {
            r.append(sep);
        }
        r.append(parts[i].as_str());
        assert(i == 0 ==> done =~= Seq::<Seq<char>>::empty());
        i += 1;
    }
    assert(strings_view(parts@).take(i as int) =~= strings_view(parts@));
    r
}

/// The problems of a finished execution: those of both streams, then the timeout.
pub open spec fn finish_errors(
    stdout: Result<(Seq<u8>, bool), Seq<char>>,
    stderr: Result<(Seq<u8>, bool), Seq<char>>,
    timed_out: bool,
    timeout_ms: u64,
) -> Seq<Seq<char>> {
    let base = decode_spec(stdout, "stdout"@).1 + decode_spec(stderr, "stderr"@).1;
    if timed_out {
        base.push("timed out after "@ + decimal(timeout_ms as nat) + " ms"@)
    } else {
        base
    }
}

/// The execution state of a finished process: a timeout wins; otherwise it
/// completed when no problem was found.
pub open spec fn finish_execution(timed_out: bool, errors: Seq<Seq<char>>) -> Execution {
    if timed_out {
        Execution::TimedOut
    } else if errors.len() == 0 {
        Execution::Completed
    } else {
        Execution::InvalidOutput
    }
}

/// The raw result of a process that ended, or was killed at its deadline.
pub fn finish(
    started: &Instant,
    timeout_ms: u64,
    exit_code: Option<i32>,
    timed_out: bool,
    stdout: StreamRead,
    stderr: StreamRead,
) -> (r: RawCheckResult)
    ensures
        ({
            let errors = finish_errors(
                stream_read_view(stdout),
                stream_read_view(stderr),
                timed_out,
                timeout_ms,
            );
            &&& r.execution == finish_execution(timed_out, errors)
            &&& r.exit_code == exit_code
            &&& r.stdout@ == decode_spec(stream_read_view(stdout), "stdout"@).0
            &&& r.stderr@ == decode_spec(stream_read_view(stderr), "stderr"@).0
            &&& match r.error {
                Some(e) => errors.len() > 0 && e@ == join(errors, "; "@),
                None => errors.len() == 0,
            }
        }),
{
    let ghost out_view = stream_read_view(stdout);
    let ghost err_view = stream_read_view(stderr);
    let mut errors: Vec<String> = Vec::new();
    assert(strings_view(errors@) =~= Seq::<Seq<char>>::empty());
    let stdout_text = decode(stdout, "stdout", &mut errors);
    let stderr_text = decode(stderr, "stderr", &mut errors);
    assert(strings_view(errors@) =~= decode_spec(out_view, "stdout"@).1 + decode_spec(
        err_view,
        "stderr"@,
    ).1);
    if timed_out {
        let mut m = String::from_str("timed out after ");
        push_decimal(&mut m, timeout_ms);
        m.append(" ms");
        push_error(&mut errors, m);
    }
    let execution = if timed_out {
        Execution::TimedOut
    } else if errors.len() == 0 {
        Execution::Completed
    } else {
        Execution::InvalidOutput
    };
    let error = if errors.len() == 0 {
        None
    } else {
        Some(join_strings(&errors, "; "))
    };
    RawCheckResult {
        execution,
        exit_code,
        stdout: stdout_text,
        stderr: stderr_text,
        duration_ms: elapsed_ms(started),
        error,
    }
}

/// What polling a running process found.
pub enum WaitStatus {
    /// The process ended, with this exit code if it has one.
    Exited(Option<i32>),
    /// The process is still running.
    Running,
    /// Asking for the process state failed.
    Failed(String),
}

/// What to do next while waiting for a process.
pub enum WaitStep {
    /// The process ended.
    Finished { exit_code: Option<i32>, timed_out: bool },
    /// Wait a little and poll again.
    Poll,
    /// The deadline passed: kill the process and collect its status.
    Terminate,
    /// The state could not be read: kill the process and report a spawn failure.
    Abandon(String),
}

/// The next step of waiting, given what polling found and whether the
/// deadline is still ahead.
pub fn next_wait_step(status: WaitStatus, before_deadline: bool) -> (step: WaitStep)
    ensures
        match status {
            WaitStatus::Exited(code) => step == (WaitStep::Finished {
                exit_code: code,
                timed_out: false,
            }),
            WaitStatus::Running => if before_deadline {
                step is Poll
            } else {
                step is Terminate
            },
            WaitStatus::Failed(e) => step matches WaitStep::Abandon(m) && m@ == e@,
        },
{
    match status {
        WaitStatus::Exited(code) => WaitStep::Finished { exit_code: code, timed_out: false },
        WaitStatus::Running => if before_deadline {
            WaitStep::Poll
        } else {
            WaitStep::Terminate
        },
        WaitStatus::Failed(e) => WaitStep::Abandon(e),
    }
}

/// After killing a process at its deadline: a failed kill is the error of the
/// timed-out execution; otherwise the process's exit code, if any, is kept.
pub fn after_termination(kill_error: Option<String>, exit_code: Option<i32>) -> (r: Result<
    Option<i32>,
    String,
>)
    ensures
        match kill_error {
            Some(e) => r matches Err(m) && m@ == e@,
            None => r == Ok::<Option<i32>, String>(exit_code),
        },
{
    match kill_error {
        Some(e) => Err(e),
        None => Ok(exit_code),
    }
}

/// Takes the outcome of reading a completed check's output: on success its
/// metrics and facts; on failure the check becomes `InvalidOutput` with the
/// parser's message as its error, and has neither.
pub fn accept_output<M>(raw: &mut RawCheckResult, parsed: Result<(Vec<M>, Vec<Fact>), String>) -> (r: (
    Vec<M>,
    Vec<Fact>,
))
    ensures
        final(raw).exit_code == old(raw).exit_code,
        final(raw).stdout == old(raw).stdout,
        final(raw).stderr == old(raw).stderr,
        final(raw).duration_ms == old(raw).duration_ms,
        match parsed {
            Ok((m, f)) => r.0 == m && r.1 == f && final(raw).execution == old(raw).execution
                && final(raw).error == old(raw).error,
            Err(e) => r.0@.len() == 0 && r.1@.len() == 0 && final(raw).execution
                == Execution::InvalidOutput && final(raw).error == Some(e),
        },
{
    match parsed {
        Ok(values) => values,
        Err(e) => {
            raw.execution = Execution::InvalidOutput;
            raw.error = Some(e);
            (Vec::new(), Vec::new())
        },
    }
}

/// Whether every result completed; the program's exit status follows it.
pub fn all_completed(executions: &Vec<Execution>) -> (r: bool)
    ensures
        r == forall|i: int| 0 <= i < executions@.len() ==> executions@[i] == Execution::Completed,
{
    let mut i: usize = 0;
    while i < executions.len()
        invariant
            i <= executions.len(),
            forall|j: int| 0 <= j < i ==> executions@[j] == Execution::Completed,
        decreases executions.len() - i,
    {
        if executions[i] != Execution::Completed {
            return false;
        }
        i += 1;
    }
    true
}

} // verus!
