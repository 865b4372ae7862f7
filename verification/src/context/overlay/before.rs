//! The prompt overlay within an invocation's deadline.
use crate::context::overlay::{
    last_of, malformed, progress_over, prompt_event, prompt_only, read_record,
    spans, tail_is_partial, tail_lines, tail_records, transcript_access, ClaudeOverlayRequest,
    ClaudeOverlayResult, ClaudeUserPromptSubmit, OpenOutcome, OverlayError, OverlayErrorView,
    OverlayProgress, OverlayState, OverlayView, RecordSpan, TranscriptTail,
};
use crate::output::ContextQuality;
use crate::runtime::{clock_time, EntryClock};
use crate::text::{copy_text, optional_text, trim};
use vstd::prelude::*;
use vstd::slice::slice_subrange;

verus! {

/// What reading the tail of an opened transcript led to.
#[derive(Debug)]
pub enum TailReading {
    NotInspected,
    NotSought,
    /// The transcript ended early, or changed meanwhile.
    Changed,
    Read(TranscriptTail),
}

/// The times at which the clock is looked at, in their order. A record without
/// a time counts as late.
#[derive(Debug)]
pub struct OverlayTimes {
    pub entered_ms: u128,
    pub opened_ms: u128,
    pub read_ms: u128,
    /// Before each record.
    pub record_ms: Vec<u128>,
    pub finished_ms: u128,
}

pub open spec fn in_time(clock: EntryClock, elapsed_ms: u128) -> bool {
    clock_time(elapsed_ms) < clock.limits().latest_work_ms()
}

/// The number of records before which the clock still allowed work, at most
/// `n`.
pub open spec fn records_in_time(clock: EntryClock, times: Seq<u128>, n: nat) -> nat
    decreases n,
{
    if n == 0 {
        0
    } else {
        let before = records_in_time(clock, times, (n - 1) as nat);
        if before == n - 1 && n - 1 < times.len() && in_time(clock, times[n - 1]) {
            n
        } else {
            before
        }
    }
}

/// The outcome of the overlay on a transcript tail under the clock.
pub open spec fn tail_outcome(
    hook: ClaudeUserPromptSubmit,
    tail: TranscriptTail,
    times: OverlayTimes,
    clock: EntryClock,
    max_records: nat,
    record_bytes: nat,
) -> Result<OverlayView, OverlayErrorView> {
    let lines = last_of(tail_lines(tail.bytes@, tail.start as int), max_records);
    let n = records_in_time(clock, times.record_ms@, lines.len());
    match progress_over(
        tail.bytes@,
        lines.take(n as int),
        record_bytes,
        optional_text(hook.session_id),
    ) {
        Err(error) => Err(error),
        Ok(progress) => if n < lines.len() {
            Err(OverlayErrorView::Deadline)
        } else {
            match progress.finish(
                hook.prompt@,
                optional_text(hook.prompt_id),
                tail_is_partial(tail.bytes@, tail.start as int, max_records),
            ) {
                Err(error) => Err(error),
                Ok(view) => if in_time(clock, times.finished_ms) {
                    Ok(view)
                } else {
                    Err(OverlayErrorView::Deadline)
                },
            }
        },
    }
}

/// A prompt alone, without any history.
pub open spec fn prompt_alone(hook: ClaudeUserPromptSubmit) -> OverlayView {
    OverlayView {
        branch_id: None,
        events: seq![prompt_event(hook.prompt@, optional_text(hook.prompt_id), None)],
        active_branch: None,
        context_quality: ContextQuality::PromptOnly,
        deduplicated_by_event_id: false,
    }
}

/// Why a transcript may not be read.
pub open spec fn access_error(path: Seq<char>, opened: OpenOutcome) -> Option<OverlayErrorView> {
    match opened {
        OpenOutcome::Opened => None,
        OpenOutcome::NotFound => None,
        OpenOutcome::RelativePath => Some(
            OverlayErrorView::TranscriptPathForbidden("absolute path required"@),
        ),
        OpenOutcome::NoParent => Some(OverlayErrorView::CrossSessionReadForbidden),
        OpenOutcome::RootUnavailable => Some(
            OverlayErrorView::TranscriptPathForbidden("authorized root unavailable"@),
        ),
        OpenOutcome::Directory => Some(OverlayErrorView::TranscriptIsDirectory(path)),
        OpenOutcome::DeviceOrFifo => Some(OverlayErrorView::TranscriptIsDeviceOrFifo(path)),
        OpenOutcome::EscapesRoot => Some(OverlayErrorView::CrossSessionReadForbidden),
        OpenOutcome::Failed => Some(
            OverlayErrorView::TranscriptPathForbidden("cannot open authorized transcript"@),
        ),
    }
}

/// The outcome of the overlay, from what opening and reading the transcript
/// led to and the times at which the clock was looked at.
pub open spec fn outcome_before(
    request: ClaudeOverlayRequest,
    opened: OpenOutcome,
    reading: TailReading,
    times: OverlayTimes,
    clock: EntryClock,
    max_records: nat,
    record_bytes: nat,
) -> Result<OverlayView, OverlayErrorView> {
    let hook = request.hook_input;
    if !in_time(clock, times.entered_ms) {
        Err(OverlayErrorView::Deadline)
    } else if trim(hook.prompt@).len() == 0 {
        Err(OverlayErrorView::MissingPrompt)
    } else if request.path() is None {
        Ok(prompt_alone(hook))
    } else if access_error(request.path()->0, opened) is Some {
        Err(access_error(request.path()->0, opened)->0)
    } else if !in_time(clock, times.opened_ms) {
        Err(OverlayErrorView::Deadline)
    } else if opened is NotFound {
        Ok(prompt_alone(hook))
    } else {
        match reading {
            TailReading::NotInspected => Err(malformed("cannot inspect transcript"@)),
            TailReading::NotSought => Err(malformed("cannot seek transcript"@)),
            TailReading::Changed => Err(malformed("transcript changed during read"@)),
            TailReading::Read(tail) => if in_time(clock, times.read_ms) {
                tail_outcome(hook, tail, times, clock, max_records, record_bytes)
            } else {
                Err(OverlayErrorView::Deadline)
            },
        }
    }
}

fn checkpoint(clock: &EntryClock, elapsed_ms: u128) -> (r: Result<(), OverlayError>)
    ensures
        match r {
            Ok(_) => in_time(*clock, elapsed_ms),
            Err(error) => !in_time(*clock, elapsed_ms) && error@ == OverlayErrorView::Deadline,
        },
{
    match clock.admit_new_work(elapsed_ms) {
        Ok(_) => Ok(()),
        Err(_) => Err(OverlayError::Deadline),
    }
}

/// Once late, the records stay late.
proof fn lateness_stays(clock: EntryClock, times: Seq<u128>, k: nat, n: nat)
    requires
        k <= n,
        records_in_time(clock, times, k) < k,
    ensures
        records_in_time(clock, times, n) == records_in_time(clock, times, k),
    decreases n,
{
    if k < n {
        lateness_stays(clock, times, k, (n - 1) as nat);
    }
}

/// Records that were in time stay in time.
proof fn timely_prefix(clock: EntryClock, times: Seq<u128>, k: nat, n: nat)
    requires
        k <= n,
        records_in_time(clock, times, k) == k,
    ensures
        k <= records_in_time(clock, times, n) <= n,
    decreases n,
{
    if k < n {
        timely_prefix(clock, times, k, (n - 1) as nat);
    }
}

/// A failure among the first lines is the failure of more of them.
proof fn failure_stays(
    buf: Seq<u8>,
    lines: Seq<(int, int)>,
    record_bytes: nat,
    session: Option<Seq<char>>,
    k: int,
    n: int,
)
    requires
        0 <= k <= n <= lines.len(),
        progress_over(buf, lines.take(k), record_bytes, session) is Err,
    ensures
        progress_over(buf, lines.take(n), record_bytes, session) == progress_over(
            buf,
            lines.take(k),
            record_bytes,
            session,
        ),
    decreases n,
{
    if k < n {
        failure_stays(buf, lines, record_bytes, session, k, n - 1);
        assert(lines.take(n).drop_last() =~= lines.take(n - 1));
    }
}

fn overlay_tail(
    hook: &ClaudeUserPromptSubmit,
    tail: &TranscriptTail,
    times: &OverlayTimes,
    clock: &EntryClock,
    max_records: usize,
    record_bytes: usize,
) -> (r: Result<ClaudeOverlayResult, OverlayError>)
    ensures
        ({
            let outcome = tail_outcome(
                *hook,
                *tail,
                *times,
                *clock,
                max_records as nat,
                record_bytes as nat,
            );
            match r {
                Ok(result) => result.serves(*hook) && outcome == Ok::<OverlayView, OverlayErrorView>(
                    result.history(),
                ),
                Err(error) => outcome == Err::<OverlayView, OverlayErrorView>(error@),
            }
        }),
{
    let buf: &[u8] = tail.bytes.as_slice();
    let (records, partial): (Vec<RecordSpan>, bool) = tail_records(buf, tail.start, max_records);
    let ghost lines = last_of(tail_lines(buf@, tail.start as int), max_records as nat);
    let ghost session = optional_text(hook.session_id);
    let mut state: OverlayState = OverlayState::new(hook);
    let mut k: usize = 0;
    assert(lines.take(0) =~= Seq::empty());
    while k < records.len()
        invariant
            k <= records@.len(),
            spans(records@) == lines,
            lines.len() == records@.len(),
            forall|j: int|
                0 <= j < records@.len() ==> (#[trigger] records@[j]).from < records@[j].to
                    <= buf@.len(),
            buf@ == tail.bytes@,
            session == optional_text(hook.session_id),
            state.hook_session() == session,
            lines == last_of(tail_lines(buf@, tail.start as int), max_records as nat),
            records_in_time(*clock, times.record_ms@, k as nat) == k,
            progress_over(buf@, lines.take(k as int), record_bytes as nat, session) == Ok::<
                OverlayProgress,
                OverlayErrorView,
            >(state.progress()),
        decreases records@.len() - k,
    {
        if k >= times.record_ms.len() {
            proof {
                lateness_stays(*clock, times.record_ms@, (k + 1) as nat, lines.len());
            }
            return Err(OverlayError::Deadline);
        }
        match checkpoint(clock, times.record_ms[k]) {
            Ok(_) => {},
            Err(error) => {
                proof {
                    lateness_stays(*clock, times.record_ms@, (k + 1) as nat, lines.len());
                }
                return Err(error);
            },
        }
        proof {
            timely_prefix(*clock, times.record_ms@, (k + 1) as nat, lines.len());
        }
        let span: RecordSpan = records[k];
        assert(records@[k as int].from < records@[k as int].to <= buf@.len());
        let line: &[u8] = slice_subrange(buf, span.from, span.to);
        assert(lines[k as int] == (span.from as int, span.to as int));
        assert(lines.take(k as int + 1).drop_last() =~= lines.take(k as int));
        assert(lines.take(k as int + 1).last() == lines[k as int]);
        match state.push_record(read_record(line, record_bytes)) {
            Ok(_) => {},
            Err(error) => {
                proof {
                    failure_stays(
                        buf@,
                        lines,
                        record_bytes as nat,
                        session,
                        k as int + 1,
                        records_in_time(*clock, times.record_ms@, lines.len()) as int,
                    );
                }
                return Err(error);
            },
        }
        k += 1;
    }
    let result: ClaudeOverlayResult = match state.finish(hook, partial) {
        Ok(result) => result,
        Err(error) => {
            return Err(error);
        },
    };
    match checkpoint(clock, times.finished_ms) {
        Ok(_) => Ok(result),
        Err(error) => Err(error),
    }
}

/// Apply the prompt overlay within an invocation's deadline: no late result is
/// given as a timely one.
pub fn apply_claude_prompt_overlay_before(
    request: &ClaudeOverlayRequest,
    opened: OpenOutcome,
    reading: &TailReading,
    times: &OverlayTimes,
    clock: &EntryClock,
    max_records: usize,
    record_bytes: usize,
) -> (r: Result<ClaudeOverlayResult, OverlayError>)
    ensures
        ({
            let outcome = outcome_before(
                *request,
                opened,
                *reading,
                *times,
                *clock,
                max_records as nat,
                record_bytes as nat,
            );
            match r {
                Ok(result) => result.serves(request.hook_input) && outcome == Ok::<
                    OverlayView,
                    OverlayErrorView,
                >(result.history()),
                Err(error) => outcome == Err::<OverlayView, OverlayErrorView>(error@),
            }
        }),
{
    match checkpoint(clock, times.entered_ms) {
        Ok(_) => {},
        Err(error) => {
            return Err(error);
        },
    }
    let hook: &ClaudeUserPromptSubmit = &request.hook_input;
    let path: String = match request.transcript() {
        Ok(Some(path)) => path,
        Ok(None) => {
            return Ok(prompt_only(hook));
        },
        Err(error) => {
            return Err(error);
        },
    };
    let exists: bool = match transcript_access(path.as_str(), opened) {
        Ok(exists) => exists,
        Err(error) => {
            return Err(error);
        },
    };
    match checkpoint(clock, times.opened_ms) {
        Ok(_) => {},
        Err(error) => {
            return Err(error);
        },
    }
    if !exists {
        return Ok(prompt_only(hook));
    }
    let tail: &TranscriptTail = match reading {
        TailReading::NotInspected => {
            return Err(OverlayError::MalformedTranscript(copy_text("cannot inspect transcript")));
        },
        TailReading::NotSought => {
            return Err(OverlayError::MalformedTranscript(copy_text("cannot seek transcript")));
        },
        TailReading::Changed => {
            return Err(
                OverlayError::MalformedTranscript(copy_text("transcript changed during read")),
            );
        },
        TailReading::Read(tail) => tail,
    };
    match checkpoint(clock, times.read_ms) {
        Ok(_) => {},
        Err(error) => {
            return Err(error);
        },
    }
    overlay_tail(hook, tail, times, clock, max_records, record_bytes)
}

/// A result that is given was finished in time: whatever the clock showed on
/// entry, and on the way of a transcript that was read, allowed work.
pub proof fn given_overlays_are_timely(
    request: ClaudeOverlayRequest,
    opened: OpenOutcome,
    reading: TailReading,
    times: OverlayTimes,
    clock: EntryClock,
    max_records: nat,
    record_bytes: nat,
)
    requires
        outcome_before(request, opened, reading, times, clock, max_records, record_bytes) is Ok,
    ensures
        in_time(clock, times.entered_ms),
        request.path() is Some ==> in_time(clock, times.opened_ms),
        request.path() is Some && opened is Opened ==> in_time(clock, times.read_ms) && in_time(
            clock,
            times.finished_ms,
        ),
{
}

} // verus!
