//! What a transcript contributes to the conversation that a prompt continues.
use crate::context::jsonl::{is_next_newline, next_newline};
use crate::context::overlay::before::{outcome_before, records_in_time, OverlayTimes, TailReading};
use crate::context::overlay::{
    complete_lines, is_prompt_place, last_of, overlay_outcome, tail_is_partial, tail_lines,
    ClaudeOverlayRequest, OpenOutcome, OverlayErrorView, OverlayProgress, OverlayRecordView,
    OverlayView, TranscriptTail,
};
use crate::context::{EventKind, EventView, Role};
use crate::identity::is_identifier;
use crate::json::JsonView;
use crate::output::ContextQuality;
use crate::runtime::{clock_time, EntryClock};
use crate::text::trim;
use vstd::prelude::*;

verus! {

/// Does a record name a session under this key?
pub open spec fn names_session(value: JsonView, key: Seq<char>, session: Seq<char>) -> bool {
    value.get(key) == Some(JsonView::Text(session)) && is_identifier(session)
}

/// The value of a record that has one.
pub open spec fn value_of(record: OverlayRecordView) -> Option<JsonView> {
    match record {
        OverlayRecordView::Event { value, .. } => Some(value),
        OverlayRecordView::Unmodeled { value } => value,
        _ => None,
    }
}

/// A record of another session than the hook's is refused, and one of any
/// session is where the hook has none.
pub proof fn other_sessions_are_refused(
    before: OverlayProgress,
    record: OverlayRecordView,
    hook: Option<Seq<char>>,
    observed: Seq<char>,
)
    requires
        value_of(record) is Some,
        ({
            let value = value_of(record)->0;
            let first = value.get("sessionId"@) is None || (hook is Some && names_session(
                value,
                "sessionId"@,
                hook->0,
            ));
            names_session(value, "sessionId"@, observed) || (first && names_session(
                value,
                "session_id"@,
                observed,
            ))
        }),
        hook != Some(observed),
    ensures
        hook is None ==> before.step(record, hook) == Err::<OverlayProgress, OverlayErrorView>(
            OverlayErrorView::CrossSessionReadForbidden,
        ),
        hook matches Some(own) ==> before.step(record, hook) == Err::<
            OverlayProgress,
            OverlayErrorView,
        >(OverlayErrorView::SessionMismatch { hook_session: own, transcript_session: observed }),
{
}

/// A record that names no session, or only the hook's own, is never refused for
/// its session: an event whose identity is new is taken as it is, last.
pub proof fn own_events_are_taken(
    before: OverlayProgress,
    event: EventView,
    value: JsonView,
    hook: Option<Seq<char>>,
)
    requires
        value.get("sessionId"@) is None || (hook is Some && names_session(
            value,
            "sessionId"@,
            hook->0,
        )),
        value.get("session_id"@) is None || (hook is Some && names_session(
            value,
            "session_id"@,
            hook->0,
        )),
    ensures
        ({
            let after = before.step(OverlayRecordView::Event { event, value }, hook);
            let known = event.event_id is Some && exists|i: int|
                0 <= i < before.events.len() && (#[trigger] before.events[i]).event_id
                    == event.event_id;
            let aside = value.get("isSidechain"@) == Some(JsonView::Bool(true));
            &&& known <==> after is Err
            &&& after matches Ok(p) ==> {
                &&& p.events == before.events.push(event)
                &&& aside && event.event_id is Some ==> p.sidechains == before.sidechains.push(
                    event.event_id->0,
                )
                &&& !aside || event.event_id is None ==> p.sidechains == before.sidechains
                &&& p.native_lineage <==> before.native_lineage || value.get("parentUuid"@) is Some
            }
        }),
{
}

/// Does the transcript mark this event as one of a side conversation?
pub open spec fn is_aside(p: OverlayProgress, e: EventView) -> bool {
    exists|i: int| 0 <= i < p.sidechains.len() && Some(#[trigger] p.sidechains[i]) == e.event_id
}

proof fn main_chain_is_what_is_not_aside(p: OverlayProgress, events: Seq<EventView>)
    ensures
        p.main_chain(events) == events.filter(|e: EventView| !is_aside(p, e)),
    decreases events.len(),
{
    reveal(Seq::filter);
    if events.len() > 0 {
        main_chain_is_what_is_not_aside(p, events.drop_last());
        let last = events.last();
        if last.event_id is Some && p.sidechains.contains(last.event_id->0) {
            let i = p.sidechains.index_of(last.event_id->0);
            assert(Some(p.sidechains[i]) == last.event_id);
            assert(is_aside(p, last));
        } else {
            assert(!is_aside(p, last));
        }
    }
}

/// A transcript with parents leaves side conversations out, and nothing else;
/// one without parents leaves nothing out.
pub proof fn side_conversations_are_left_out(p: OverlayProgress)
    ensures
        p.native_lineage || (exists|i: int|
            0 <= i < p.events.len() && (#[trigger] p.events[i]).parent_id is Some) ==> p.base()
            == p.events.filter(|e: EventView| !is_aside(p, e)),
        !p.native_lineage && (forall|i: int|
            0 <= i < p.events.len() ==> (#[trigger] p.events[i]).parent_id is None) ==> p.base()
            == p.events,
{
    main_chain_is_what_is_not_aside(p, p.events);
}

/// In a transcript without parents a prompt with a new identity, or none, comes
/// after everything that was read; nothing that was read is changed or lost.
pub proof fn new_prompts_follow_the_transcript(
    p: OverlayProgress,
    prompt: Seq<char>,
    prompt_id: Option<Seq<char>>,
    partial: bool,
)
    requires
        !p.native_lineage,
        forall|i: int| 0 <= i < p.events.len() ==> (#[trigger] p.events[i]).parent_id is None,
        prompt_id is Some ==> forall|i: int|
            0 <= i < p.events.len() ==> (#[trigger] p.events[i]).event_id != prompt_id,
    ensures
        p.finish(prompt, prompt_id, partial) is Ok,
        ({
            let result = p.finish(prompt, prompt_id, partial)->Ok_0;
            &&& result.events.len() == p.events.len() + 1
            &&& result.events.drop_last() == p.events
            &&& result.events.last().text == prompt
            &&& result.events.last().event_id == prompt_id
            &&& result.events.last().role == Role::User
            &&& result.events.last().kind == EventKind::Message
            &&& !result.deduplicated_by_event_id
            &&& result.context_quality == ContextQuality::Partial <==> partial
        }),
{
    assert(!p.linked());
    assert(!(exists|k: int| is_prompt_place(p.base(), prompt_id, k)));
    let result = p.finish(prompt, prompt_id, partial)->Ok_0;
    assert(result.events.drop_last() =~= p.events);
}

/// A prompt that the transcript already holds as what the user said replaces
/// the text at its place, and changes nothing else; one that is held as
/// anything else is refused.
pub proof fn known_prompts_are_replaced(
    p: OverlayProgress,
    prompt: Seq<char>,
    prompt_id: Seq<char>,
    partial: bool,
    k: int,
)
    requires
        !p.native_lineage,
        forall|i: int| 0 <= i < p.events.len() ==> (#[trigger] p.events[i]).parent_id is None,
        0 <= k < p.events.len(),
        p.events[k].event_id == Some(prompt_id),
        forall|i: int| 0 <= i < k ==> (#[trigger] p.events[i]).event_id != Some(prompt_id),
    ensures
        ({
            let said = p.events[k].role == Role::User && p.events[k].kind == EventKind::Message;
            let result = p.finish(prompt, Some(prompt_id), partial);
            &&& said <==> result is Ok
            &&& result matches Ok(overlay) ==> {
                &&& overlay.events == p.events.update(k, EventView { text: prompt, ..p.events[k] })
                &&& overlay.deduplicated_by_event_id
            }
        }),
{
    let id = Some(prompt_id);
    assert(!p.linked());
    assert(is_prompt_place(p.base(), id, k));
    let place = choose|j: int| is_prompt_place(p.base(), id, j);
    assert(is_prompt_place(p.base(), id, place));
    assert(place == k) by {
        if place < k {
            assert(p.events[place].event_id != id);
        }
        if k < place {
            assert(p.base()[k].event_id != id);
        }
    }
}

/// A line: no line end inside it, one behind it, and one before it unless it is
/// the first.
pub open spec fn is_line(buf: Seq<u8>, first: int, line: (int, int)) -> bool {
    &&& first <= line.0 < line.1 < buf.len()
    &&& buf[line.1] == 10u8
    &&& forall|i: int| line.0 <= i < line.1 ==> #[trigger] buf[i] != 10u8
    &&& line.0 == first || buf[line.0 - 1] == 10u8
}

proof fn lines_are_whole(buf: Seq<u8>, from: int)
    requires
        0 <= from,
    ensures
        forall|k: int|
            0 <= k < complete_lines(buf, from).len() ==> is_line(
                buf,
                from,
                #[trigger] complete_lines(buf, from)[k],
            ),
        forall|k: int, l: int|
            0 <= k < l < complete_lines(buf, from).len() ==> (#[trigger] complete_lines(
                buf,
                from,
            )[k]).1 < (#[trigger] complete_lines(buf, from)[l]).0,
        forall|line: (int, int)| #[trigger]
            is_line(buf, from, line) ==> complete_lines(buf, from).contains(line),
    decreases buf.len() - from,
{
    let lines = complete_lines(buf, from);
    if from < buf.len() && exists|k: int| is_next_newline(buf, from, k) {
        let newline = next_newline(buf, from);
        assert(is_next_newline(buf, from, newline));
        let next = newline + 1;
        let rest = complete_lines(buf, next);
        lines_are_whole(buf, next);
        let skip: int = if newline == from {
            0
        } else {
            1
        };
        assert(lines =~= (if newline == from {
            rest
        } else {
            seq![(from, newline)] + rest
        }));
        assert forall|k: int| 0 <= k < lines.len() implies is_line(
            buf,
            from,
            #[trigger] lines[k],
        ) by {
            if k >= skip {
                assert(lines[k] == rest[k - skip]);
                assert(is_line(buf, next, rest[k - skip]));
            } else {
                assert forall|i: int| from <= i < newline implies #[trigger] buf[i] != 10u8 by {}
            }
        }
        assert forall|k: int, l: int| 0 <= k < l < lines.len() implies (#[trigger] lines[k]).1 < (
        #[trigger] lines[l]).0 by {
            assert(lines[l] == rest[l - skip]);
            assert(is_line(buf, next, rest[l - skip]));
            if k >= skip {
                assert(lines[k] == rest[k - skip]);
            }
        }
        assert forall|line: (int, int)| #[trigger] is_line(buf, from, line) implies lines.contains(
            line,
        ) by {
            if line.0 <= newline {
                assert(line.0 == from) by {
                    if line.0 > from {
                        assert(buf[line.0 - 1] == 10u8);
                        assert(from <= line.0 - 1 < newline);
                    }
                }
                assert(line.1 == newline) by {
                    if line.1 < newline {
                        assert(buf[line.1] != 10u8);
                    }
                    if line.1 > newline {
                        assert(buf[newline] != 10u8);
                    }
                }
                assert(lines[0] == line);
            } else {
                assert(is_line(buf, next, line));
                let k = rest.index_of(line);
                assert(lines[k + skip] == line);
            }
        }
    } else {
        assert(lines =~= Seq::empty());
        assert forall|line: (int, int)| #[trigger] is_line(buf, from, line) implies lines.contains(
            line,
        ) by {
            ends_are_found(buf, from, line.1);
        }
    }
}

proof fn ends_are_found(buf: Seq<u8>, from: int, k: int)
    requires
        0 <= from <= k < buf.len(),
        buf[k] == 10u8,
    ensures
        exists|j: int| is_next_newline(buf, from, j),
    decreases k - from,
{
    if exists|i: int| from <= i < k && #[trigger] buf[i] == 10u8 {
        let i = choose|i: int| from <= i < k && #[trigger] buf[i] == 10u8;
        ends_are_found(buf, from, i);
    } else {
        assert(is_next_newline(buf, from, k));
    }
}

/// A transcript that is read from its beginning gives every whole line that is
/// not empty, in order, and nothing else; a line without an end is left out.
pub proof fn transcripts_are_read_line_by_line(buf: Seq<u8>)
    ensures
        forall|line: (int, int)| #[trigger]
            tail_lines(buf, 0).contains(line) <==> is_line(buf, 0, line),
        forall|k: int, l: int|
            0 <= k < l < tail_lines(buf, 0).len() ==> (#[trigger] tail_lines(buf, 0)[k]).1 < (
            #[trigger] tail_lines(buf, 0)[l]).0,
{
    lines_are_whole(buf, 0);
    let lines = tail_lines(buf, 0);
    assert forall|line: (int, int)| #[trigger] lines.contains(line) implies is_line(
        buf,
        0,
        line,
    ) by {
        let k = lines.index_of(line);
        assert(is_line(buf, 0, lines[k]));
    }
}

/// A tail that begins inside its file gives only the lines behind its first
/// line end: what it cut is no record.
pub proof fn cut_lines_are_left_out(buf: Seq<u8>, start: int, end: int)
    requires
        start != 0,
        0 <= end < buf.len(),
        buf[end] == 10u8,
        forall|i: int| 0 <= i < end ==> #[trigger] buf[i] != 10u8,
    ensures
        forall|line: (int, int)| #[trigger]
            tail_lines(buf, start).contains(line) <==> is_line(buf, end + 1, line),
{
    assert(is_next_newline(buf, 0, end));
    let newline = next_newline(buf, 0);
    assert(is_next_newline(buf, 0, newline));
    assert(newline == end) by {
        if newline < end {
            assert(buf[newline] != 10u8);
        }
        if end < newline {
            assert(buf[end] != 10u8);
        }
    }
    lines_are_whole(buf, end + 1);
    let lines = tail_lines(buf, start);
    assert forall|line: (int, int)| #[trigger] lines.contains(line) implies is_line(
        buf,
        end + 1,
        line,
    ) by {
        let k = lines.index_of(line);
        assert(is_line(buf, end + 1, lines[k]));
    }
}

/// The last records are kept: of more than may be read, those at the end, in
/// their order; and whatever is left out makes the reading partial.
pub proof fn the_last_records_are_kept(buf: Seq<u8>, start: int, max_records: nat)
    requires
        0 <= start,
    ensures
        ({
            let all = tail_lines(buf, start);
            let kept = last_of(all, max_records);
            &&& kept.len() <= max_records
            &&& kept.len() == max_records || kept == all
            &&& forall|i: int|
                0 <= i < kept.len() ==> #[trigger] kept[i] == all[all.len() - kept.len() + i]
            &&& kept.len() < all.len() || start > 0 || (buf.len() > 0 && buf.last() != 10u8) <==>
                tail_is_partial(buf, start, max_records)
        }),
{
}

/// A prompt in time is answered: without a transcript by itself, and with one by
/// what the transcript's tail comes to. A blank prompt and a late one are not.
pub proof fn timely_prompts_are_overlaid(
    request: ClaudeOverlayRequest,
    opened: OpenOutcome,
    reading: TailReading,
    times: OverlayTimes,
    clock: EntryClock,
    max_records: nat,
    record_bytes: nat,
)
    ensures
        ({
            let r = outcome_before(
                request,
                opened,
                reading,
                times,
                clock,
                max_records,
                record_bytes,
            );
            let entered = clock_time(times.entered_ms) < clock.limits().latest_work_ms();
            let opened_in_time = clock_time(times.opened_ms) < clock.limits().latest_work_ms();
            let blank = trim(request.hook_input.prompt@).len() == 0;
            &&& !entered ==> r == Err::<OverlayView, OverlayErrorView>(OverlayErrorView::Deadline)
            &&& entered && blank ==> r == Err::<OverlayView, OverlayErrorView>(
                OverlayErrorView::MissingPrompt,
            )
            &&& entered && !blank && request.path() is None ==> r is Ok
            &&& entered && !blank && request.path() is Some && opened is NotFound && opened_in_time
                ==> r is Ok
            &&& entered && !blank && request.path() is Some && opened is Opened && !(
            reading is Read) ==> r is Err
        }),
{
}

proof fn timely_records_all_count(clock: EntryClock, times: Seq<u128>, n: nat)
    requires
        n <= times.len(),
        forall|i: int|
            0 <= i < n ==> clock_time(#[trigger] times[i]) < clock.limits().latest_work_ms(),
    ensures
        records_in_time(clock, times, n) == n,
    decreases n,
{
    if n > 0 {
        timely_records_all_count(clock, times, (n - 1) as nat);
        assert(clock_time(times[n - 1]) < clock.limits().latest_work_ms());
    }
}

/// A deadline that is kept changes nothing: a transcript that is opened and read
/// in time comes to what it comes to without a deadline. A prompt without a
/// transcript stands alone, and a transcript that may not be read is an error.
pub proof fn kept_deadlines_change_nothing(
    request: ClaudeOverlayRequest,
    opened: OpenOutcome,
    tail: TranscriptTail,
    times: OverlayTimes,
    clock: EntryClock,
    max_records: nat,
    record_bytes: nat,
)
    requires
        trim(request.hook_input.prompt@).len() > 0,
        clock_time(times.entered_ms) < clock.limits().latest_work_ms(),
        clock_time(times.opened_ms) < clock.limits().latest_work_ms(),
        clock_time(times.read_ms) < clock.limits().latest_work_ms(),
        clock_time(times.finished_ms) < clock.limits().latest_work_ms(),
        last_of(tail_lines(tail.bytes@, tail.start as int), max_records).len()
            <= times.record_ms@.len(),
        forall|i: int|
            0 <= i < times.record_ms@.len() ==> clock_time(#[trigger] times.record_ms@[i])
                < clock.limits().latest_work_ms(),
    ensures
        ({
            let hook = request.hook_input;
            let r = outcome_before(
                request,
                opened,
                TailReading::Read(tail),
                times,
                clock,
                max_records,
                record_bytes,
            );
            &&& request.path() is Some && opened is Opened ==> r == overlay_outcome(
                hook,
                tail.bytes@,
                tail.start as int,
                max_records,
                record_bytes,
            )
            &&& request.path() is None || opened is NotFound ==> {
                &&& r is Ok
                &&& r->Ok_0.events.len() == 1
                &&& r->Ok_0.events[0].text == hook.prompt@
                &&& r->Ok_0.events[0].role == Role::User
                &&& r->Ok_0.context_quality == ContextQuality::PromptOnly
            }
            &&& request.path() is Some && !(opened is Opened) && !(opened is NotFound) ==> r is Err
        }),
{
    let lines = last_of(tail_lines(tail.bytes@, tail.start as int), max_records);
    timely_records_all_count(clock, times.record_ms@, lines.len());
    assert(lines.take(lines.len() as int) =~= lines);
}

} // verus!
