//! Which tool labels a context discloses.
use crate::context::render::labels::{
    label_bytes, labelled, redactions_read, LabelFailure, LabelReading,
};
use crate::context::{EventKind, EventView};
use crate::text::byte_length;
use vstd::prelude::*;

verus! {

/// Does an event carry a tool's label?
pub open spec fn is_labelled(e: EventView) -> bool {
    e.tool is Some && (e.kind == EventKind::ToolInvocation || e.kind == EventKind::ToolResult)
}

/// The label of an event is what the redactor left of it, whole where it is
/// short and its excerpt where it is not; an event without a label stays as it
/// is.
pub proof fn disclosed_labels_are_redacted(
    events: Seq<EventView>,
    readings: Seq<LabelReading>,
    max_bytes: nat,
    n: int,
    i: int,
)
    requires
        0 <= i < n <= events.len(),
        labelled(events, readings, max_bytes, n) is Ok,
    ensures
        ({
            let shown = labelled(events, readings, max_bytes, n)->Ok_0.events;
            &&& shown.len() == n
            &&& !is_labelled(events[i]) ==> shown[i] == events[i]
            &&& is_labelled(events[i]) ==> readings[i] is Redacted && shown[i].tool is Some
            &&& is_labelled(events[i]) && readings[i]->text@.len() <= 128
                ==> shown[i].tool->0.name == readings[i]->text@
            &&& is_labelled(events[i]) && readings[i]->text@.len() > 128
                ==> shown[i].tool->0.name == readings[i]->excerpt@
            &&& shown[i].text == events[i].text
            &&& shown[i].event_id == events[i].event_id
        }),
    decreases n,
{
    lengths_agree(events, readings, max_bytes, n - 1);
    if i < n - 1 {
        disclosed_labels_are_redacted(events, readings, max_bytes, n - 1, i);
        let before = labelled(events, readings, max_bytes, n - 1)->Ok_0.events;
        assert(labelled(events, readings, max_bytes, n)->Ok_0.events[i] == before[i]);
    }
}

proof fn lengths_agree(
    events: Seq<EventView>,
    readings: Seq<LabelReading>,
    max_bytes: nat,
    n: int,
)
    requires
        0 <= n <= events.len(),
        labelled(events, readings, max_bytes, n) is Ok,
    ensures
        labelled(events, readings, max_bytes, n)->Ok_0.events.len() == n,
    decreases n,
{
    if n > 0 {
        lengths_agree(events, readings, max_bytes, n - 1);
    }
}

/// One more event counts its label's bytes, and only a label's.
pub proof fn labels_count_their_bytes(events: Seq<EventView>, n: int)
    requires
        0 <= n < events.len(),
    ensures
        label_bytes(events, 0) == 0,
        is_labelled(events[n]) ==> label_bytes(events, n + 1) == label_bytes(events, n)
            + byte_length(events[n].tool->0.name),
        !is_labelled(events[n]) ==> label_bytes(events, n + 1) == label_bytes(events, n),
{
}

/// One more event discloses its label unless there is no room for it or the
/// redactor refuses it, and then nothing is disclosed; redactions and cuts are
/// counted.
pub proof fn labels_go_event_by_event(
    events: Seq<EventView>,
    readings: Seq<LabelReading>,
    max_bytes: nat,
    n: int,
)
    requires
        0 <= n < events.len(),
        labelled(events, readings, max_bytes, n) is Ok,
    ensures
        ({
            let before = labelled(events, readings, max_bytes, n)->Ok_0;
            let after = labelled(events, readings, max_bytes, n + 1);
            &&& !is_labelled(events[n]) ==> after is Ok && after->Ok_0.redactions
                == before.redactions && after->Ok_0.truncated == before.truncated
            &&& is_labelled(events[n]) && label_bytes(events, n + 1) > max_bytes ==> after == Err::<
                crate::context::render::labels::Labelled,
                LabelFailure,
            >(LabelFailure::TooLarge)
            &&& is_labelled(events[n]) && label_bytes(events, n + 1) <= max_bytes ==> (after is Ok
                <==> readings[n] is Redacted)
            &&& is_labelled(events[n]) && after is Ok ==> after->Ok_0.redactions
                == before.redactions + readings[n]->redactions && after->Ok_0.truncated
                == before.truncated + (if readings[n]->text@.len() > 128 {
                1int
            } else {
                0
            })
        }),
{
}

/// Every redaction that was made is counted.
pub proof fn redactions_are_counted(readings: Seq<LabelReading>, n: int)
    requires
        0 <= n < readings.len(),
    ensures
        redactions_read(readings, 0) == 0,
        readings[n] is Redacted ==> redactions_read(readings, n + 1) == redactions_read(
            readings,
            n,
        ) + readings[n]->redactions,
        readings[n] is Refused ==> redactions_read(readings, n + 1) == redactions_read(readings, n),
{
}

} // verus!
