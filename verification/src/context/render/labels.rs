//! Tool labels are transcript text too. Only the view for the provider is
//! sanitized, never the names by which calls and results are associated.
use super::{RenderBound, RenderContextError};
use crate::context::{
    event_views, EventKind, EventView, NormalizedEvent, ToolEvent, ToolView,
};
use crate::text::{byte_len, byte_length, copy_optional, copy_text};
use vstd::prelude::*;

verus! {

/// Maximum characters of a label.
pub const TOOL_LABEL_SCALARS: usize = 128;

/// What was changed in the labels.
#[derive(Clone, Copy, Debug, PartialEq, Eq, Structural)]
pub struct LabelReceipt {
    pub redactions: usize,
    pub truncated: usize,
}

/// What the redactor made of a label, and its excerpt of at most
/// `TOOL_LABEL_SCALARS` characters.
#[derive(Clone, Debug)]
pub enum LabelReading {
    Refused(String),
    Redacted { text: String, redactions: usize, excerpt: String },
}

pub open spec fn has_label(e: EventView) -> bool {
    (e.kind == EventKind::ToolInvocation || e.kind == EventKind::ToolResult) && e.tool is Some
}

/// An event with another label.
pub open spec fn relabelled(e: EventView, name: Seq<char>) -> EventView {
    EventView { tool: Some(ToolView { name, ..e.tool->0 }), ..e }
}

/// The label to disclose, and whether it is an excerpt.
pub open spec fn disclosed_label(text: Seq<char>, excerpt: Seq<char>) -> Seq<char> {
    if text.len() > TOOL_LABEL_SCALARS {
        excerpt
    } else {
        text
    }
}

/// The bytes of the labels among the first `n` events.
pub open spec fn label_bytes(events: Seq<EventView>, n: int) -> nat
    decreases n,
{
    if n <= 0 || n > events.len() {
        0
    } else {
        label_bytes(events, n - 1) + (if has_label(events[n - 1]) {
            byte_length(events[n - 1].tool->0.name)
        } else {
            0
        })
    }
}

/// Labels after the first events were prepared.
pub struct Labelled {
    pub events: Seq<EventView>,
    pub redactions: nat,
    pub truncated: nat,
}

/// Why labels were not prepared.
pub enum LabelFailure {
    TooLarge,
    Refused(Seq<char>),
}

pub open spec fn labelled(
    events: Seq<EventView>,
    readings: Seq<LabelReading>,
    max_bytes: nat,
    n: int,
) -> Result<Labelled, LabelFailure>
    decreases n,
{
    if n <= 0 || n > events.len() {
        Ok(Labelled { events: Seq::empty(), redactions: 0, truncated: 0 })
    } else {
        let e = events[n - 1];
        match labelled(events, readings, max_bytes, n - 1) {
            Err(failure) => Err(failure),
            Ok(before) => if !has_label(e) {
                Ok(Labelled { events: before.events.push(e), ..before })
            } else if label_bytes(events, n) > max_bytes {
                Err(LabelFailure::TooLarge)
            } else {
                match readings[n - 1] {
                    LabelReading::Refused(reason) => Err(LabelFailure::Refused(reason@)),
                    LabelReading::Redacted { text, redactions, excerpt } => Ok(
                        Labelled {
                            events: before.events.push(
                                relabelled(e, disclosed_label(text@, excerpt@)),
                            ),
                            redactions: before.redactions + redactions as nat,
                            truncated: before.truncated + (if text@.len() > TOOL_LABEL_SCALARS {
                                1nat
                            } else {
                                0
                            }),
                        },
                    ),
                }
            },
        }
    }
}

/// The redactions that the readings report in all.
pub open spec fn redactions_read(readings: Seq<LabelReading>, n: int) -> nat
    decreases n,
{
    if n <= 0 || n > readings.len() {
        0
    } else {
        redactions_read(readings, n - 1) + (match readings[n - 1] {
            LabelReading::Redacted { redactions, .. } => redactions as nat,
            LabelReading::Refused(_) => 0,
        })
    }
}

proof fn failed_labels_stay_failed(
    events: Seq<EventView>,
    readings: Seq<LabelReading>,
    max_bytes: nat,
    n: int,
    m: int,
)
    requires
        0 <= n <= m <= events.len(),
        labelled(events, readings, max_bytes, n) is Err,
    ensures
        labelled(events, readings, max_bytes, m) == labelled(events, readings, max_bytes, n),
    decreases m - n,
{
    if n < m {
        failed_labels_stay_failed(events, readings, max_bytes, n, m - 1);
    }
}

proof fn redactions_grow(readings: Seq<LabelReading>, n: int, m: int)
    requires
        0 <= n <= m <= readings.len(),
    ensures
        redactions_read(readings, n) <= redactions_read(readings, m),
    decreases m - n,
{
    if n < m {
        redactions_grow(readings, n, m - 1);
    }
}

fn relabel(event: &NormalizedEvent, tool: &ToolEvent, name: &str) -> (r: NormalizedEvent)
    requires
        event.tool == Some(*tool),
    ensures
        r@ == relabelled(event@, name@),
{
    let renamed = ToolEvent {
        call_id: copy_optional(&tool.call_id),
        name: copy_text(name),
        status: tool.status,
        arguments: copy_optional(&tool.arguments),
        result: copy_optional(&tool.result),
    };
    NormalizedEvent {
        event_id: copy_optional(&event.event_id),
        parent_id: copy_optional(&event.parent_id),
        turn_id: copy_optional(&event.turn_id),
        agent_id: copy_optional(&event.agent_id),
        branch_id: copy_optional(&event.branch_id),
        role: event.role,
        kind: event.kind,
        timestamp_unix_ms: event.timestamp_unix_ms,
        text: copy_text(event.text.as_str()),
        tool: Some(renamed),
    }
}

/// Prepare the labels of a projected log. `readings[i]` is that of the label
/// of `events[i]`; labels that are withheld anyway are neither inspected nor
/// changed.
pub fn prepare(
    events: &Vec<NormalizedEvent>,
    readings: &Vec<LabelReading>,
    labels_withheld: bool,
    max_bytes: usize,
) -> (r: Result<(Vec<NormalizedEvent>, LabelReceipt), RenderContextError>)
    requires
        readings@.len() == events@.len(),
        redactions_read(readings@, readings@.len() as int) <= usize::MAX,
    ensures
        ({
            let log = event_views(events@);
            let outcome = labelled(log, readings@, max_bytes as nat, log.len() as int);
            match r {
                Ok((prepared, receipt)) => if labels_withheld {
                    &&& event_views(prepared@) == log
                    &&& receipt == (LabelReceipt { redactions: 0, truncated: 0 })
                } else {
                    outcome == Ok::<Labelled, LabelFailure>(
                        Labelled {
                            events: event_views(prepared@),
                            redactions: receipt.redactions as nat,
                            truncated: receipt.truncated as nat,
                        },
                    )
                },
                Err(error) => !labels_withheld && match outcome {
                    Ok(_) => false,
                    Err(LabelFailure::TooLarge) => error == RenderContextError::UnsupportedContext(
                        RenderBound::ToolLabels,
                    ),
                    Err(LabelFailure::Refused(reason)) => match error {
                        RenderContextError::Privacy(text) => text@ == reason,
                        _ => false,
                    },
                },
            }
        }),
{
    if labels_withheld {
        return Ok(
            (crate::context::copy_events(events), LabelReceipt { redactions: 0, truncated: 0 }),
        );
    }
    let ghost log = event_views(events@);
    let mut prepared: Vec<NormalizedEvent> = Vec::new();
    let mut receipt = LabelReceipt { redactions: 0, truncated: 0 };
    let mut bytes: usize = 0;
    let mut i: usize = 0;
    assert(event_views(prepared@) =~= Seq::empty());
    while i < events.len()
        invariant
            i <= events@.len(),
            !labels_withheld,
            log == event_views(events@),
            readings@.len() == events@.len(),
            redactions_read(readings@, readings@.len() as int) <= usize::MAX,
            bytes == label_bytes(log, i as int),
            bytes <= max_bytes,
            receipt.truncated <= i,
            receipt.redactions <= redactions_read(readings@, i as int),
            labelled(log, readings@, max_bytes as nat, i as int) == Ok::<Labelled, LabelFailure>(
                Labelled {
                    events: event_views(prepared@),
                    redactions: receipt.redactions as nat,
                    truncated: receipt.truncated as nat,
                },
            ),
        decreases events@.len() - i,
    {
        let event: &NormalizedEvent = &events[i];
        let ghost before = event_views(prepared@);
        proof {
            assert(log[i as int] == event@);
            redactions_grow(readings@, i + 1, readings@.len() as int);
        }
        let is_tool_event: bool = match event.kind {
            EventKind::ToolInvocation | EventKind::ToolResult => true,
            _ => false,
        };
        let mut replaced: Option<NormalizedEvent> = None;
        if is_tool_event {
            match &event.tool {
                Some(tool) => {
                    let added: usize = byte_len(tool.name.as_str());
                    if added > max_bytes - bytes {
                        proof {
                            failed_labels_stay_failed(
                                log,
                                readings@,
                                max_bytes as nat,
                                i + 1,
                                log.len() as int,
                            );
                        }
                        return Err(RenderContextError::UnsupportedContext(RenderBound::ToolLabels));
                    }
                    bytes += added;
                    match &readings[i] {
                        LabelReading::Refused(reason) => {
                            proof {
                                failed_labels_stay_failed(
                                    log,
                                    readings@,
                                    max_bytes as nat,
                                    i + 1,
                                    log.len() as int,
                                );
                            }
                            return Err(RenderContextError::Privacy(copy_text(reason.as_str())));
                        },
                        LabelReading::Redacted { text, redactions, excerpt } => {
                            receipt.redactions += *redactions;
                            if text.as_str().unicode_len() > TOOL_LABEL_SCALARS {
                                receipt.truncated += 1;
                                replaced = Some(relabel(event, tool, excerpt.as_str()));
                            } else {
                                replaced = Some(relabel(event, tool, text.as_str()));
                            }
                        },
                    }
                },
                None => {},
            }
        }
        let next: NormalizedEvent = match replaced {
            Some(e) => e,
            None => event.copied(),
        };
        let ghost added = next@;
        prepared.push(next);
        assert(event_views(prepared@) =~= before.push(added));
        i += 1;
    }
    Ok((prepared, receipt))
}

/// Preparing labels keeps every event in its place and changes nothing but the
/// label: the call, its status, its arguments and its result stay.
pub proof fn only_labels_change(
    events: Seq<EventView>,
    readings: Seq<LabelReading>,
    max_bytes: nat,
    n: int,
)
    requires
        0 <= n <= events.len(),
        labelled(events, readings, max_bytes, n) is Ok,
    ensures
        ({
            let prepared = labelled(events, readings, max_bytes, n)->Ok_0.events;
            &&& prepared.len() == n
            &&& forall|i: int|
                0 <= i < n ==> if has_label(events[i]) {
                    (#[trigger] prepared[i]) == relabelled(events[i], prepared[i].tool->0.name)
                } else {
                    prepared[i] == events[i]
                }
        }),
    decreases n,
{
    if n > 0 {
        only_labels_change(events, readings, max_bytes, n - 1);
    }
}

} // verus!
