//! The history of the active request is selected before any prose of it is
//! rendered or disclosed.
use crate::context::anchor::history::{scope_of, select, HistoryError};
use crate::context::{
    event_views, CurrentRequest, EventKind, EventView, NormalizedContext, NormalizedEvent, Role,
};
use crate::output::ContextQuality;
use crate::text::{copy_optional, copy_text, copy_texts, optional_text, same_optional, texts};
use vstd::prelude::*;

pub mod labels;
pub mod naming;
pub mod receipts;
pub mod session;

verus! {

/// Why a context could not be rendered.
#[derive(Debug)]
pub enum RenderContextError {
    /// The history of the request is not one that can be told.
    UnresolvedHistory(HistoryError),
    /// A part of the context exceeds its bound.
    UnsupportedContext(RenderBound),
    /// The redactor refused a field or the payload.
    Privacy(String),
    Serialization(String),
}

/// A bound that a context exceeded.
#[derive(Clone, Copy, Debug, PartialEq, Eq, Structural)]
pub enum RenderBound {
    ToolLabels,
    SessionState,
    SessionConstraints,
}

impl RenderBound {
    pub open spec fn text(self) -> Seq<char> {
        match self {
            RenderBound::ToolLabels => "Tool labels exceed their input bound"@,
            RenderBound::SessionState => "Session state exceeds its input bound"@,
            RenderBound::SessionConstraints =>
                "Session constraints exceed the bounded context allowance"@,
        }
    }

    pub fn as_str(self) -> (text: &'static str)
        ensures
            text@ == self.text(),
    {
        match self {
            RenderBound::ToolLabels => "Tool labels exceed their input bound",
            RenderBound::SessionState => "Session state exceeds its input bound",
            RenderBound::SessionConstraints =>
                "Session constraints exceed the bounded context allowance",
        }
    }
}

/// Messages and tool events of a log, counted apart.
#[derive(Clone, Copy, Debug, PartialEq, Eq, Structural)]
pub struct CategoryCounts {
    pub messages: usize,
    pub tools: usize,
}

pub open spec fn is_tool_event(e: EventView) -> bool {
    e.kind == EventKind::ToolInvocation || e.kind == EventKind::ToolResult || (e.kind
        == EventKind::Message && e.role == Role::Tool)
}

pub open spec fn is_message_event(e: EventView) -> bool {
    e.kind == EventKind::Message && e.role != Role::Tool
}

/// The messages of a log.
pub open spec fn messages_in(events: Seq<EventView>) -> nat {
    events.filter(|e: EventView| is_message_event(e)).len()
}

/// The tool events of a log.
pub open spec fn tools_in(events: Seq<EventView>) -> nat {
    events.filter(|e: EventView| is_tool_event(e)).len()
}

/// A log without the current request itself. An event of another scope that
/// reuses its bare identity stays.
pub open spec fn without_request(context: NormalizedContext) -> Seq<EventView> {
    event_views(context.events@).filter(
        |e: EventView| !(scope_of(context).holds(e) && scope_of(context).is_current(e)),
    )
}

proof fn filter_pushes(events: Seq<EventView>, i: int, keep: spec_fn(EventView) -> bool)
    requires
        0 <= i < events.len(),
    ensures
        events.take(i + 1).filter(keep) == (if keep(events[i]) {
            events.take(i).filter(keep).push(events[i])
        } else {
            events.take(i).filter(keep)
        }),
{
    reveal(Seq::filter);
    assert(events.take(i + 1).drop_last() =~= events.take(i));
}

proof fn filter_shrinks(events: Seq<EventView>, keep: spec_fn(EventView) -> bool)
    ensures
        events.filter(keep).len() <= events.len(),
    decreases events.len(),
{
    reveal(Seq::filter);
    if events.len() > 0 {
        filter_shrinks(events.drop_last(), keep);
    }
}

/// Count the messages and the tool events of a log.
pub fn category_counts(events: &Vec<NormalizedEvent>) -> (counts: CategoryCounts)
    ensures
        counts.messages == messages_in(event_views(events@)),
        counts.tools == tools_in(event_views(events@)),
{
    let ghost log = event_views(events@);
    let ghost message = |e: EventView| is_message_event(e);
    let ghost tool = |e: EventView| is_tool_event(e);
    let mut counts = CategoryCounts { messages: 0, tools: 0 };
    let mut i: usize = 0;
    proof {
        reveal(Seq::filter);
        assert(log.take(0) =~= Seq::empty());
    }
    while i < events.len()
        invariant
            i <= events@.len(),
            log == event_views(events@),
            message == (|e: EventView| is_message_event(e)),
            tool == (|e: EventView| is_tool_event(e)),
            counts.messages <= i,
            counts.tools <= i,
            counts.messages == log.take(i as int).filter(message).len(),
            counts.tools == log.take(i as int).filter(tool).len(),
        decreases events@.len() - i,
    {
        let event: &NormalizedEvent = &events[i];
        proof {
            assert(log[i as int] == event@);
            filter_pushes(log, i as int, message);
            filter_pushes(log, i as int, tool);
        }
        match event.kind {
            EventKind::ToolInvocation | EventKind::ToolResult => {
                counts.tools += 1;
            },
            EventKind::Message => {
                if event.role == Role::Tool {
                    counts.tools += 1;
                } else {
                    counts.messages += 1;
                }
            },
            _ => {},
        }
        i += 1;
    }
    assert(log.take(i as int) =~= log);
    counts
}

/// The log without the current request.
fn history_events(context: &NormalizedContext) -> (events: Vec<NormalizedEvent>)
    ensures
        event_views(events@) == without_request(*context),
{
    let ghost log = event_views(context.events@);
    let ghost keep = |e: EventView|
        !(scope_of(*context).holds(e) && scope_of(*context).is_current(e));
    let mut events: Vec<NormalizedEvent> = Vec::new();
    let mut i: usize = 0;
    proof {
        reveal(Seq::filter);
        assert(log.take(0) =~= Seq::empty());
        assert(event_views(events@) =~= log.take(0).filter(keep));
    }
    while i < context.events.len()
        invariant
            i <= context.events@.len(),
            log == event_views(context.events@),
            keep == (|e: EventView|
                !(scope_of(*context).holds(e) && scope_of(*context).is_current(e))),
            event_views(events@) == log.take(i as int).filter(keep),
        decreases context.events@.len() - i,
    {
        let event: &NormalizedEvent = &context.events[i];
        proof {
            assert(log[i as int] == event@);
            filter_pushes(log, i as int, keep);
        }
        let current: bool = context.current_request.event_id.is_some() && same_optional(
            &event.event_id,
            &context.current_request.event_id,
        ) && same_optional(&event.agent_id, &context.agent_id) && same_optional(
            &event.branch_id,
            &context.branch_id,
        );
        assert(current == (scope_of(*context).holds(event@) && scope_of(*context).is_current(
            event@,
        )));
        if !current {
            let ghost before = event_views(events@);
            events.push(event.copied());
            assert(event_views(events@) =~= before.push(event@));
        }
        i += 1;
    }
    assert(log.take(i as int) =~= log);
    events
}

pub open spec fn saturating(a: int, b: int) -> int {
    if a < b {
        0
    } else {
        a - b
    }
}

/// Two requests that say the same.
pub open spec fn same_request(a: CurrentRequest, b: CurrentRequest) -> bool {
    &&& optional_text(a.event_id) == optional_text(b.event_id)
    &&& a.text@ == b.text@
    &&& a.attachments_omitted == b.attachments_omitted
    &&& a.essential_attachment_missing == b.essential_attachment_missing
}

/// Two envelopes that agree in all but their events.
pub open spec fn same_envelope(a: NormalizedContext, b: NormalizedContext) -> bool {
    &&& a.schema_version == b.schema_version
    &&& a.harness@ == b.harness@
    &&& optional_text(a.producer_id) == optional_text(b.producer_id)
    &&& optional_text(a.workspace_root) == optional_text(b.workspace_root)
    &&& optional_text(a.session_id) == optional_text(b.session_id)
    &&& optional_text(a.agent_id) == optional_text(b.agent_id)
    &&& optional_text(a.branch_id) == optional_text(b.branch_id)
    &&& optional_text(a.context_epoch) == optional_text(b.context_epoch)
    &&& same_request(a.current_request, b.current_request)
    &&& texts(a.explicit_skill_references@) == texts(b.explicit_skill_references@)
    &&& texts(a.supplied_loads@) == texts(b.supplied_loads@)
}

/// A context with the selected history in place of its events.
#[derive(Debug)]
pub struct Projection {
    pub context: NormalizedContext,
    pub incomplete: bool,
    pub omitted: CategoryCounts,
}

/// What was left out of a log, category by category.
pub open spec fn omission(context: NormalizedContext, selected: Seq<EventView>) -> CategoryCounts {
    CategoryCounts {
        messages: saturating(
            messages_in(without_request(context)) as int,
            messages_in(selected) as int,
        ) as usize,
        tools: saturating(
            tools_in(without_request(context)) as int,
            tools_in(selected) as int,
        ) as usize,
    }
}

pub open spec fn is_projection(p: Projection, context: NormalizedContext) -> bool {
    &&& scope_of(context).selection() == Ok::<(Seq<EventView>, bool), HistoryError>(
        (event_views(p.context.events@), p.incomplete),
    )
    &&& same_envelope(p.context, context)
    &&& p.omitted == omission(context, event_views(p.context.events@))
}

/// Select the history of a context. The envelope stays as it was.
pub fn project(context: &NormalizedContext) -> (r: Result<Projection, HistoryError>)
    ensures
        match r {
            Ok(projection) => is_projection(projection, *context),
            Err(error) => scope_of(*context).selection() == Err::<
                (Seq<EventView>, bool),
                HistoryError,
            >(error),
        },
{
    let (events, incomplete) = match select(context) {
        Ok((events, incomplete)) => (events, incomplete),
        Err(error) => {
            return Err(error);
        },
    };
    let selected: CategoryCounts = category_counts(&events);
    let history: Vec<NormalizedEvent> = history_events(context);
    let original: CategoryCounts = category_counts(&history);
    let omitted = CategoryCounts {
        messages: if original.messages < selected.messages {
            0
        } else {
            original.messages - selected.messages
        },
        tools: if original.tools < selected.tools {
            0
        } else {
            original.tools - selected.tools
        },
    };
    let current_request = CurrentRequest {
        event_id: copy_optional(&context.current_request.event_id),
        text: copy_text(context.current_request.text.as_str()),
        attachments_omitted: context.current_request.attachments_omitted,
        essential_attachment_missing: context.current_request.essential_attachment_missing,
    };
    let projected = NormalizedContext {
        schema_version: context.schema_version,
        harness: copy_text(context.harness.as_str()),
        producer_id: copy_optional(&context.producer_id),
        workspace_root: copy_optional(&context.workspace_root),
        session_id: copy_optional(&context.session_id),
        agent_id: copy_optional(&context.agent_id),
        branch_id: copy_optional(&context.branch_id),
        context_epoch: copy_optional(&context.context_epoch),
        current_request,
        events,
        explicit_skill_references: copy_texts(&context.explicit_skill_references),
        supplied_loads: copy_texts(&context.supplied_loads),
    };
    Ok(Projection { context: projected, incomplete, omitted })
}

/// The quality to report once the history is known to be incomplete.
pub open spec fn reported_quality(quality: ContextQuality, incomplete: bool) -> ContextQuality {
    if incomplete && quality != ContextQuality::Insufficient {
        ContextQuality::Partial
    } else {
        quality
    }
}

pub fn final_quality(quality: ContextQuality, incomplete: bool) -> (r: ContextQuality)
    ensures
        r == reported_quality(quality, incomplete),
{
    if incomplete && quality != ContextQuality::Insufficient {
        ContextQuality::Partial
    } else {
        quality
    }
}

/// What disclosed text is about.
#[derive(Clone, Copy, Debug, PartialEq, Eq, Structural)]
pub enum SourceCategory {
    CurrentRequest,
    MessageHistory,
    ToolEvents,
    ProjectSignals,
    SessionState,
}

/// What was disclosed of one category.
#[derive(Clone, Copy, Debug, PartialEq, Eq, Structural)]
pub struct CategoryReceipt {
    pub category: SourceCategory,
    pub included_count: usize,
    pub omitted_count: usize,
    pub truncated_count: usize,
    pub redaction_count: usize,
}

/// What was disclosed in all.
#[derive(Clone, Debug)]
pub struct DisclosureReceipt {
    pub context_quality: ContextQuality,
    pub disclosed_bytes: usize,
    pub categories: Vec<CategoryReceipt>,
    pub total_omitted: usize,
}

pub open spec fn extra_omissions(category: SourceCategory, omitted: CategoryCounts) -> nat {
    match category {
        SourceCategory::MessageHistory => omitted.messages as nat,
        SourceCategory::ToolEvents => omitted.tools as nat,
        _ => 0,
    }
}

/// The omissions of the first `n` categories, those before rendering included.
pub open spec fn omitted_below(
    categories: Seq<CategoryReceipt>,
    omitted: CategoryCounts,
    n: int,
) -> nat
    decreases n,
{
    if n <= 0 || n > categories.len() {
        0
    } else {
        omitted_below(categories, omitted, n - 1) + categories[n - 1].omitted_count as nat
            + extra_omissions(categories[n - 1].category, omitted)
    }
}

pub open spec fn total_omissions(
    categories: Seq<CategoryReceipt>,
    omitted: CategoryCounts,
) -> nat {
    omitted_below(categories, omitted, categories.len() as int)
}

/// A receipt that accounts for the events left out before rendering too.
pub open spec fn accounts(
    receipt: DisclosureReceipt,
    before: DisclosureReceipt,
    omitted: CategoryCounts,
) -> bool {
    &&& receipt.categories@.len() == before.categories@.len()
    &&& forall|i: int|
        0 <= i < before.categories@.len() ==> (#[trigger] receipt.categories@[i]) == (
        CategoryReceipt {
            omitted_count: (before.categories@[i].omitted_count + extra_omissions(
                before.categories@[i].category,
                omitted,
            )) as usize,
            ..before.categories@[i]
        })
    &&& receipt.total_omitted == total_omissions(before.categories@, omitted)
}

proof fn omissions_grow(
    categories: Seq<CategoryReceipt>,
    omitted: CategoryCounts,
    a: int,
    b: int,
)
    requires
        0 <= a <= b <= categories.len(),
    ensures
        omitted_below(categories, omitted, a) <= omitted_below(categories, omitted, b),
    decreases b - a,
{
    if a < b {
        omissions_grow(categories, omitted, a, b - 1);
    }
}

/// Account for the events that were left out before rendering.
pub fn complete_receipt(
    receipt: DisclosureReceipt,
    quality: ContextQuality,
    disclosed_bytes: usize,
    omitted: CategoryCounts,
) -> (r: DisclosureReceipt)
    requires
        total_omissions(receipt.categories@, omitted) <= usize::MAX,
    ensures
        r.context_quality == quality,
        r.disclosed_bytes == disclosed_bytes,
        accounts(r, receipt, omitted),
{
    let ghost before = receipt.categories@;
    let mut categories: Vec<CategoryReceipt> = Vec::new();
    let mut total: usize = 0;
    let mut i: usize = 0;
    while i < receipt.categories.len()
        invariant
            i <= receipt.categories@.len(),
            before == receipt.categories@,
            total_omissions(before, omitted) <= usize::MAX,
            total == omitted_below(before, omitted, i as int),
            categories@.len() == i,
            forall|j: int|
                0 <= j < i ==> (#[trigger] categories@[j]) == (CategoryReceipt {
                    omitted_count: (before[j].omitted_count + extra_omissions(
                        before[j].category,
                        omitted,
                    )) as usize,
                    ..before[j]
                }),
        decreases receipt.categories@.len() - i,
    {
        proof {
            omissions_grow(before, omitted, i + 1, before.len() as int);
        }
        let own: CategoryReceipt = receipt.categories[i];
        let extra: usize = match own.category {
            SourceCategory::MessageHistory => omitted.messages,
            SourceCategory::ToolEvents => omitted.tools,
            _ => 0,
        };
        assert(omitted_below(before, omitted, i + 1) == omitted_below(before, omitted, i as int)
            + own.omitted_count + extra);
        let omitted_count: usize = own.omitted_count + extra;
        total += omitted_count;
        categories.push(
            CategoryReceipt {
                category: own.category,
                included_count: own.included_count,
                omitted_count,
                truncated_count: own.truncated_count,
                redaction_count: own.redaction_count,
            },
        );
        i += 1;
    }
    DisclosureReceipt {
        context_quality: quality,
        disclosed_bytes,
        categories,
        total_omitted: total,
    }
}

/// A payload for the provider: its quality and its messages.
#[derive(Clone, Debug)]
pub struct RenderedContextPayload {
    pub context_quality: ContextQuality,
    pub messages: Vec<String>,
}

/// What the payload stage made of a projected context: the payload with its
/// receipt, and the size of the sealed payload once serialized and inspected.
#[derive(Debug)]
pub struct PayloadStage {
    pub rendered: Result<(RenderedContextPayload, DisclosureReceipt), RenderContextError>,
    pub sealed: SealOutcome,
}

/// How sealing a payload ended.
#[derive(Debug)]
pub enum SealOutcome {
    Sealed(usize),
    NotSerialized(String),
    Withheld(String),
}

/// Does the outcome of sealing stand for this result?
pub open spec fn seals(outcome: SealOutcome, r: Result<usize, RenderContextError>) -> bool {
    match (outcome, r) {
        (SealOutcome::Sealed(n), Ok(bytes)) => bytes == n,
        (
            SealOutcome::NotSerialized(reason),
            Err(RenderContextError::Serialization(text)),
        ) => text == reason,
        (SealOutcome::Withheld(reason), Err(RenderContextError::Privacy(text))) => text == reason,
        _ => false,
    }
}

fn seal(outcome: SealOutcome) -> (r: Result<usize, RenderContextError>)
    ensures
        seals(outcome, r),
{
    match outcome {
        SealOutcome::Sealed(n) => Ok(n),
        SealOutcome::NotSerialized(reason) => Err(RenderContextError::Serialization(reason)),
        SealOutcome::Withheld(reason) => Err(RenderContextError::Privacy(reason)),
    }
}

/// The error of rendering a projected context, in the order of the stages.
pub open spec fn render_fails(
    context: NormalizedContext,
    stage: PayloadStage,
    error: RenderContextError,
) -> bool {
    match scope_of(context).selection() {
        Err(cause) => error == RenderContextError::UnresolvedHistory(cause),
        Ok(_) => match stage.rendered {
            Err(cause) => error == cause,
            Ok(_) => !(stage.sealed is Sealed) && seals(stage.sealed, Err(error)),
        },
    }
}

/// As many omissions as a context has events.
pub open spec fn every_event_omitted(context: NormalizedContext) -> CategoryCounts {
    CategoryCounts { messages: context.events@.len() as usize, tools: context.events@.len() as usize }
}

proof fn omissions_fit(
    context: NormalizedContext,
    selected: Seq<EventView>,
    categories: Seq<CategoryReceipt>,
)
    requires
        context.events@.len() <= usize::MAX,
    ensures
        total_omissions(categories, omission(context, selected)) <= total_omissions(
            categories,
            every_event_omitted(context),
        ),
{
    let log = event_views(context.events@);
    let rest = without_request(context);
    filter_shrinks(
        log,
        |e: EventView| !(scope_of(context).holds(e) && scope_of(context).is_current(e)),
    );
    filter_shrinks(rest, |e: EventView| is_message_event(e));
    filter_shrinks(rest, |e: EventView| is_tool_event(e));
    more_omissions_total_more(
        categories,
        omission(context, selected),
        every_event_omitted(context),
        categories.len() as int,
    );
}

proof fn more_omissions_total_more(
    categories: Seq<CategoryReceipt>,
    a: CategoryCounts,
    b: CategoryCounts,
    n: int,
)
    requires
        a.messages <= b.messages,
        a.tools <= b.tools,
        0 <= n <= categories.len(),
    ensures
        omitted_below(categories, a, n) <= omitted_below(categories, b, n),
    decreases n,
{
    if n > 0 {
        more_omissions_total_more(categories, a, b, n - 1);
    }
}

/// Finish the payload and the receipt of a context. Nothing of an unresolved
/// history is published.
pub fn render_context_and_receipt(context: &NormalizedContext, stage: PayloadStage) -> (r: Result<
    (RenderedContextPayload, DisclosureReceipt),
    RenderContextError,
>)
    requires
        stage.rendered is Ok ==> total_omissions(
            (stage.rendered->Ok_0).1.categories@,
            every_event_omitted(*context),
        ) <= usize::MAX,
    ensures
        match r {
            Ok((payload, receipt)) => {
                let selection = scope_of(*context).selection();
                &&& selection is Ok
                &&& stage.rendered is Ok
                &&& stage.sealed == SealOutcome::Sealed(receipt.disclosed_bytes)
                &&& {
                    let (events, incomplete) = selection->Ok_0;
                    let (before, draft) = stage.rendered->Ok_0;
                    &&& payload.context_quality == reported_quality(
                        before.context_quality,
                        incomplete,
                    )
                    &&& payload.messages == before.messages
                    &&& receipt.context_quality == payload.context_quality
                    &&& accounts(receipt, draft, omission(*context, events))
                }
            },
            Err(error) => render_fails(*context, stage, error),
        },
{
    let projection: Projection = match project(context) {
        Ok(projection) => projection,
        Err(error) => {
            return Err(RenderContextError::UnresolvedHistory(error));
        },
    };
    let (before, draft) = match stage.rendered {
        Ok((before, draft)) => (before, draft),
        Err(error) => {
            return Err(error);
        },
    };
    let context_quality: ContextQuality = final_quality(
        before.context_quality,
        projection.incomplete,
    );
    match seal(stage.sealed) {
        Ok(bytes) => {
            proof {
                assert(context.events.len() <= usize::MAX);
                omissions_fit(*context, event_views(projection.context.events@), draft.categories@);
            }
            let receipt: DisclosureReceipt = complete_receipt(
                draft,
                context_quality,
                bytes,
                projection.omitted,
            );
            Ok((RenderedContextPayload { context_quality, messages: before.messages }, receipt))
        },
        Err(error) => Err(error),
    }
}

/// Finish the payload of a context, under the same checks.
pub fn render_context(context: &NormalizedContext, stage: PayloadStage) -> (r: Result<
    RenderedContextPayload,
    RenderContextError,
>)
    ensures
        match r {
            Ok(payload) => {
                let selection = scope_of(*context).selection();
                &&& selection is Ok
                &&& stage.rendered is Ok
                &&& stage.sealed is Sealed
                &&& {
                    let (_, incomplete) = selection->Ok_0;
                    let (before, _) = stage.rendered->Ok_0;
                    &&& payload.context_quality == reported_quality(
                        before.context_quality,
                        incomplete,
                    )
                    &&& payload.messages == before.messages
                }
            },
            Err(error) => render_fails(*context, stage, error),
        },
{
    let projection: Projection = match project(context) {
        Ok(projection) => projection,
        Err(error) => {
            return Err(RenderContextError::UnresolvedHistory(error));
        },
    };
    let (before, _) = match stage.rendered {
        Ok((before, draft)) => (before, draft),
        Err(error) => {
            return Err(error);
        },
    };
    let context_quality: ContextQuality = final_quality(
        before.context_quality,
        projection.incomplete,
    );
    match seal(stage.sealed) {
        Ok(_) => Ok(RenderedContextPayload { context_quality, messages: before.messages }),
        Err(error) => Err(error),
    }
}

/// A payload of an incomplete history never claims to be complete.
pub proof fn incomplete_history_is_never_complete(quality: ContextQuality)
    ensures
        reported_quality(quality, true) == ContextQuality::Partial || reported_quality(quality, true)
            == ContextQuality::Insufficient,
        reported_quality(quality, false) == quality,
{
}

} // verus!
