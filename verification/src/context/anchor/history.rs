//! One local history selection for directive extraction and rendering.
//!
//! Parent-linked inputs use the qualified branch resolver, never vector order
//! or timestamps. Flat normalized inputs retain their supplied order only
//! within the envelope's exact agent and branch namespace.
use crate::context::branch::lineage::lineage_of;
use crate::context::branch::{
    resolve_active_branch, BranchResolution, BranchResolutionTarget, TargetView,
};
use crate::context::{
    event_views, EventKind, EventView, NormalizedContext, NormalizedEvent, Role,
};
use crate::text::{copy_optional, optional_text, same_optional};
use vstd::prelude::*;

verus! {

/// Why no history could be selected.
#[derive(Clone, Copy, Debug, PartialEq, Eq, Structural)]
pub enum HistoryError {
    Ambiguous,
    Conflict,
    WrongRequest,
}

impl HistoryError {
    pub open spec fn text(self) -> Seq<char> {
        match self {
            HistoryError::Ambiguous =>
                "active request history cannot be resolved unambiguously"@,
            HistoryError::Conflict =>
                "active request history contains conflicting event definitions"@,
            HistoryError::WrongRequest =>
                "current request event does not match its declared scope or role"@,
        }
    }

    pub fn as_str(self) -> (text: &'static str)
        ensures
            text@ == self.text(),
    {
        match self {
            HistoryError::Ambiguous => "active request history cannot be resolved unambiguously",
            HistoryError::Conflict =>
                "active request history contains conflicting event definitions",
            HistoryError::WrongRequest =>
                "current request event does not match its declared scope or role",
        }
    }
}

/// The agent and branch of an envelope, the identity of its request, and its
/// events.
pub struct Scope {
    pub agent: Option<Seq<char>>,
    pub branch: Option<Seq<char>>,
    pub current: Option<Seq<char>>,
    pub log: Seq<EventView>,
}

pub open spec fn scope_of(context: NormalizedContext) -> Scope {
    Scope {
        agent: optional_text(context.agent_id),
        branch: optional_text(context.branch_id),
        current: optional_text(context.current_request.event_id),
        log: event_views(context.events@),
    }
}

impl Scope {
    pub open spec fn holds(self, e: EventView) -> bool {
        e.agent_id == self.agent && e.branch_id == self.branch
    }

    /// Is `e` the event of the current request?
    pub open spec fn is_current(self, e: EventView) -> bool {
        self.current is Some && e.event_id == self.current
    }

    /// The current request has an event in scope.
    pub open spec fn has_current(self) -> bool {
        exists|i: int|
            0 <= i < self.log.len() && #[trigger] self.holds(self.log[i]) && self.is_current(
                self.log[i],
            )
    }

    /// The current request's identity is only that of an event out of scope,
    /// or of one in scope that is no user message.
    pub open spec fn wrong_request(self) -> bool {
        ||| !self.has_current() && exists|i: int|
            0 <= i < self.log.len() && #[trigger] self.is_current(self.log[i])
        ||| exists|i: int|
            0 <= i < self.log.len() && #[trigger] self.holds(self.log[i]) && self.is_current(
                self.log[i],
            ) && (self.log[i].role != Role::User || self.log[i].kind != EventKind::Message)
    }

    /// No event in scope names a parent.
    pub open spec fn flat(self) -> bool {
        forall|i: int|
            0 <= i < self.log.len() && #[trigger] self.holds(self.log[i])
                ==> self.log[i].parent_id is None
    }

    /// Two events in scope share an identity.
    pub open spec fn same_identity(self, i: int, j: int) -> bool {
        self.holds(self.log[i]) && self.holds(self.log[j]) && self.log[i].event_id is Some
            && self.log[i].event_id == self.log[j].event_id
    }

    pub open spec fn conflict(self) -> bool {
        exists|i: int, j: int|
            0 <= i < j < self.log.len() && #[trigger] self.same_identity(i, j) && self.log[i]
                != self.log[j]
    }

    /// The request's event, or one in scope after it in the log.
    pub open spec fn past_current(self, i: int) -> bool {
        exists|j: int|
            0 <= j <= i && #[trigger] self.holds(self.log[j]) && self.is_current(self.log[j])
    }

    pub open spec fn repeats(self, i: int) -> bool {
        exists|j: int| 0 <= j < i && #[trigger] self.same_identity(j, i)
    }

    /// The first occurrences in scope before the current request, in log order.
    pub open spec fn flat_below(self, n: int) -> Seq<EventView>
        decreases n,
    {
        if n <= 0 {
            Seq::empty()
        } else if self.holds(self.log[n - 1]) && !self.repeats(n - 1) && !self.past_current(n - 1) {
            self.flat_below(n - 1).push(self.log[n - 1])
        } else {
            self.flat_below(n - 1)
        }
    }

    /// The agent's events among the first `n`.
    pub open spec fn agent_below(self, n: int) -> Seq<EventView>
        decreases n,
    {
        if n <= 0 {
            Seq::empty()
        } else if self.log[n - 1].agent_id == self.agent {
            self.agent_below(n - 1).push(self.log[n - 1])
        } else {
            self.agent_below(n - 1)
        }
    }

    pub open spec fn target(self) -> TargetView {
        TargetView {
            event: if self.has_current() {
                self.current
            } else {
                None
            },
            branch: self.branch,
            agent: self.agent,
        }
    }

    /// An event in scope that cannot be placed on a chain.
    pub open spec fn has_anonymous(self) -> bool {
        exists|i: int|
            0 <= i < self.log.len() && #[trigger] self.holds(self.log[i])
                && self.log[i].event_id is None
    }

    /// The events of a chain without that of the current request.
    pub open spec fn earlier(self, chain: Seq<EventView>) -> Seq<EventView>
        decreases chain.len(),
    {
        if chain.len() == 0 {
            Seq::empty()
        } else if self.is_current(chain.last()) {
            self.earlier(chain.drop_last())
        } else {
            self.earlier(chain.drop_last()).push(chain.last())
        }
    }

    /// The earlier events of the active history, and whether their parent
    /// chain is incomplete.
    pub open spec fn selection(self) -> Result<(Seq<EventView>, bool), HistoryError> {
        if self.wrong_request() {
            Err(HistoryError::WrongRequest)
        } else if self.flat() {
            if self.conflict() {
                Err(HistoryError::Conflict)
            } else {
                Ok((self.flat_below(self.log.len() as int), false))
            }
        } else {
            match lineage_of(self.agent_below(self.log.len() as int), Seq::empty()).resolution(
                self.target(),
            ) {
                Err(_) => Err(HistoryError::Ambiguous),
                Ok(branch) => Ok(
                    (
                        if self.has_current() {
                            self.earlier(branch.events)
                        } else {
                            branch.events
                        },
                        branch.ancestor_chain_truncated || self.has_anonymous(),
                    ),
                ),
            }
        }
    }
}

fn in_scope(context: &NormalizedContext, event: &NormalizedEvent) -> (r: bool)
    ensures
        r == scope_of(*context).holds(event@),
{
    same_optional(&event.agent_id, &context.agent_id) && same_optional(
        &event.branch_id,
        &context.branch_id,
    )
}

fn is_current(context: &NormalizedContext, event: &NormalizedEvent) -> (r: bool)
    ensures
        r == scope_of(*context).is_current(event@),
{
    context.current_request.event_id.is_some() && same_optional(
        &event.event_id,
        &context.current_request.event_id,
    )
}

/// What one pass over the log shows of an envelope.
struct Survey {
    has_current: bool,
    wrong_request: bool,
    flat: bool,
    has_anonymous: bool,
}

fn survey(context: &NormalizedContext) -> (r: Survey)
    ensures
        r.has_current == scope_of(*context).has_current(),
        r.wrong_request == scope_of(*context).wrong_request(),
        r.flat == scope_of(*context).flat(),
        r.has_anonymous == scope_of(*context).has_anonymous(),
{
    let ghost s = scope_of(*context);
    let mut has_current: bool = false;
    let mut named_anywhere: bool = false;
    let mut wrong_role: bool = false;
    let mut flat: bool = true;
    let mut has_anonymous: bool = false;
    let mut i: usize = 0;
    while i < context.events.len()
        invariant
            i <= context.events@.len(),
            s == scope_of(*context),
            has_current == exists|j: int|
                0 <= j < i && #[trigger] s.holds(s.log[j]) && s.is_current(s.log[j]),
            named_anywhere == exists|j: int| 0 <= j < i && #[trigger] s.is_current(s.log[j]),
            wrong_role == exists|j: int|
                0 <= j < i && #[trigger] s.holds(s.log[j]) && s.is_current(s.log[j]) && (
                s.log[j].role != Role::User || s.log[j].kind != EventKind::Message),
            flat == forall|j: int|
                0 <= j < i && #[trigger] s.holds(s.log[j]) ==> s.log[j].parent_id is None,
            has_anonymous == exists|j: int|
                0 <= j < i && #[trigger] s.holds(s.log[j]) && s.log[j].event_id is None,
        decreases context.events@.len() - i,
    {
        let event: &NormalizedEvent = &context.events[i];
        assert(s.log[i as int] == event@);
        let current: bool = is_current(context, event);
        let held: bool = in_scope(context, event);
        assert(s.holds(s.log[i as int]) == held);
        assert(s.is_current(s.log[i as int]) == current);
        if current {
            named_anywhere = true;
        }
        if held {
            if current {
                has_current = true;
                if event.role != Role::User || event.kind != EventKind::Message {
                    wrong_role = true;
                }
            }
            if event.parent_id.is_some() {
                flat = false;
            }
            if event.event_id.is_none() {
                has_anonymous = true;
            }
        }
        i += 1;
    }
    assert(s.log.len() == context.events@.len());
    Survey {
        has_current,
        wrong_request: (!has_current && named_anywhere) || wrong_role,
        flat,
        has_anonymous,
    }
}

/// Select a history without parent links.
fn select_flat(context: &NormalizedContext) -> (r: Result<Vec<NormalizedEvent>, HistoryError>)
    ensures
        match r {
            Ok(events) => !scope_of(*context).conflict() && event_views(events@) == scope_of(
                *context,
            ).flat_below(context.events@.len() as int),
            Err(error) => scope_of(*context).conflict() && error == HistoryError::Conflict,
        },
{
    let ghost s = scope_of(*context);
    let mut selected: Vec<NormalizedEvent> = Vec::new();
    let mut past_current: bool = false;
    let mut i: usize = 0;
    assert(event_views(selected@) =~= s.flat_below(0));
    while i < context.events.len()
        invariant
            i <= context.events@.len(),
            s == scope_of(*context),
            past_current == exists|j: int|
                0 <= j < i && #[trigger] s.holds(s.log[j]) && s.is_current(s.log[j]),
            event_views(selected@) == s.flat_below(i as int),
            forall|a: int, b: int|
                0 <= a < b < i && #[trigger] s.same_identity(a, b) ==> s.log[a] == s.log[b],
        decreases context.events@.len() - i,
    {
        let event: &NormalizedEvent = &context.events[i];
        assert(s.log[i as int] == event@);
        if in_scope(context, event) {
            let mut repeated: bool = false;
            let mut j: usize = 0;
            while j < i
                invariant
                    j <= i,
                    i < context.events@.len(),
                    s == scope_of(*context),
                    *event == context.events@[i as int],
                    s.holds(event@),
                    s.log[i as int] == event@,
                    repeated == exists|k: int| 0 <= k < j && #[trigger] s.same_identity(k, i as int),
                    forall|k: int|
                        0 <= k < j && #[trigger] s.same_identity(k, i as int) ==> s.log[k]
                            == s.log[i as int],
                decreases i - j,
            {
                let other: &NormalizedEvent = &context.events[j];
                assert(s.log[j as int] == other@);
                if event.event_id.is_some() && in_scope(context, other) && same_optional(
                    &other.event_id,
                    &event.event_id,
                ) {
                    assert(s.same_identity(j as int, i as int));
                    if !other.same(event) {
                        assert(s.conflict());
                        return Err(HistoryError::Conflict);
                    }
                    repeated = true;
                } else {
                    assert(!s.same_identity(j as int, i as int));
                }
                j += 1;
            }
            assert(repeated == s.repeats(i as int));
            if is_current(context, event) {
                past_current = true;
                assert(s.holds(s.log[i as int]) && s.is_current(s.log[i as int]));
            }
            assert(past_current == s.past_current(i as int));
            if !repeated && !past_current {
                let ghost before = event_views(selected@);
                selected.push(event.copied());
                assert(event_views(selected@) =~= before.push(event@));
            }
        } else {
            assert(!s.holds(s.log[i as int]));
        }
        i += 1;
    }
    assert(!s.conflict());
    Ok(selected)
}

/// Select the earlier events of the active request and tell whether their
/// parent chain is incomplete. The current prompt is left out by identity,
/// never by equal text.
pub fn select(context: &NormalizedContext) -> (r: Result<
    (Vec<NormalizedEvent>, bool),
    HistoryError,
>)
    ensures
        match r {
            Ok((events, incomplete)) => scope_of(*context).selection() == Ok::<
                (Seq<EventView>, bool),
                HistoryError,
            >((event_views(events@), incomplete)),
            Err(error) => scope_of(*context).selection() == Err::<
                (Seq<EventView>, bool),
                HistoryError,
            >(error),
        },
{
    let ghost s = scope_of(*context);
    let seen: Survey = survey(context);
    if seen.wrong_request {
        return Err(HistoryError::WrongRequest);
    }
    assert(s.log.len() == context.events@.len());
    if seen.flat {
        return match select_flat(context) {
            Ok(events) => Ok((events, false)),
            Err(error) => Err(error),
        };
    }
    let mut own: Vec<NormalizedEvent> = Vec::new();
    let mut i: usize = 0;
    assert(event_views(own@) =~= s.agent_below(0));
    while i < context.events.len()
        invariant
            i <= context.events@.len(),
            s == scope_of(*context),
            event_views(own@) == s.agent_below(i as int),
        decreases context.events@.len() - i,
    {
        let event: &NormalizedEvent = &context.events[i];
        assert(s.log[i as int] == event@);
        if same_optional(&event.agent_id, &context.agent_id) {
            let ghost before = event_views(own@);
            own.push(event.copied());
            assert(event_views(own@) =~= before.push(event@));
        }
        i += 1;
    }
    let target = BranchResolutionTarget {
        target_event_id: if seen.has_current {
            copy_optional(&context.current_request.event_id)
        } else {
            None
        },
        target_branch_id: copy_optional(&context.branch_id),
        target_agent_id: copy_optional(&context.agent_id),
    };
    assert(target@ == s.target());
    match resolve_active_branch(&own, &target) {
        BranchResolution::Unresolved(_) => Err(HistoryError::Ambiguous),
        BranchResolution::Resolved(branch) => {
            let incomplete: bool = branch.ancestor_chain_truncated || seen.has_anonymous;
            if !seen.has_current {
                return Ok((branch.events, incomplete));
            }
            let ghost chain = event_views(branch.events@);
            let mut kept: Vec<NormalizedEvent> = Vec::new();
            let mut k: usize = 0;
            assert(event_views(kept@) =~= s.earlier(chain.take(0)));
            while k < branch.events.len()
                invariant
                    k <= branch.events@.len(),
                    s == scope_of(*context),
                    chain == event_views(branch.events@),
                    event_views(kept@) == s.earlier(chain.take(k as int)),
                decreases branch.events@.len() - k,
            {
                let event: &NormalizedEvent = &branch.events[k];
                assert(chain.take(k as int + 1).drop_last() =~= chain.take(k as int));
                assert(chain.take(k as int + 1).last() == event@);
                if !is_current(context, event) {
                    let ghost before = event_views(kept@);
                    kept.push(event.copied());
                    assert(event_views(kept@) =~= before.push(event@));
                }
                k += 1;
            }
            assert(chain.take(k as int) =~= chain);
            Ok((kept, incomplete))
        },
    }
}

/// A selected history never holds the event of a current request that is in
/// scope.
pub proof fn selection_leaves_out_the_request(s: Scope, k: int)
    requires
        s.has_current(),
        s.selection() is Ok,
        0 <= k < s.selection()->Ok_0.0.len(),
    ensures
        !s.is_current(s.selection()->Ok_0.0[k]),
{
    let n = s.log.len() as int;
    if s.flat() {
        flat_leaves_out(s, n, k);
    } else {
        let branch = lineage_of(s.agent_below(n), Seq::empty()).resolution(s.target())->Ok_0;
        earlier_leaves_out(s, branch.events, k);
    }
}

proof fn flat_leaves_out(s: Scope, n: int, k: int)
    requires
        0 <= n <= s.log.len(),
        0 <= k < s.flat_below(n).len(),
    ensures
        !s.is_current(s.flat_below(n)[k]),
    decreases n,
{
    if n > 0 {
        if k < s.flat_below(n - 1).len() {
            flat_leaves_out(s, n - 1, k);
        } else {
            assert(!s.past_current(n - 1));
            assert(s.holds(s.log[n - 1]));
        }
    }
}

proof fn earlier_leaves_out(s: Scope, chain: Seq<EventView>, k: int)
    requires
        0 <= k < s.earlier(chain).len(),
    ensures
        !s.is_current(s.earlier(chain)[k]),
    decreases chain.len(),
{
    if chain.len() > 0 {
        if k < s.earlier(chain.drop_last()).len() {
            earlier_leaves_out(s, chain.drop_last(), k);
        }
    }
}

} // verus!
