//! What a request's history holds: which events come before it, and when there
//! is no telling.
use crate::context::anchor::history::{HistoryError, Scope};
use crate::context::branch::lineage::lineage_of;
use crate::context::{EventKind, EventView, Role};
use vstd::prelude::*;

verus! {

/// Is this event the scope's own: its agent's, on its branch?
pub open spec fn is_own(scope: Scope, e: EventView) -> bool {
    e.agent_id == scope.agent && e.branch_id == scope.branch
}

/// Is this event the request itself?
pub open spec fn is_request(scope: Scope, e: EventView) -> bool {
    scope.current is Some && e.event_id == scope.current
}

/// Did the request come at this place or before it?
pub open spec fn request_came(scope: Scope, i: int) -> bool {
    exists|j: int|
        0 <= j <= i && is_own(scope, #[trigger] scope.log[j]) && is_request(scope, scope.log[j])
}

/// Did this event come before, under the same name?
pub open spec fn came_before(scope: Scope, i: int) -> bool {
    exists|j: int|
        0 <= j < i && is_own(scope, #[trigger] scope.log[j]) && scope.log[j].event_id is Some
            && scope.log[j].event_id == scope.log[i].event_id
}

/// Does this place belong to the history of a log without parents?
pub open spec fn is_history(scope: Scope, i: int) -> bool {
    is_own(scope, scope.log[i]) && !request_came(scope, i) && !came_before(scope, i)
}

pub open spec fn increases(places: Seq<int>) -> bool {
    forall|a: int, b: int|
        0 <= a < b < places.len() ==> #[trigger] places[a] < #[trigger] places[b]
}

proof fn places_below(scope: Scope, n: int) -> (places: Seq<int>)
    requires
        0 <= n <= scope.log.len(),
    ensures
        scope.flat_below(n) == places.map_values(|i: int| scope.log[i]),
        increases(places),
        forall|i: int| #[trigger] places.contains(i) <==> 0 <= i < n && is_history(scope, i),
    decreases n,
{
    if n == 0 {
        assert(scope.flat_below(n) =~= Seq::<int>::empty().map_values(|i: int| scope.log[i]));
        Seq::empty()
    } else {
        let before = places_below(scope, n - 1);
        let i = n - 1;
        assert(scope.past_current(i) <==> request_came(scope, i)) by {
            if scope.past_current(i) {
                let j = choose|j: int|
                    0 <= j <= i && #[trigger] scope.holds(scope.log[j]) && scope.is_current(
                        scope.log[j],
                    );
                assert(is_own(scope, scope.log[j]) && is_request(scope, scope.log[j]));
            }
            if request_came(scope, i) {
                let j = choose|j: int|
                    0 <= j <= i && is_own(scope, #[trigger] scope.log[j]) && is_request(
                        scope,
                        scope.log[j],
                    );
                assert(scope.holds(scope.log[j]) && scope.is_current(scope.log[j]));
            }
        }
        if scope.holds(scope.log[i]) {
            assert(scope.repeats(i) <==> came_before(scope, i)) by {
                if scope.repeats(i) {
                    let j = choose|j: int| 0 <= j < i && #[trigger] scope.same_identity(j, i);
                    assert(is_own(scope, scope.log[j]));
                }
                if came_before(scope, i) {
                    let j = choose|j: int|
                        0 <= j < i && is_own(scope, #[trigger] scope.log[j])
                            && scope.log[j].event_id is Some && scope.log[j].event_id
                            == scope.log[i].event_id;
                    assert(scope.same_identity(j, i));
                }
            }
        }
        if is_history(scope, i) {
            let places = before.push(i);
            assert(scope.flat_below(n) =~= places.map_values(|i: int| scope.log[i]));
            assert forall|k: int| #[trigger] places.contains(k) <==> 0 <= k < n && is_history(
                scope,
                k,
            ) by {
                assert(before.contains(k) <==> 0 <= k < n - 1 && is_history(scope, k));
                assert(places[before.len() as int] == i);
                if before.contains(k) {
                    assert(places[before.index_of(k)] == k);
                }
                if places.contains(k) {
                    let a = places.index_of(k);
                    assert(a < before.len() ==> before[a] == k);
                }
            }
            assert forall|a: int, b: int| 0 <= a < b < places.len() implies #[trigger] places[a]
                < #[trigger] places[b] by {
                assert(before.contains(before[a]));
            }
            places
        } else {
            assert forall|k: int| #[trigger] before.contains(k) <==> 0 <= k < n && is_history(
                scope,
                k,
            ) by {
                assert(before.contains(k) <==> 0 <= k < n - 1 && is_history(scope, k));
            }
            before
        }
    }
}

/// In a log without parents the history is what came before the request: all of
/// the scope's own events up to it, in their order, each once, and no other.
pub proof fn flat_histories_come_before_the_request(scope: Scope) -> (places: Seq<int>)
    requires
        scope.selection() is Ok,
        forall|i: int|
            0 <= i < scope.log.len() && is_own(scope, #[trigger] scope.log[i])
                ==> scope.log[i].parent_id is None,
    ensures
        scope.selection()->Ok_0.0 == places.map_values(|i: int| scope.log[i]),
        !scope.selection()->Ok_0.1,
        increases(places),
        forall|i: int| #[trigger]
            places.contains(i) <==> 0 <= i < scope.log.len() && is_history(scope, i),
{
    assert(scope.flat()) by {
        assert forall|i: int| 0 <= i < scope.log.len() && #[trigger] scope.holds(
            scope.log[i],
        ) implies scope.log[i].parent_id is None by {
            assert(is_own(scope, scope.log[i]));
        }
    }
    places_below(scope, scope.log.len() as int)
}

/// A log without parents whose request is well declared is refused only where
/// two of the scope's own events share a name and differ.
pub proof fn conflicts_are_shared_names(scope: Scope, i: int, j: int)
    requires
        0 <= i < j < scope.log.len(),
        is_own(scope, scope.log[i]),
        is_own(scope, scope.log[j]),
        scope.log[i].event_id is Some,
        scope.log[i].event_id == scope.log[j].event_id,
        scope.log[i] != scope.log[j],
        forall|k: int|
            0 <= k < scope.log.len() && is_own(scope, #[trigger] scope.log[k])
                ==> scope.log[k].parent_id is None,
    ensures
        scope.selection() is Err,
        scope.selection()->Err_0 == HistoryError::Conflict || scope.selection()->Err_0
            == HistoryError::WrongRequest,
{
    assert(scope.flat()) by {
        assert forall|k: int| 0 <= k < scope.log.len() && #[trigger] scope.holds(
            scope.log[k],
        ) implies scope.log[k].parent_id is None by {
            assert(is_own(scope, scope.log[k]));
        }
    }
    assert(scope.same_identity(i, j));
}

/// A history without a request of its own in the log, with no parents and no
/// shared names, is never refused.
pub proof fn plain_histories_are_told(scope: Scope)
    requires
        forall|i: int|
            0 <= i < scope.log.len() ==> !is_request(scope, #[trigger] scope.log[i])
                || (is_own(scope, scope.log[i]) && scope.log[i].role == Role::User
                && scope.log[i].kind == EventKind::Message),
        forall|i: int|
            0 <= i < scope.log.len() && is_own(scope, #[trigger] scope.log[i])
                ==> scope.log[i].parent_id is None,
        forall|i: int, j: int|
            0 <= i < j < scope.log.len() && is_own(scope, #[trigger] scope.log[i]) && is_own(
                scope,
                #[trigger] scope.log[j],
            ) && scope.log[i].event_id is Some ==> scope.log[i].event_id != scope.log[j].event_id,
    ensures
        scope.selection() is Ok,
{
    assert(!scope.wrong_request()) by {
        if exists|i: int| 0 <= i < scope.log.len() && #[trigger] scope.is_current(scope.log[i]) {
            let i = choose|i: int|
                0 <= i < scope.log.len() && #[trigger] scope.is_current(scope.log[i]);
            assert(is_request(scope, scope.log[i]));
            assert(scope.holds(scope.log[i]));
        }
        assert forall|i: int|
            0 <= i < scope.log.len() && #[trigger] scope.holds(scope.log[i]) && scope.is_current(
                scope.log[i],
            ) implies scope.log[i].role == Role::User && scope.log[i].kind
            == EventKind::Message by {
            assert(is_request(scope, scope.log[i]));
        }
    }
    assert(scope.flat()) by {
        assert forall|i: int| 0 <= i < scope.log.len() && #[trigger] scope.holds(
            scope.log[i],
        ) implies scope.log[i].parent_id is None by {
            assert(is_own(scope, scope.log[i]));
        }
    }
    assert(!scope.conflict()) by {
        assert forall|i: int, j: int|
            0 <= i < j < scope.log.len() implies !#[trigger] scope.same_identity(i, j) by {
            assert(is_own(scope, scope.log[i]) ==> scope.holds(scope.log[i]));
        }
    }
}

/// A request that is declared for another agent or branch, or that is not what
/// a user said, is refused as the wrong one, and nothing else is.
pub proof fn wrong_requests_are_refused(scope: Scope, i: int)
    requires
        0 <= i < scope.log.len(),
        is_request(scope, scope.log[i]),
    ensures
        is_own(scope, scope.log[i]) && (scope.log[i].role != Role::User || scope.log[i].kind
            != EventKind::Message) ==> scope.selection() == Err::<
            (Seq<EventView>, bool),
            HistoryError,
        >(HistoryError::WrongRequest),
        (forall|k: int|
            0 <= k < scope.log.len() && is_request(scope, #[trigger] scope.log[k]) ==> !is_own(
                scope,
                scope.log[k],
            )) ==> scope.selection() == Err::<(Seq<EventView>, bool), HistoryError>(
            HistoryError::WrongRequest,
        ),
{
    assert(scope.is_current(scope.log[i]));
    if is_own(scope, scope.log[i]) {
        assert(scope.holds(scope.log[i]));
    }
    if forall|k: int|
        0 <= k < scope.log.len() && is_request(scope, #[trigger] scope.log[k]) ==> !is_own(
            scope,
            scope.log[k],
        ) {
        assert(!scope.has_current());
    }
}

proof fn agents_events_below(scope: Scope, n: int)
    requires
        0 <= n <= scope.log.len(),
    ensures
        scope.agent_below(n) == scope.log.take(n).filter(
            |e: EventView| e.agent_id == scope.agent,
        ),
    decreases n,
{
    reveal(Seq::filter);
    if n > 0 {
        agents_events_below(scope, n - 1);
        assert(scope.log.take(n).drop_last() =~= scope.log.take(n - 1));
    } else {
        assert(scope.log.take(0).len() == 0);
    }
}

proof fn requests_are_taken_out(scope: Scope, chain: Seq<EventView>)
    ensures
        scope.earlier(chain) == chain.filter(|e: EventView| !is_request(scope, e)),
    decreases chain.len(),
{
    reveal(Seq::filter);
    if chain.len() > 0 {
        requests_are_taken_out(scope, chain.drop_last());
    }
}

/// Where the scope's own events have parents, the history is the branch that
/// the agent's events resolve to, without the request itself: no other agent's
/// events take part, and nothing else is left out.
pub proof fn branched_histories_leave_the_request_out(scope: Scope, i: int)
    requires
        0 <= i < scope.log.len(),
        is_own(scope, scope.log[i]),
        scope.log[i].parent_id is Some,
        scope.selection() is Ok,
    ensures
        ({
            let own = scope.log.filter(|e: EventView| e.agent_id == scope.agent);
            let branch = lineage_of(own, Seq::empty()).resolution(scope.target());
            let history = scope.selection()->Ok_0.0;
            &&& branch is Ok
            &&& scope.target().agent == scope.agent
            &&& scope.target().branch == scope.branch
            &&& (forall|k: int|
                0 <= k < scope.log.len() && is_own(scope, #[trigger] scope.log[k])
                    ==> !is_request(scope, scope.log[k])) ==> scope.target().event is None
                && history == branch->Ok_0.events
            &&& (exists|k: int|
                0 <= k < scope.log.len() && is_own(scope, #[trigger] scope.log[k]) && is_request(
                    scope,
                    scope.log[k],
                )) ==> scope.target().event == scope.current && history
                == branch->Ok_0.events.filter(|e: EventView| !is_request(scope, e))
            &&& branch->Ok_0.ancestor_chain_truncated ==> scope.selection()->Ok_0.1
        }),
{
    let n = scope.log.len() as int;
    assert(scope.holds(scope.log[i]));
    assert(!scope.flat());
    agents_events_below(scope, n);
    assert(scope.log.take(n) =~= scope.log);
    let branch = lineage_of(scope.agent_below(n), Seq::empty()).resolution(scope.target());
    if branch is Ok {
        requests_are_taken_out(scope, branch->Ok_0.events);
    }
    if exists|k: int|
        0 <= k < scope.log.len() && is_own(scope, #[trigger] scope.log[k]) && is_request(
            scope,
            scope.log[k],
        ) {
        let k = choose|k: int|
            0 <= k < scope.log.len() && is_own(scope, #[trigger] scope.log[k]) && is_request(
                scope,
                scope.log[k],
            );
        assert(scope.holds(scope.log[k]) && scope.is_current(scope.log[k]));
    } else {
        assert(!scope.has_current());
    }
}

} // verus!
