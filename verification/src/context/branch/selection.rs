//! Where a conversation continues: what a resolved branch is, and which events
//! it may leave aside, told of the events themselves.
use crate::context::branch::laws::{
    ascent_follows_parents, every_key_is_indexed, index_is_ordered, is_parent,
    parents_stay_with_the_agent, resolved_branch_is_one_chain,
};
use crate::context::branch::lineage::{
    children_are_kids, conflicted, count_kind, first_branch, key_of, kids_are_children, lineage_of,
    lookup, only_named, parent_link, same_standing_means_same_key, EventKey, Lineage, ParentLink,
};
use crate::context::branch::{BranchView, ReasonView, TargetView};
use crate::context::{EventKind, EventView, Role};
use vstd::prelude::*;

verus! {

/// A notice of the harness: a system message about no tool.
pub open spec fn is_notice(e: EventView) -> bool {
    e.role == Role::System && e.kind == EventKind::Message && e.tool is None
}

/// A log of one agent in which every event has an identity of its own.
pub open spec fn is_plain_log(log: Seq<EventView>) -> bool {
    &&& forall|i: int| 0 <= i < log.len() ==> (#[trigger] log[i]).event_id is Some
    &&& forall|i: int, j: int|
        #![trigger log[i], log[j]]
        0 <= i < log.len() && 0 <= j < log.len() ==> log[i].agent_id == log[j].agent_id
    &&& forall|i: int, j: int|
        #![trigger log[i], log[j]]
        0 <= i < j < log.len() ==> log[i].event_id != log[j].event_id
}

/// Does `c` name `p` as its parent?
pub open spec fn names(c: EventView, p: EventView) -> bool {
    c.parent_id is Some && c.parent_id == p.event_id
}

/// Does an event of the log name `e` as its parent?
pub open spec fn has_child(log: Seq<EventView>, e: EventView) -> bool {
    exists|c: int| 0 <= c < log.len() && names(#[trigger] log[c], e)
}

/// No event names itself or a later one as its parent.
pub open spec fn parents_come_first(log: Seq<EventView>) -> bool {
    forall|c: int, p: int|
        #![trigger log[c], log[p]]
        0 <= c < log.len() && 0 <= p < log.len() && names(log[c], log[p]) ==> p < c
}

/// No event, branch or agent is asked for.
pub open spec fn open_target() -> TargetView {
    TargetView { event: None, branch: None, agent: None }
}

/// The index of a plain log tells of the log what the log tells of itself.
spec fn reads_plainly(g: Lineage, log: Seq<EventView>) -> bool {
    &&& g.links.len() == g.defs.len()
    &&& forall|i: int|
        0 <= i < g.defs.len() ==> (#[trigger] g.links[i]) == parent_link(g.defs, g.defs[i])
    &&& forall|i: int|
        0 <= i < g.defs.len() ==> log.contains(#[trigger] g.defs[i]) && g.defs[i].event_id is Some
    &&& forall|j: int| 0 <= j < log.len() ==> g.defs.contains(#[trigger] log[j])
    &&& forall|i: int, j: int|
        #![trigger g.defs[i], g.defs[j]]
        0 <= i < g.defs.len() && 0 <= j < g.defs.len() && g.defs[i].event_id == g.defs[j].event_id
            ==> i == j
    &&& forall|c: int, p: int|
        #![trigger g.defs[c], g.defs[p]]
        0 <= c < g.defs.len() && 0 <= p < g.defs.len() ==> (g.links[c] == ParentLink::At(p)
            <==> names(g.defs[c], g.defs[p]))
    &&& forall|c: int|
        0 <= c < g.defs.len() && (#[trigger] g.links[c]) is At ==> 0 <= g.links[c]->At_0
            < g.defs.len()
    &&& forall|i: int| 0 <= i < g.defs.len() ==> !conflicted(g.log, #[trigger] g.defs[i])
}

proof fn plain_logs_read_plainly(log: Seq<EventView>, responses: Seq<(Seq<char>, Seq<char>)>)
    requires
        is_plain_log(log),
    ensures
        reads_plainly(lineage_of(log, responses), log),
{
    let g = lineage_of(log, responses);
    let defs = g.defs;
    index_is_ordered(log);
    assert forall|j: int| 0 <= j < log.len() implies defs.contains(#[trigger] log[j]) by {
        every_key_is_indexed(log, j);
        let i = choose|i: int| 0 <= i < defs.len() && key_of(#[trigger] defs[i]) == key_of(log[j]);
        assert(log.contains(defs[i]));
        let k = log.index_of(defs[i]);
        assert(log[k] == defs[i]);
        assert(key_of(log[k]).event == key_of(log[j]).event);
        assert(log[k].event_id == log[j].event_id);
        assert(k == j);
    }
    assert forall|i: int, j: int|
        #![trigger defs[i], defs[j]]
        0 <= i < defs.len() && 0 <= j < defs.len() && defs[i].event_id == defs[j].event_id implies i
        == j by {
        assert(log.contains(defs[i]) && log.contains(defs[j]));
        let a = log.index_of(defs[i]);
        let b = log.index_of(defs[j]);
        assert(log[a] == defs[i] && log[b] == defs[j]);
        assert(a == b);
        same_standing_means_same_key(key_of(defs[i]), key_of(defs[j]));
        same_standing_means_same_key(key_of(defs[j]), key_of(defs[i]));
    }
    assert forall|c: int, p: int|
        #![trigger defs[c], defs[p]]
        0 <= c < defs.len() && 0 <= p < defs.len() implies (g.links[c] == ParentLink::At(p)
        <==> names(defs[c], defs[p])) by {
        plain_parents(log, defs, c, p);
    }
    assert forall|c: int| 0 <= c < defs.len() && (#[trigger] g.links[c]) is At implies 0
        <= g.links[c]->At_0 < defs.len() by {
        parents_stay_with_the_agent(defs, defs[c]);
    }
    assert forall|i: int| 0 <= i < defs.len() implies !conflicted(g.log, #[trigger] defs[i]) by {
        if conflicted(log, defs[i]) {
            let j = choose|j: int| 0 <= j < log.len() && (#[trigger] log[j]).redefines(defs[i]);
            assert(log.contains(defs[i]));
            let k = log.index_of(defs[i]);
            assert(log[k] == defs[i]);
            assert(key_of(log[k]).event == key_of(log[j]).event);
            assert(log[k].event_id == log[j].event_id);
        }
    }
}

proof fn plain_parents(log: Seq<EventView>, defs: Seq<EventView>, c: int, p: int)
    requires
        is_plain_log(log),
        0 <= c < defs.len(),
        0 <= p < defs.len(),
        forall|i: int|
            0 <= i < defs.len() ==> log.contains(#[trigger] defs[i]) && defs[i].event_id is Some,
        forall|i: int, j: int|
            #![trigger defs[i], defs[j]]
            0 <= i < defs.len() && 0 <= j < defs.len() && defs[i].event_id == defs[j].event_id ==> i
                == j,
    ensures
        parent_link(defs, defs[c]) == ParentLink::At(p) <==> names(defs[c], defs[p]),
{
    let e = defs[c];
    assert forall|i: int| 0 <= i < defs.len() implies (#[trigger] defs[i]).agent_id
        == e.agent_id by {
        assert(log.contains(defs[i]) && log.contains(e));
        assert(log[log.index_of(defs[i])] == defs[i] && log[log.index_of(e)] == e);
    }
    if e.parent_id is Some {
        let parent = e.parent_id->0;
        let key = EventKey { agent: e.agent_id, branch: e.branch_id, event: parent };
        if defs[p].event_id == Some(parent) {
            assert(defs[p].is_named(e.agent_id, parent));
            assert(only_named(defs, e.agent_id, parent, p));
        }
    }
}

/// A notice below which nothing but notices stands is a dead end, and nothing
/// else is.
pub proof fn dead_ends_are_notices(
    log: Seq<EventView>,
    responses: Seq<(Seq<char>, Seq<char>)>,
    i: int,
)
    requires
        0 <= i < lineage_of(log, responses).defs.len(),
    ensures
        ({
            let g = lineage_of(log, responses);
            &&& g.dead_end(i) ==> is_notice(g.defs[i])
            &&& is_notice(g.defs[i]) && g.kids(i).len() == 0 ==> g.dead_end(i)
        }),
{
    let g = lineage_of(log, responses);
    if g.dead_end(i) {
        let depth = choose|depth: nat| g.dead_end_within(i, depth);
        assert(g.dead_end_within(i, depth));
    }
    if is_notice(g.defs[i]) && g.kids(i).len() == 0 {
        assert(g.dead_end_within(i, 1));
    }
}

proof fn child_is_kid(g: Lineage, log: Seq<EventView>, p: int, c: EventView) -> (k: int)
    requires
        reads_plainly(g, log),
        0 <= p < g.defs.len(),
        log.contains(c),
        names(c, g.defs[p]),
    ensures
        0 <= k < g.kids(p).len(),
        0 <= g.kids(p)[k] < g.defs.len(),
        g.defs[g.kids(p)[k]] == c,
{
    let j = log.index_of(c);
    assert(log[j] == c);
    assert(g.defs.contains(log[j]));
    let at = g.defs.index_of(c);
    assert(g.defs[at] == c);
    assert(g.links[at] == ParentLink::At(p));
    children_are_kids(g, p, g.size(), at);
    let k = g.kids(p).index_of(at);
    k
}

proof fn kid_is_child(g: Lineage, log: Seq<EventView>, p: int, k: int)
    requires
        reads_plainly(g, log),
        0 <= p < g.defs.len(),
        0 <= k < g.kids(p).len(),
    ensures
        0 <= g.kids(p)[k] < g.defs.len(),
        names(g.defs[g.kids(p)[k]], g.defs[p]),
        has_child(log, g.defs[p]),
{
    kids_are_children(g, p, g.size());
    let c = g.kids(p)[k];
    assert(g.links[c] == ParentLink::At(p));
    assert(log.contains(g.defs[c]));
    let j = log.index_of(g.defs[c]);
    assert(names(log[j], g.defs[p]));
}

/// Every event but notices and the last of the conversation goes on.
pub open spec fn goes_on_to(log: Seq<EventView>, m: int) -> bool {
    &&& 0 <= m < log.len()
    &&& !is_notice(log[m]) && log[m].kind != EventKind::ToolResult
    &&& !has_child(log, log[m])
    &&& forall|e: int|
        0 <= e < log.len() && e != m && !is_notice(#[trigger] log[e]) ==> exists|c: int|
            0 <= c < log.len() && !is_notice(#[trigger] log[c]) && names(log[c], log[e])
}

proof fn talk_is_not_set_aside(g: Lineage, log: Seq<EventView>, m: int, i: int)
    requires
        reads_plainly(g, log),
        g.log == log,
        goes_on_to(log, m),
        0 <= i < g.defs.len(),
        !is_notice(g.defs[i]),
    ensures
        !g.set_aside(i),
        g.defs[i] != log[m] ==> exists|k: int|
            0 <= k < g.kids(i).len() && !is_notice(g.defs[#[trigger] g.kids(i)[k]]) && 0
                <= g.kids(i)[k] < g.defs.len(),
{
    if g.dead_end(i) {
        let depth = choose|depth: nat| g.dead_end_within(i, depth);
        assert(g.dead_end_within(i, depth));
    }
    if g.defs[i] != log[m] {
        assert(log.contains(g.defs[i]));
        let e = log.index_of(g.defs[i]);
        assert(log[e] == g.defs[i]);
        assert(!is_notice(log[e]));
        let c = choose|c: int|
            0 <= c < log.len() && !is_notice(#[trigger] log[c]) && names(log[c], log[e]);
        assert(log.contains(log[c]));
        let k = child_is_kid(g, log, i, log[c]);
        assert(!is_notice(g.defs[g.kids(i)[k]]));
        if g.side_result(i) {
            let kid = g.kids(i)[k];
            assert(g.dead_end(g.kids(i)[k]));
            let depth = choose|depth: nat| g.dead_end_within(kid, depth);
            assert(g.dead_end_within(kid, depth));
        }
    }
}

proof fn one_substantive_leaf(g: Lineage, log: Seq<EventView>, m: int, i: int)
    requires
        reads_plainly(g, log),
        g.log == log,
        g.responses.len() == 0,
        goes_on_to(log, m),
        0 <= i < g.defs.len(),
    ensures
        g.is_substantive_leaf(i) <==> g.defs[i] == log[m],
{
    no_batches(g);
    if !is_notice(g.defs[i]) {
        talk_is_not_set_aside(g, log, m, i);
        if g.defs[i] == log[m] {
            assert(g.kids(i).len() == 0) by {
                if g.kids(i).len() > 0 {
                    kid_is_child(g, log, i, 0);
                }
            }
            assert(!g.orphan_result(i));
            assert(!g.in_side_batch(i));
        } else {
            let k = choose|k: int|
                0 <= k < g.kids(i).len() && !is_notice(g.defs[#[trigger] g.kids(i)[k]]) && 0
                    <= g.kids(i)[k] < g.defs.len();
            unpruned_talk(g, log, m, g.kids(i)[k]);
            assert(!g.pruned(g.kids(i)[k]));
        }
    } else {
        assert(log[m] != g.defs[i]);
        if !g.dead_end(i) {
            assert(exists|k: int|
                0 <= k < g.kids(i).len() && !g.dead_end(#[trigger] g.kids(i)[k])) by {
                if forall|k: int|
                    0 <= k < g.kids(i).len() ==> g.dead_end(#[trigger] g.kids(i)[k]) {
                    g.dead_end_above(i);
                }
            }
            let k = choose|k: int|
                0 <= k < g.kids(i).len() && !g.dead_end(#[trigger] g.kids(i)[k]);
            kid_is_child(g, log, i, k);
            let kid = g.kids(i)[k];
            if is_notice(g.defs[kid]) {
                assert(!g.orphan_result(kid));
                assert(!g.in_side_batch(kid));
                assert(!g.pruned(kid));
            } else {
                unpruned_talk(g, log, m, kid);
            }
            assert(!g.pruned(g.kids(i)[k]));
        }
    }
}

proof fn unpruned_talk(g: Lineage, log: Seq<EventView>, m: int, i: int)
    requires
        reads_plainly(g, log),
        g.log == log,
        g.responses.len() == 0,
        goes_on_to(log, m),
        0 <= i < g.defs.len(),
        !is_notice(g.defs[i]),
    ensures
        !g.pruned(i),
{
    no_batches(g);
    talk_is_not_set_aside(g, log, m, i);
    if g.orphan_result(i) {
        if g.defs[i] != log[m] {
            let k = choose|k: int|
                0 <= k < g.kids(i).len() && !is_notice(g.defs[#[trigger] g.kids(i)[k]]) && 0
                    <= g.kids(i)[k] < g.defs.len();
            talk_is_not_set_aside(g, log, m, g.kids(i)[k]);
            assert(g.set_aside(g.kids(i)[k]));
        }
    }
    assert(!g.in_side_batch(i));
}

/// Without known responses no batch is set aside.
proof fn no_batches(g: Lineage)
    requires
        g.responses.len() == 0,
    ensures
        forall|i: int| !#[trigger] g.in_side_batch(i),
{
    assert forall|i: int| !#[trigger] g.in_side_batch(i) by {
        if g.in_side_batch(i) {
            let (fork, child) = choose|fork: int, child: int|
                0 <= fork < g.size() && #[trigger] g.side_batch(fork, child) && g.subtree(
                    child,
                ).contains(i);
            assert(g.forks_on(fork));
            assert(lookup(g.responses, g.defs[fork].event_id->0) is None);
        }
    }
}

/// The only member of a selection among the first `n` places.
proof fn selection_of_one(g: Lineage, at: int, n: int)
    requires
        0 <= n <= g.size(),
        0 <= at < g.size(),
        forall|i: int| 0 <= i < g.size() ==> (#[trigger] g.is_substantive_leaf(i) <==> i == at),
    ensures
        g.substantive_below(open_target(), n) == (if at < n {
            seq![at]
        } else {
            Seq::empty()
        }),
    decreases n,
{
    if n > 0 {
        selection_of_one(g, at, n - 1);
        assert(g.is_substantive_leaf(n - 1) <==> n - 1 == at);
        assert(g.substantive_below(open_target(), n) =~= if at < n {
            seq![at]
        } else {
            Seq::empty()
        });
    }
}

proof fn childless_is_leaf(g: Lineage, at: int, n: int)
    requires
        0 <= n <= g.size(),
        0 <= at < n,
        g.kids(at).len() == 0,
    ensures
        g.leaves_below(open_target(), n).contains(at),
    decreases n,
{
    if at == n - 1 {
        assert(g.leaves_below(open_target(), n).last() == at);
    } else {
        childless_is_leaf(g, at, n - 1);
        let before = g.leaves_below(open_target(), n - 1);
        let k = before.index_of(at);
        assert(g.leaves_below(open_target(), n)[k] == at);
    }
}

/// A plain log whose parents come first is traced from any of its events to a
/// root.
proof fn plain_traces_end(g: Lineage, log: Seq<EventView>, chain: Seq<EventView>, at: int)
    requires
        is_plain_log(log),
        parents_come_first(log),
        reads_plainly(g, log),
        g.log == log,
        0 <= at < log.len(),
        chain.len() + at < log.len(),
        log.len() <= g.defs.len(),
        forall|k: int|
            0 <= k < chain.len() ==> exists|j: int| at < j < log.len() && log[j] == #[trigger] chain[k],
    ensures
        g.ascend(open_target(), chain, log[at]) is Ok,
    decreases at,
{
    let e = log[at];
    assert(g.defs.contains(log[at]));
    let i = g.defs.index_of(e);
    assert(g.defs[i] == e);
    assert(!conflicted(g.log, g.defs[i]));
    assert forall|k: int| 0 <= k < chain.len() implies (#[trigger] chain[k]).event_id
        != e.event_id by {
        let j = choose|j: int| at < j < log.len() && log[j] == chain[k];
        assert(log[at].event_id != log[j].event_id);
    }
    assert forall|k: int| 0 <= k < chain.len() implies !(#[trigger] chain[k]).has_key_of(e) by {
        let j = choose|j: int| at < j < log.len() && log[j] == chain[k];
        assert(log[at].event_id is Some && log[j].event_id is Some);
        assert(chain[k].event_id != e.event_id);
        if chain[k].has_key_of(e) {
            assert(key_of(chain[k]).event == key_of(e).event);
        }
    }
    assert(g.links[i] == parent_link(g.defs, e));
    match parent_link(g.defs, e) {
        ParentLink::At(p) => {
            assert(g.links[i] is At);
            assert(names(g.defs[i], g.defs[p]));
            assert(log.contains(g.defs[p]));
            let q = log.index_of(g.defs[p]);
            assert(log[q] == g.defs[p]);
            assert(names(log[at], log[q]));
            let next = chain.push(e);
            assert forall|k: int| 0 <= k < next.len() implies exists|j: int|
                q < j < log.len() && log[j] == #[trigger] next[k] by {
                if k < chain.len() {
                    let j = choose|j: int| at < j < log.len() && log[j] == chain[k];
                    assert(log[j] == next[k]);
                } else {
                    assert(log[at] == next[k]);
                }
            }
            plain_traces_end(g, log, next, q);
        },
        ParentLink::Ambiguous => {
            let parent = e.parent_id->0;
            let p = choose|p: int|
                0 <= p < g.defs.len() && (#[trigger] g.defs[p]).is_named(e.agent_id, parent);
            assert(names(g.defs[i], g.defs[p]));
            assert(g.links[i] == ParentLink::At(p));
        },
        _ => {},
    }
}

proof fn as_many_definitions(g: Lineage, log: Seq<EventView>)
    requires
        is_plain_log(log),
        reads_plainly(g, log),
    ensures
        log.len() <= g.defs.len(),
{
    let at = Seq::new(log.len(), |j: int| g.defs.index_of(log[j]));
    assert forall|j: int| 0 <= j < log.len() implies 0 <= (#[trigger] at[j]) < g.defs.len()
        && g.defs[at[j]] == log[j] by {
        assert(g.defs.contains(log[j]));
    }
    assert(at.no_duplicates()) by {
        assert forall|i: int, j: int| 0 <= i < j < at.len() implies at[i] != at[j] by {
            assert(log[i].event_id != log[j].event_id);
        }
    }
    distinct_places_fit(at, g.defs.len());
}

proof fn distinct_places_fit(at: Seq<int>, n: nat)
    requires
        at.no_duplicates(),
        forall|j: int| 0 <= j < at.len() ==> 0 <= #[trigger] at[j] < n,
    ensures
        at.len() <= n,
{
    let all = Set::new(|i: int| 0 <= i < n);
    vstd::set_lib::lemma_int_range(0, n as int);
    assert(all =~= vstd::set_lib::set_int_range(0, n as int));
    at.unique_seq_to_set();
    assert(at.to_set().subset_of(all));
    vstd::set_lib::lemma_len_subset(at.to_set(), all);
}

proof fn the_last_event_is_selected(log: Seq<EventView>, m: int)
    requires
        is_plain_log(log),
        goes_on_to(log, m),
    ensures
        lineage_of(log, Seq::empty()).select(open_target()) == Ok::<EventView, ReasonView>(log[m]),
{
    let g = lineage_of(log, Seq::empty());
    let target = open_target();
    plain_logs_read_plainly(log, Seq::empty());
    assert(g.defs.contains(log[m]));
    let at = g.defs.index_of(log[m]);
    assert forall|i: int| 0 <= i < g.size() implies (#[trigger] g.is_substantive_leaf(i) <==> i
        == at) by {
        one_substantive_leaf(g, log, m, i);
        if g.defs[i] == log[m] {
            assert(g.defs[i].event_id == g.defs[at].event_id);
        }
    }
    selection_of_one(g, at, g.size());
    assert(g.kids(at).len() == 0) by {
        if g.kids(at).len() > 0 {
            kid_is_child(g, log, at, 0);
        }
    }
    childless_is_leaf(g, at, g.size());
    no_first_conflict(g, log);
    let leaves = g.leaves_below(target, g.size());
    if leaves.len() == 1 {
        assert(leaves[0] == at);
    }
}

proof fn no_first_conflict(g: Lineage, log: Seq<EventView>)
    requires
        reads_plainly(g, log),
    ensures
        forall|p: int| !#[trigger] g.is_first_conflict(open_target(), p),
{
    assert forall|p: int| !#[trigger] g.is_first_conflict(open_target(), p) by {
        if g.is_first_conflict(open_target(), p) {
            assert(conflicted(g.log, g.defs[p]));
        }
    }
}

/// The conversation is found: where every event of a plain log but notices and
/// one last event goes on, the branch ends at that last event, however many
/// notices have no child.
pub proof fn the_conversation_is_found(log: Seq<EventView>, m: int)
    requires
        is_plain_log(log),
        parents_come_first(log),
        goes_on_to(log, m),
    ensures
        ({
            let r = lineage_of(log, Seq::empty()).resolution(open_target());
            &&& r is Ok
            &&& r->Ok_0.leaf_event_id == log[m].event_id
            &&& r->Ok_0.events.last() == log[m]
        }),
{
    let g = lineage_of(log, Seq::empty());
    let target = open_target();
    plain_logs_read_plainly(log, Seq::empty());
    as_many_definitions(g, log);
    the_last_event_is_selected(log, m);
    plain_traces_end(g, log, Seq::empty(), m);
    ascent_follows_parents(g, target, Seq::empty(), log[m]);
    let chain = g.ascend(target, Seq::empty(), log[m])->Ok_0.0;
    assert(chain.reverse().last() == chain[0]);
}

/// A tool result that stands beside its own call, or whose call is not in the
/// log.
pub open spec fn is_stray_result(log: Seq<EventView>, e: EventView) -> bool {
    &&& e.kind == EventKind::ToolResult
    &&& e.parent_id is Some
    &&& (forall|p: int| 0 <= p < log.len() ==> !names(e, #[trigger] log[p])) || (exists|p: int|
        0 <= p < log.len() && names(e, #[trigger] log[p]) && log[p].kind
            == EventKind::ToolInvocation && e.tool is Some && log[p].tool is Some
            && e.tool->0.call_id is Some && e.tool->0.call_id == log[p].tool->0.call_id
            && has_other_child(log, log[p], e))
}

/// Does an event other than `e` name `p` as its parent?
pub open spec fn has_other_child(log: Seq<EventView>, p: EventView, e: EventView) -> bool {
    exists|c: int| 0 <= c < log.len() && names(#[trigger] log[c], p) && log[c] != e
}

/// A piece of a response of the assistant that the source names.
pub open spec fn is_known_fragment(e: EventView, responses: Seq<(Seq<char>, Seq<char>)>) -> bool {
    &&& e.role == Role::Assistant
    &&& e.kind == EventKind::Message || e.kind == EventKind::ToolInvocation
    &&& exists|k: int| 0 <= k < responses.len() && Some((#[trigger] responses[k]).0) == e.event_id
}

proof fn known_keys(pairs: Seq<(Seq<char>, Seq<char>)>, key: Seq<char>)
    requires
        lookup(pairs, key) is Some,
    ensures
        exists|k: int| 0 <= k < pairs.len() && (#[trigger] pairs[k]).0 == key,
    decreases pairs.len(),
{
    if pairs[0].0 != key {
        known_keys(pairs.drop_first(), key);
        let k = choose|k: int|
            0 <= k < pairs.drop_first().len() && (#[trigger] pairs.drop_first()[k]).0 == key;
        assert(pairs[k + 1].0 == key);
    }
}

proof fn without_first_verdict(g: Lineage, nodes: Seq<int>, response: Seq<char>, k: int)
    requires
        forall|j: int| !#[trigger] g.is_first_verdict(nodes, response, j),
        0 <= k < nodes.len(),
    ensures
        g.verdict(nodes[k], response) is None,
    decreases k,
{
    assert forall|j: int| 0 <= j < k implies g.verdict(#[trigger] nodes[j], response) is None by {
        without_first_verdict(g, nodes, response, j);
    }
    assert(!g.is_first_verdict(nodes, response, k));
}

proof fn batches_hold_no_turn(g: Lineage, i: int)
    requires
        g.in_side_batch(i),
    ensures
        is_notice(g.defs[i]) || g.defs[i].kind == EventKind::ToolResult || (g.defs[i].role
            == Role::Assistant && (g.defs[i].kind == EventKind::Message || g.defs[i].kind
            == EventKind::ToolInvocation) && lookup(g.responses, g.defs[i].event_id->0) is Some),
{
    let (fork, child) = choose|fork: int, child: int|
        0 <= fork < g.size() && #[trigger] g.side_batch(fork, child) && g.subtree(child).contains(i);
    let response = g.response_of(fork)->0;
    let nodes = g.subtree(child);
    assert(g.batch(child, response, g.defs[fork].call_id()) is Answered);
    assert forall|j: int| !#[trigger] g.is_first_verdict(nodes, response, j) by {
        if g.is_first_verdict(nodes, response, j) {
            let c = choose|k: int| g.is_first_verdict(nodes, response, k);
            assert(g.is_first_verdict(nodes, response, c));
            assert(!(g.verdict(nodes[c], response)->0 is Answered));
        }
    }
    let k = nodes.index_of(i);
    without_first_verdict(g, nodes, response, k);
}

proof fn survivors_are_children(g: Lineage, kids: Seq<int>)
    ensures
        g.surviving(kids) <= kids.len(),
    decreases kids.len(),
{
    if kids.len() > 0 {
        survivors_are_children(g, kids.drop_last());
    }
}

proof fn side_result_counts(g: Lineage, kids: Seq<int>, i: int)
    requires
        kids.contains(i),
        g.side_result(i),
    ensures
        g.side_results(kids) >= 1,
    decreases kids.len(),
{
    let k = kids.index_of(i);
    if k < kids.len() - 1 {
        assert(kids.drop_last()[k] == i);
        side_result_counts(g, kids.drop_last(), i);
    }
}

proof fn substantive_is_selected(g: Lineage, i: int, n: int)
    requires
        0 <= i < n <= g.size(),
        g.is_substantive_leaf(i),
    ensures
        g.substantive_below(open_target(), n).contains(i),
    decreases n,
{
    let list = g.substantive_below(open_target(), n);
    if i == n - 1 {
        assert(list.last() == i);
    } else {
        substantive_is_selected(g, i, n - 1);
        let before = g.substantive_below(open_target(), n - 1);
        let k = before.index_of(i);
        assert(list[k] == i);
    }
}

/// A childless event that was pruned is a notice, a stray result or a piece of
/// a known response.
proof fn pruned_leaves(g: Lineage, log: Seq<EventView>, i: int)
    requires
        reads_plainly(g, log),
        0 <= i < g.size(),
        g.kids(i).len() == 0,
        g.pruned(i),
    ensures
        is_notice(g.defs[i]) || is_stray_result(log, g.defs[i]) || (g.responses.len() > 0 && (
        g.defs[i].kind == EventKind::ToolResult || is_known_fragment(g.defs[i], g.responses))),
{
    let e = g.defs[i];
    if g.dead_end(i) {
        let depth = choose|depth: nat| g.dead_end_within(i, depth);
        assert(g.dead_end_within(i, depth));
    } else if g.filed_beside(i) {
        let p = g.links[i]->At_0;
        assert(g.links[i] is At);
        children_are_kids(g, p, g.size(), i);
        survivors_are_children(g, g.kids(p));
        side_result_counts(g, g.kids(p), i);
        assert(g.kids(p).len() >= 2);
        let a = if g.kids(p)[0] == i {
            1int
        } else {
            0int
        };
        kids_are_children(g, p, g.size());
        kids_are_apart(g, p, g.size());
        let c = g.kids(p)[a];
        assert(c != i);
        assert(g.links[c] == ParentLink::At(p));
        assert(names(g.defs[c], g.defs[p]));
        assert(names(g.defs[i], g.defs[p]));
        assert(g.defs[c] != e) by {
            if g.defs[c] == e {
                assert(g.defs[c].event_id == g.defs[i].event_id);
            }
        }
        assert(log.contains(g.defs[p]) && log.contains(g.defs[c]));
        let at = log.index_of(g.defs[p]);
        let other = log.index_of(g.defs[c]);
        assert(log[other] == g.defs[c]);
        assert(has_other_child(log, log[at], e)) by {
            assert(names(log[other], log[at]) && log[other] != e);
        }
        assert(names(e, log[at]));
    } else if g.orphan_result(i) {
        assert(g.links[i] == ParentLink::Missing);
        assert forall|p: int| 0 <= p < log.len() implies !names(e, #[trigger] log[p]) by {
            assert(g.defs.contains(log[p]));
            let at = g.defs.index_of(log[p]);
            assert(g.defs[at] == log[p]);
            assert(g.links[i] == ParentLink::At(at) <==> names(g.defs[i], g.defs[at]));
        }
    } else {
        batches_hold_no_turn(g, i);
        if g.responses.len() == 0 {
            no_batches(g);
        } else if !is_notice(e) && e.kind != EventKind::ToolResult {
            known_keys(g.responses, e.event_id->0);
        }
    }
}

proof fn kids_are_apart(g: Lineage, p: int, n: int)
    requires
        n <= g.links.len(),
    ensures
        forall|a: int, b: int|
            0 <= a < b < g.kids_below(p, n).len() ==> g.kids_below(p, n)[a] < g.kids_below(p, n)[b],
    decreases n,
{
    if n > 0 {
        kids_are_apart(g, p, n - 1);
        kids_are_children(g, p, n - 1);
    }
}

/// Only notices, stray tool results and pieces of a known response are left
/// aside: whatever else has no child is where the branch ends. So two events
/// of a conversation that both have no child are never resolved to one.
pub proof fn no_turn_is_left_aside(
    log: Seq<EventView>,
    responses: Seq<(Seq<char>, Seq<char>)>,
    j: int,
)
    requires
        is_plain_log(log),
        0 <= j < log.len(),
        !has_child(log, log[j]),
        lineage_of(log, responses).resolution(open_target()) is Ok,
        lineage_of(log, responses).resolution(open_target())->Ok_0.leaf_event_id
            != log[j].event_id,
    ensures
        is_notice(log[j]) || is_stray_result(log, log[j]) || (responses.len() > 0 && (log[j].kind
            == EventKind::ToolResult || is_known_fragment(log[j], responses))),
{
    let g = lineage_of(log, responses);
    let target = open_target();
    plain_logs_read_plainly(log, responses);
    no_first_conflict(g, log);
    assert(g.defs.contains(log[j]));
    let i = g.defs.index_of(log[j]);
    assert(g.defs[i] == log[j]);
    assert(g.kids(i).len() == 0) by {
        if g.kids(i).len() > 0 {
            kid_is_child(g, log, i, 0);
        }
    }
    childless_is_leaf(g, i, g.size());
    let leaves = g.leaves_below(target, g.size());
    assert(leaves.len() > 0);
    if leaves.len() == 1 {
        assert(leaves[0] == i);
    } else if !g.pruned(i) {
        assert(g.is_substantive_leaf(i));
        substantive_is_selected(g, i, g.size());
        assert(g.substantive_below(target, g.size())[0] == i);
    } else {
        pruned_leaves(g, log, i);
    }
}

/// A notice never ends a branch once side branches are removed.
proof fn notices_are_not_substantive(g: Lineage, log: Seq<EventView>, at: int)
    requires
        reads_plainly(g, log),
        g.responses.len() == 0,
        0 <= at < g.size(),
        is_notice(g.defs[at]),
    ensures
        !g.is_substantive_leaf(at),
{
    if g.is_substantive_leaf(at) {
        no_batches(g);
        if forall|k: int| 0 <= k < g.kids(at).len() ==> g.dead_end(#[trigger] g.kids(at)[k]) {
            g.dead_end_above(at);
        }
        let k = choose|k: int| 0 <= k < g.kids(at).len() && !g.dead_end(#[trigger] g.kids(at)[k]);
        let kid = g.kids(at)[k];
        kids_are_children(g, at, g.size());
        assert(g.links[g.kids(at)[k]] == ParentLink::At(at));
        assert(g.pruned(g.kids(at)[k]));
        assert(!g.filed_beside(kid));
        assert(!g.orphan_result(kid));
    }
}

/// A branch ends at a notice only where nothing else could end it: every other
/// event of the log has a child.
pub proof fn notices_end_a_branch_last(log: Seq<EventView>, j: int)
    requires
        is_plain_log(log),
        0 <= j < log.len(),
        lineage_of(log, Seq::empty()).resolution(open_target()) is Ok,
        lineage_of(log, Seq::empty()).resolution(open_target())->Ok_0.leaf_event_id
            != log[j].event_id,
        is_notice(lineage_of(log, Seq::empty()).resolution(open_target())->Ok_0.events.last()),
    ensures
        has_child(log, log[j]),
{
    let g = lineage_of(log, Seq::empty());
    let target = open_target();
    plain_logs_read_plainly(log, Seq::empty());
    no_first_conflict(g, log);
    let leaf = g.select(target)->Ok_0;
    let chain = g.ascend(target, Seq::empty(), leaf)->Ok_0.0;
    ascent_follows_parents(g, target, Seq::empty(), leaf);
    assert(chain.reverse().last() == chain[0]);
    if !has_child(log, log[j]) {
        assert(g.defs.contains(log[j]));
        let i = g.defs.index_of(log[j]);
        assert(g.defs[i] == log[j]);
        assert(g.kids(i).len() == 0) by {
            if g.kids(i).len() > 0 {
                kid_is_child(g, log, i, 0);
            }
        }
        childless_is_leaf(g, i, g.size());
        let leaves = g.leaves_below(target, g.size());
        if leaves.len() == 1 {
            assert(leaves[0] == i);
        } else {
            let list = g.substantive_below(target, g.size());
            assert(list.len() == 1);
            selected_is_substantive(g, g.size(), 0);
            notices_are_not_substantive(g, log, list[0]);
        }
    }
}

proof fn selected_is_substantive(g: Lineage, n: int, k: int)
    requires
        0 <= n <= g.size(),
        0 <= k < g.substantive_below(open_target(), n).len(),
    ensures
        0 <= g.substantive_below(open_target(), n)[k] < n,
        g.is_substantive_leaf(g.substantive_below(open_target(), n)[k]),
    decreases n,
{
    if n > 0 && k < g.substantive_below(open_target(), n - 1).len() {
        selected_is_substantive(g, n - 1, k);
    }
}

/// Every event of a resolved branch is one of the log.
proof fn branch_events_are_of_the_log(
    log: Seq<EventView>,
    responses: Seq<(Seq<char>, Seq<char>)>,
    target: TargetView,
    k: int,
)
    requires
        lineage_of(log, responses).resolution(target) is Ok,
        0 <= k < lineage_of(log, responses).resolution(target)->Ok_0.events.len(),
    ensures
        log.contains(lineage_of(log, responses).resolution(target)->Ok_0.events[k]),
{
    let g = lineage_of(log, responses);
    let events = g.resolution(target)->Ok_0.events;
    resolved_branch_is_one_chain(log, responses, target);
    index_is_ordered(log);
    if k < events.len() - 1 {
        let e = events[k + 1];
        assert(parent_link(g.defs, e) is At && g.defs[parent_link(g.defs, e)->At_0]
            == events[k]);
        parents_stay_with_the_agent(g.defs, e);
        assert(log.contains(g.defs[parent_link(g.defs, e)->At_0]));
    }
}

/// Is there an event of this agent with this identity?
pub open spec fn knows(log: Seq<EventView>, agent: Option<Seq<char>>, id: Option<Seq<char>>) -> bool {
    exists|j: int|
        0 <= j < log.len() && (#[trigger] log[j]).agent_id == agent && log[j].event_id == id
}

/// The event at `k` names the one before it as its parent, and belongs to the
/// same agent.
pub open spec fn continues_at(events: Seq<EventView>, k: int) -> bool {
    &&& events[k].parent_id is Some
    &&& events[k].parent_id == events[k - 1].event_id
    &&& events[k].agent_id == events[k - 1].agent_id
}

/// The branch runs from a root of the log to its leaf.
pub open spec fn runs_from_root_to_leaf(
    branch: BranchView,
    log: Seq<EventView>,
    target: TargetView,
) -> bool {
    let events = branch.events;
    &&& events.len() > 0
    &&& events.last().event_id == branch.leaf_event_id
    &&& target.event is Some ==> branch.leaf_event_id == target.event
    &&& target.agent is Some ==> events.last().agent_id == target.agent
    &&& target.branch is Some ==> events.last().branch_id == target.branch
    &&& forall|k: int| 0 <= k < events.len() ==> log.contains(#[trigger] events[k])
    &&& forall|k: int| 0 < k < events.len() ==> #[trigger] continues_at(events, k)
    &&& events[0].parent_id is None ==> !branch.ancestor_chain_truncated
    &&& events[0].parent_id is Some ==> branch.ancestor_chain_truncated && !knows(
        log,
        events[0].agent_id,
        events[0].parent_id,
    )
}

/// A resolved branch runs from a root to its leaf: its events are of the log,
/// each but the first names the one before it as its parent, and belongs to
/// the same agent; the first names no parent, or one that the log does not
/// hold, and only then is the branch cut short. The leaf is the one asked for.
pub proof fn branches_run_from_root_to_leaf(
    log: Seq<EventView>,
    responses: Seq<(Seq<char>, Seq<char>)>,
    target: TargetView,
)
    requires
        lineage_of(log, responses).resolution(target) is Ok,
    ensures
        runs_from_root_to_leaf(lineage_of(log, responses).resolution(target)->Ok_0, log, target),
{
    let branch = lineage_of(log, responses).resolution(target)->Ok_0;
    let events = branch.events;
    branch_ends(log, responses, target);
    assert forall|k: int| 0 <= k < events.len() implies log.contains(#[trigger] events[k]) by {
        branch_events_are_of_the_log(log, responses, target, k);
    }
    assert forall|k: int| 0 < k < events.len() implies #[trigger] continues_at(events, k) by {
        branch_goes_on(log, responses, target, k);
    }
}

proof fn branch_ends(
    log: Seq<EventView>,
    responses: Seq<(Seq<char>, Seq<char>)>,
    target: TargetView,
)
    requires
        lineage_of(log, responses).resolution(target) is Ok,
    ensures
        ({
            let branch = lineage_of(log, responses).resolution(target)->Ok_0;
            let events = branch.events;
            &&& events.len() > 0
            &&& events.last().event_id == branch.leaf_event_id
            &&& target.event is Some ==> branch.leaf_event_id == target.event
            &&& target.admits(events.last())
            &&& events[0].parent_id is None ==> !branch.ancestor_chain_truncated
            &&& events[0].parent_id is Some ==> branch.ancestor_chain_truncated && !knows(
                log,
                events[0].agent_id,
                events[0].parent_id,
            )
        }),
{
    resolved_branch_is_one_chain(log, responses, target);
    roots_have_no_parent(
        log,
        responses,
        lineage_of(log, responses).resolution(target)->Ok_0.events[0],
    );
}

proof fn branch_goes_on(
    log: Seq<EventView>,
    responses: Seq<(Seq<char>, Seq<char>)>,
    target: TargetView,
    k: int,
)
    requires
        lineage_of(log, responses).resolution(target) is Ok,
        0 < k < lineage_of(log, responses).resolution(target)->Ok_0.events.len(),
    ensures
        continues_at(lineage_of(log, responses).resolution(target)->Ok_0.events, k),
{
    let events = lineage_of(log, responses).resolution(target)->Ok_0.events;
    resolved_branch_is_one_chain(log, responses, target);
    links_name_parents(log, responses, events[k - 1], events[k]);
}

proof fn links_name_parents(
    log: Seq<EventView>,
    responses: Seq<(Seq<char>, Seq<char>)>,
    parent: EventView,
    e: EventView,
)
    requires
        is_parent(lineage_of(log, responses), parent, e),
    ensures
        e.parent_id is Some,
        e.parent_id == parent.event_id,
        e.agent_id == parent.agent_id,
{
    let defs = lineage_of(log, responses).defs;
    index_is_ordered(log);
    parents_stay_with_the_agent(defs, e);
    parents_are_named(defs, e);
}

proof fn roots_have_no_parent(
    log: Seq<EventView>,
    responses: Seq<(Seq<char>, Seq<char>)>,
    root: EventView,
)
    ensures
        ({
            let link = parent_link(lineage_of(log, responses).defs, root);
            &&& link is Root <==> root.parent_id is None
            &&& link is Missing ==> !knows(log, root.agent_id, root.parent_id)
        }),
{
    let defs = lineage_of(log, responses).defs;
    if parent_link(defs, root) is Missing && knows(log, root.agent_id, root.parent_id) {
        index_is_ordered(log);
        let j = choose|j: int|
            0 <= j < log.len() && (#[trigger] log[j]).agent_id == root.agent_id && log[j].event_id
                == root.parent_id;
        every_key_is_indexed(log, j);
        let i = choose|i: int| 0 <= i < defs.len() && key_of(#[trigger] defs[i]) == key_of(log[j]);
        assert(defs[i].event_id is Some);
        assert(defs[i].is_named(root.agent_id, root.parent_id->0));
    }
}

proof fn parents_are_named(defs: Seq<EventView>, e: EventView)
    requires
        parent_link(defs, e) is At,
        forall|i: int| 0 <= i < defs.len() ==> (#[trigger] defs[i]).event_id is Some,
    ensures
        e.parent_id is Some,
        defs[parent_link(defs, e)->At_0].event_id == e.parent_id,
{
    let p = parent_link(defs, e)->At_0;
    assert(defs[p].event_id is Some);
}

/// The counts of a branch are those of its events: one for each compaction,
/// and one for each task boundary.
pub proof fn branches_count_their_events(
    log: Seq<EventView>,
    responses: Seq<(Seq<char>, Seq<char>)>,
    target: TargetView,
)
    requires
        lineage_of(log, responses).resolution(target) is Ok,
    ensures
        ({
            let branch = lineage_of(log, responses).resolution(target)->Ok_0;
            &&& branch.compaction_count == branch.events.filter(
                |e: EventView| e.kind == EventKind::Compaction,
            ).len()
            &&& branch.task_boundary_count == branch.events.filter(
                |e: EventView| e.kind == EventKind::TaskBoundary,
            ).len()
        }),
{
    let g = lineage_of(log, responses);
    let leaf = g.select(target)->Ok_0;
    let chain = g.ascend(target, Seq::empty(), leaf)->Ok_0.0;
    counts_are_filters(chain, EventKind::Compaction);
    counts_are_filters(chain, EventKind::TaskBoundary);
    assert((|e: EventView| e.kind == EventKind::Compaction) =~= (|e: EventView|
        e.kind == EventKind::Compaction));
}

proof fn counts_are_filters(chain: Seq<EventView>, kind: EventKind)
    ensures
        count_kind(chain, kind) == chain.reverse().filter(|e: EventView| e.kind == kind).len(),
    decreases chain.len(),
{
    reveal(Seq::filter);
    let keep = |e: EventView| e.kind == kind;
    let back = chain.reverse();
    if chain.len() > 0 {
        counts_are_filters(chain.drop_last(), kind);
        assert(back =~= seq![chain.last()] + chain.drop_last().reverse());
        filter_of_front(chain.last(), chain.drop_last().reverse(), keep);
    }
}

proof fn filter_of_front(first: EventView, rest: Seq<EventView>, keep: spec_fn(EventView) -> bool)
    ensures
        (seq![first] + rest).filter(keep).len() == rest.filter(keep).len() + if keep(first) {
            1nat
        } else {
            0nat
        },
    decreases rest.len(),
{
    reveal(Seq::filter);
    let whole = seq![first] + rest;
    if rest.len() == 0 {
        assert(whole.drop_last() =~= Seq::empty());
        assert(whole.drop_last().filter(keep).len() == 0);
    } else {
        filter_of_front(first, rest.drop_last(), keep);
        assert(whole.drop_last() =~= seq![first] + rest.drop_last());
    }
}

/// The branch of a resolution is the one asked for, else that of the last of
/// its events that names one.
pub proof fn branches_are_named_by_their_last_event(
    log: Seq<EventView>,
    responses: Seq<(Seq<char>, Seq<char>)>,
    target: TargetView,
)
    requires
        lineage_of(log, responses).resolution(target) is Ok,
    ensures
        ({
            let branch = lineage_of(log, responses).resolution(target)->Ok_0;
            let events = branch.events;
            &&& target.branch is Some ==> branch.branch_id == target.branch
            &&& target.branch is None && branch.branch_id is None ==> forall|k: int|
                0 <= k < events.len() ==> (#[trigger] events[k]).branch_id is None
            &&& target.branch is None && branch.branch_id is Some ==> exists|k: int|
                0 <= k < events.len() && (#[trigger] events[k]).branch_id == branch.branch_id
                    && forall|j: int|
                    k < j < events.len() ==> (#[trigger] events[j]).branch_id is None
        }),
{
    let g = lineage_of(log, responses);
    let leaf = g.select(target)->Ok_0;
    let chain = g.ascend(target, Seq::empty(), leaf)->Ok_0.0;
    let events = chain.reverse();
    let n = chain.len() as int;
    if target.branch is None {
        let m = first_branch_place(chain);
        assert forall|k: int| 0 <= k < n implies (#[trigger] events[k]) == chain[n - 1 - k] by {}
        if first_branch(chain) is Some {
            assert(events[n - 1 - m] == chain[m]);
        }
    }
}

proof fn first_branch_place(chain: Seq<EventView>) -> (m: int)
    ensures
        0 <= m <= chain.len(),
        forall|k: int| 0 <= k < m ==> (#[trigger] chain[k]).branch_id is None,
        first_branch(chain) is Some <==> m < chain.len(),
        m < chain.len() ==> chain[m].branch_id == first_branch(chain),
    decreases chain.len(),
{
    if chain.len() == 0 || chain[0].branch_id is Some {
        0
    } else {
        let rest = chain.drop_first();
        let m = first_branch_place(rest);
        assert forall|k: int| 0 <= k < m + 1 implies (#[trigger] chain[k]).branch_id is None by {
            if k > 0 {
                assert(rest[k - 1] == chain[k]);
            }
        }
        if m < rest.len() {
            assert(rest[m] == chain[m + 1]);
        }
        m + 1
    }
}

/// An event that is asked for is found by its identity: it is the leaf where
/// the log holds one such event, and not found where it holds none.
pub proof fn a_named_event_is_the_leaf(log: Seq<EventView>, id: Seq<char>)
    requires
        log.len() > 0,
        is_plain_log(log),
    ensures
        ({
            let target = TargetView { event: Some(id), branch: None, agent: None };
            let r = lineage_of(log, Seq::empty()).resolution(target);
            &&& (forall|j: int| 0 <= j < log.len() ==> (#[trigger] log[j]).event_id != Some(id))
                ==> r == Err::<BranchView, ReasonView>(ReasonView::TargetEventNotFound { target: id })
            &&& r is Ok ==> r->Ok_0.events.last().event_id == Some(id)
            &&& parents_come_first(log) && (exists|j: int|
                0 <= j < log.len() && (#[trigger] log[j]).event_id == Some(id)) ==> r is Ok
        }),
{
    let g = lineage_of(log, Seq::empty());
    let target = TargetView { event: Some(id), branch: None, agent: None };
    plain_logs_read_plainly(log, Seq::empty());
    as_many_definitions(g, log);
    if g.resolution(target) is Ok {
        branches_run_from_root_to_leaf(log, Seq::empty(), target);
    }
    if exists|j: int| 0 <= j < log.len() && (#[trigger] log[j]).event_id == Some(id) {
        let j = choose|j: int| 0 <= j < log.len() && (#[trigger] log[j]).event_id == Some(id);
        assert(g.defs.contains(log[j]));
        let i = g.defs.index_of(log[j]);
        assert(g.is_named_target(target, i));
        assert forall|p: int, q: int|
            #[trigger] g.is_named_target(target, p) && #[trigger] g.is_named_target(
                target,
                q,
            ) implies p == q by {
            assert(g.defs[p].event_id == g.defs[q].event_id);
        }
        let p = choose|p: int| g.is_named_target(target, p);
        assert(p == i);
        if parents_come_first(log) {
            plain_traces_end(g, log, Seq::empty(), j);
            same_ascent(g, target, Seq::empty(), log[j]);
        }
    } else {
        assert forall|p: int| !#[trigger] g.is_named_target(target, p) by {
            if g.is_named_target(target, p) {
                assert(log.contains(g.defs[p]));
                let j = log.index_of(g.defs[p]);
                assert(log[j].event_id == Some(id));
            }
        }
    }
}

/// Which event is asked for does not matter on the way up.
proof fn same_ascent(g: Lineage, target: TargetView, chain: Seq<EventView>, e: EventView)
    requires
        target.branch is None,
    ensures
        g.ascend(target, chain, e) == g.ascend(open_target(), chain, e),
    decreases g.size() + 1 - chain.len(),
{
    if chain.len() <= g.size() {
        if let ParentLink::At(p) = parent_link(g.defs, e) {
            same_ascent(g, target, chain.push(e), g.defs[p]);
        }
    }
}

/// An empty log has no branch, and two different events under one identity are
/// never resolved.
pub proof fn nothing_is_made_up(log: Seq<EventView>, i: int, j: int)
    ensures
        log.len() == 0 ==> lineage_of(log, Seq::empty()).resolution(open_target()) == Err::<
            BranchView,
            ReasonView,
        >(ReasonView::EmptyHistory),
        0 <= i < log.len() && 0 <= j < log.len() && log[i].event_id is Some && log[i].event_id
            == log[j].event_id && log[i].agent_id == log[j].agent_id && log[i].branch_id
            == log[j].branch_id && log[i] != log[j] ==> lineage_of(log, Seq::empty()).resolution(
            open_target(),
        ) is Err,
{
    let g = lineage_of(log, Seq::empty());
    if 0 <= i < log.len() && 0 <= j < log.len() && log[i].event_id is Some && log[i].event_id
        == log[j].event_id && log[i].agent_id == log[j].agent_id && log[i].branch_id
        == log[j].branch_id && log[i] != log[j] {
        every_key_is_indexed(log, i);
        index_is_ordered(log);
        let p = choose|p: int|
            0 <= p < g.defs.len() && key_of(#[trigger] g.defs[p]) == key_of(log[i]);
        let d = g.defs[p];
        if log[i] != d {
            assert(log[i].redefines(d));
        } else {
            assert(log[j].redefines(d));
        }
        assert(g.conflicts_in_scope(open_target(), p));
        first_conflict_exists(g, p);
    }
}

proof fn first_conflict_exists(g: Lineage, p: int)
    requires
        0 <= p < g.size(),
        g.conflicts_in_scope(open_target(), p),
    ensures
        exists|q: int| g.is_first_conflict(open_target(), q),
    decreases p,
{
    if exists|q: int| 0 <= q < p && #[trigger] g.conflicts_in_scope(open_target(), q) {
        let q = choose|q: int| 0 <= q < p && #[trigger] g.conflicts_in_scope(open_target(), q);
        first_conflict_exists(g, q);
    } else {
        assert(g.is_first_conflict(open_target(), p));
    }
}

/// Two turns that nothing follows are a fork, and a fork is not decided: no
/// branch is chosen where a conversation goes on in two places.
pub proof fn forks_are_not_decided(log: Seq<EventView>, i: int, j: int)
    requires
        is_plain_log(log),
        0 <= i < log.len(),
        0 <= j < log.len(),
        log[i].event_id != log[j].event_id,
        !has_child(log, log[i]),
        !has_child(log, log[j]),
        log[i].role == Role::User || log[i].role == Role::Assistant,
        log[j].role == Role::User || log[j].role == Role::Assistant,
        log[i].kind == EventKind::Message,
        log[j].kind == EventKind::Message,
    ensures
        lineage_of(log, Seq::empty()).resolution(open_target()) is Err,
{
    let none = Seq::<(Seq<char>, Seq<char>)>::empty();
    let r = lineage_of(log, none).resolution(open_target());
    if r is Ok {
        if r->Ok_0.leaf_event_id != log[i].event_id {
            no_turn_is_left_aside(log, none, i);
        } else {
            no_turn_is_left_aside(log, none, j);
        }
    }
}

} // verus!
