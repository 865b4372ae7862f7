//! What holds of every resolution.
use crate::context::branch::lineage::{
    byte_standing, definitions, key_of, key_standing, lineage_of, optional_standing, parent_link, same_standing_means_same_key, text_standing, with_definition,
    EventKey, Lineage, ParentLink, Standing,
};
use crate::context::branch::TargetView;
use crate::context::EventView;
use vstd::prelude::*;
use vstd::utf8::*;

verus! {

pub proof fn bytes_reverse(a: Seq<u8>, b: Seq<u8>)
    ensures
        byte_standing(a, b) is Before <==> byte_standing(b, a) is After,
    decreases a.len(),
{
    if a.len() > 0 && b.len() > 0 && a[0] == b[0] {
        bytes_reverse(a.drop_first(), b.drop_first());
    }
}

pub proof fn bytes_transitive(a: Seq<u8>, b: Seq<u8>, c: Seq<u8>)
    requires
        byte_standing(a, b) is Before,
        byte_standing(b, c) is Before,
    ensures
        byte_standing(a, c) is Before,
    decreases a.len(),
{
    if a.len() > 0 && b.len() > 0 && c.len() > 0 && a[0] == b[0] && b[0] == c[0] {
        bytes_transitive(a.drop_first(), b.drop_first(), c.drop_first());
    }
}

proof fn optional_reverse(a: Option<Seq<char>>, b: Option<Seq<char>>)
    ensures
        optional_standing(a, b) is Before <==> optional_standing(b, a) is After,
{
    if a is Some && b is Some {
        bytes_reverse(encode_utf8(a->0), encode_utf8(b->0));
    }
}

proof fn optional_transitive(a: Option<Seq<char>>, b: Option<Seq<char>>, c: Option<Seq<char>>)
    requires
        optional_standing(a, b) is Before,
        optional_standing(b, c) is Before,
    ensures
        optional_standing(a, c) is Before,
{
    if a is Some && b is Some && c is Some {
        bytes_transitive(encode_utf8(a->0), encode_utf8(b->0), encode_utf8(c->0));
    }
}

/// A key that only says `agent` or only says `branch`, to compare one part.
spec fn part(text: Option<Seq<char>>) -> EventKey {
    EventKey { agent: text, branch: None, event: Seq::empty() }
}

proof fn optional_same(a: Option<Seq<char>>, b: Option<Seq<char>>)
    ensures
        optional_standing(a, b) is Same <==> a == b,
{
    same_standing_means_same_key(part(a), part(b));
    same_standing_means_same_key(part(None), part(None));
    assert(text_standing(Seq::empty(), Seq::empty()) is Same);
}

/// Of two keys either one comes first, or they are the same.
pub proof fn key_order_reverses(a: EventKey, b: EventKey)
    ensures
        key_standing(a, b) is Before <==> key_standing(b, a) is After,
        key_standing(a, b) is Same <==> key_standing(b, a) is Same,
{
    optional_reverse(a.agent, b.agent);
    optional_reverse(b.agent, a.agent);
    optional_reverse(a.branch, b.branch);
    optional_reverse(b.branch, a.branch);
    bytes_reverse(encode_utf8(a.event), encode_utf8(b.event));
    bytes_reverse(encode_utf8(b.event), encode_utf8(a.event));
    same_standing_means_same_key(a, b);
    same_standing_means_same_key(b, a);
}

/// The order of keys is transitive.
pub proof fn key_order_is_transitive(a: EventKey, b: EventKey, c: EventKey)
    requires
        key_standing(a, b) is Before,
        key_standing(b, c) is Before,
    ensures
        key_standing(a, c) is Before,
{
    optional_same(a.agent, b.agent);
    optional_same(b.agent, c.agent);
    optional_same(a.agent, c.agent);
    optional_same(a.branch, b.branch);
    optional_same(b.branch, c.branch);
    optional_same(a.branch, c.branch);
    if optional_standing(a.agent, b.agent) is Before && optional_standing(b.agent, c.agent) is Before {
        optional_transitive(a.agent, b.agent, c.agent);
    }
    if a.agent == b.agent && b.agent == c.agent {
        if optional_standing(a.branch, b.branch) is Before && optional_standing(
            b.branch,
            c.branch,
        ) is Before {
            optional_transitive(a.branch, b.branch, c.branch);
        }
        if a.branch == b.branch && b.branch == c.branch {
            bytes_transitive(encode_utf8(a.event), encode_utf8(b.event), encode_utf8(c.event));
        }
    }
}

/// Each definition comes before all later ones.
pub open spec fn in_key_order(defs: Seq<EventView>) -> bool {
    forall|i: int, j: int|
        0 <= i < j < defs.len() ==> key_standing(key_of(#[trigger] defs[i]), key_of(#[trigger] defs[j])) is Before
}

proof fn insertion_keeps_order(defs: Seq<EventView>, e: EventView)
    requires
        in_key_order(defs),
    ensures
        in_key_order(with_definition(defs, e)),
        forall|i: int|
            0 <= i < with_definition(defs, e).len() ==> (#[trigger] with_definition(defs, e)[i]) == e
                || defs.contains(with_definition(defs, e)[i]),
    decreases defs.len(),
{
    let added = with_definition(defs, e);
    if defs.len() > 0 {
        let rest = defs.drop_first();
        let standing = key_standing(key_of(e), key_of(defs[0]));
        key_order_reverses(key_of(e), key_of(defs[0]));
        if standing is Before {
            assert forall|i: int, j: int| 0 <= i < j < added.len() implies key_standing(
                key_of(#[trigger] added[i]),
                key_of(#[trigger] added[j]),
            ) is Before by {
                assert(added[j] == defs[j - 1]);
                if i == 0 {
                    if j > 1 {
                        assert(key_standing(key_of(defs[0]), key_of(defs[j - 1])) is Before);
                        key_order_is_transitive(key_of(e), key_of(defs[0]), key_of(defs[j - 1]));
                    }
                } else {
                    assert(added[i] == defs[i - 1]);
                }
            }
            assert forall|i: int| 0 <= i < added.len() implies (#[trigger] added[i]) == e
                || defs.contains(added[i]) by {
                if i > 0 {
                    assert(added[i] == defs[i - 1]);
                }
            }
        } else if standing is After {
            assert forall|i: int, j: int| 0 <= i < j < rest.len() implies key_standing(
                key_of(#[trigger] rest[i]),
                key_of(#[trigger] rest[j]),
            ) is Before by {
                assert(rest[i] == defs[i + 1]);
                assert(rest[j] == defs[j + 1]);
            }
            insertion_keeps_order(rest, e);
            let tail = with_definition(rest, e);
            assert forall|i: int| 0 <= i < tail.len() implies key_standing(
                key_of(defs[0]),
                key_of(#[trigger] tail[i]),
            ) is Before by {
                if tail[i] != e {
                    assert(rest.contains(tail[i]));
                    let k = rest.index_of(tail[i]);
                    assert(rest[k] == defs[k + 1]);
                    assert(key_standing(key_of(defs[0]), key_of(defs[k + 1])) is Before);
                }
            }
            assert forall|i: int, j: int| 0 <= i < j < added.len() implies key_standing(
                key_of(#[trigger] added[i]),
                key_of(#[trigger] added[j]),
            ) is Before by {
                assert(added[j] == tail[j - 1]);
                if i > 0 {
                    assert(added[i] == tail[i - 1]);
                }
            }
            assert forall|i: int| 0 <= i < added.len() implies (#[trigger] added[i]) == e
                || defs.contains(added[i]) by {
                if i == 0 {
                    assert(defs[0] == added[0]);
                } else {
                    assert(added[i] == tail[i - 1]);
                    if tail[i - 1] != e {
                        let k = rest.index_of(tail[i - 1]);
                        assert(defs[k + 1] == added[i]);
                    }
                }
            }
        }
    }
}

/// The index of a log holds events of the log only, each key once, in key
/// order.
pub proof fn index_is_ordered(log: Seq<EventView>)
    ensures
        in_key_order(definitions(log)),
        forall|i: int|
            0 <= i < definitions(log).len() ==> log.contains(#[trigger] definitions(log)[i])
                && definitions(log)[i].event_id is Some,
    decreases log.len(),
{
    if log.len() > 0 {
        let before = log.drop_last();
        index_is_ordered(before);
        insertion_keeps_order(definitions(before), log.last());
        assert forall|i: int| 0 <= i < definitions(log).len() implies log.contains(
            #[trigger] definitions(log)[i],
        ) && definitions(log)[i].event_id is Some by {
            let d = definitions(log)[i];
            if log.last().event_id is Some && d == log.last() {
                assert(log[log.len() - 1] == d);
            } else {
                assert(definitions(before).contains(d));
                let k = definitions(before).index_of(d);
                assert(before.contains(definitions(before)[k]));
                let m = before.index_of(d);
                assert(log[m] == d);
            }
        }
    }
}

proof fn known_key_changes_nothing(defs: Seq<EventView>, e: EventView, i: int)
    requires
        in_key_order(defs),
        0 <= i < defs.len(),
        key_of(defs[i]) == key_of(e),
    ensures
        with_definition(defs, e) == defs,
    decreases defs.len(),
{
    same_standing_means_same_key(key_of(e), key_of(defs[0]));
    if i > 0 {
        let rest = defs.drop_first();
        assert(key_standing(key_of(defs[0]), key_of(defs[i])) is Before);
        key_order_reverses(key_of(defs[0]), key_of(defs[i]));
        assert forall|a: int, b: int| 0 <= a < b < rest.len() implies key_standing(
            key_of(#[trigger] rest[a]),
            key_of(#[trigger] rest[b]),
        ) is Before by {
            assert(rest[a] == defs[a + 1]);
            assert(rest[b] == defs[b + 1]);
        }
        assert(rest[i - 1] == defs[i]);
        known_key_changes_nothing(rest, e, i - 1);
        assert(seq![defs[0]] + rest =~= defs);
    }
}

pub(crate) proof fn every_key_is_indexed(log: Seq<EventView>, j: int)
    requires
        0 <= j < log.len(),
        log[j].event_id is Some,
    ensures
        exists|i: int|
            0 <= i < definitions(log).len() && key_of(#[trigger] definitions(log)[i]) == key_of(
                log[j],
            ),
    decreases log.len(),
{
    let before = log.drop_last();
    if j == log.len() - 1 {
        inserted_key_is_there(definitions(before), log[j]);
    } else {
        every_key_is_indexed(before, j);
        let i = choose|i: int|
            0 <= i < definitions(before).len() && key_of(#[trigger] definitions(before)[i])
                == key_of(before[j]);
        assert(before[j] == log[j]);
        if log.last().event_id is Some {
            insertion_keeps_keys(definitions(before), log.last(), i);
            let added = with_definition(definitions(before), log.last());
            let k = choose|k: int|
                0 <= k < added.len() && key_of(#[trigger] added[k]) == key_of(
                    definitions(before)[i],
                );
            assert(key_of(definitions(log)[k]) == key_of(log[j]));
        } else {
            assert(key_of(definitions(log)[i]) == key_of(log[j]));
        }
    }
}

proof fn inserted_key_is_there(defs: Seq<EventView>, e: EventView)
    ensures
        exists|i: int|
            0 <= i < with_definition(defs, e).len() && key_of(#[trigger] with_definition(defs, e)[i])
                == key_of(e),
    decreases defs.len(),
{
    let added = with_definition(defs, e);
    if defs.len() == 0 {
        assert(added[0] == e);
    } else {
        same_standing_means_same_key(key_of(e), key_of(defs[0]));
        match key_standing(key_of(e), key_of(defs[0])) {
            Standing::Before => {
                assert(added[0] == e);
            },
            Standing::Same => {
                assert(added[0] == defs[0]);
            },
            Standing::After => {
                let tail = with_definition(defs.drop_first(), e);
                inserted_key_is_there(defs.drop_first(), e);
                let i = choose|i: int|
                    0 <= i < tail.len() && key_of(#[trigger] tail[i]) == key_of(e);
                assert(added[i + 1] == tail[i]);
            },
        }
    }
}

proof fn insertion_keeps_keys(defs: Seq<EventView>, e: EventView, i: int)
    requires
        0 <= i < defs.len(),
    ensures
        exists|k: int|
            0 <= k < with_definition(defs, e).len() && key_of(#[trigger] with_definition(defs, e)[k])
                == key_of(defs[i]),
    decreases defs.len(),
{
    let added = with_definition(defs, e);
    match key_standing(key_of(e), key_of(defs[0])) {
        Standing::Before => {
            assert(added[i + 1] == defs[i]);
        },
        Standing::Same => {
            assert(added[i] == defs[i]);
        },
        Standing::After => {
            if i == 0 {
                assert(added[0] == defs[0]);
            } else {
                let rest = defs.drop_first();
                let tail = with_definition(rest, e);
                insertion_keeps_keys(rest, e, i - 1);
                let k = choose|k: int|
                    0 <= k < tail.len() && key_of(#[trigger] tail[k]) == key_of(rest[i - 1]);
                assert(added[k + 1] == tail[k]);
            }
        },
    }
}

/// Redelivering an event of the log leaves its index as it is: the same event
/// again is no other definition.
pub proof fn redelivery_adds_no_definition(log: Seq<EventView>, j: int)
    requires
        0 <= j < log.len(),
        log[j].event_id is Some,
    ensures
        definitions(log.push(log[j])) == definitions(log),
{
    let again = log.push(log[j]);
    assert(again.drop_last() =~= log);
    every_key_is_indexed(log, j);
    index_is_ordered(log);
    let i = choose|i: int|
        0 <= i < definitions(log).len() && key_of(#[trigger] definitions(log)[i]) == key_of(log[j]);
    known_key_changes_nothing(definitions(log), log[j], i);
}

/// A parent is a definition of the same agent.
pub proof fn parents_stay_with_the_agent(defs: Seq<EventView>, e: EventView)
    ensures
        parent_link(defs, e) is At ==> {
            let p = parent_link(defs, e)->At_0;
            0 <= p < defs.len() && defs[p].agent_id == e.agent_id
        },
{
}

/// `chain`, leaf first, follows parent links from `from` on.
pub open spec fn follows_parents(g: Lineage, chain: Seq<EventView>, from: int) -> bool {
    forall|k: int|
        from <= k < chain.len() - 1 ==> {
            &&& parent_link(g.defs, #[trigger] chain[k]) is At
            &&& g.defs[parent_link(g.defs, chain[k])->At_0] == chain[k + 1]
        }
}

pub(crate) proof fn ascent_follows_parents(
    g: Lineage,
    target: TargetView,
    chain: Seq<EventView>,
    current: EventView,
)
    requires
        g.ascend(target, chain, current) is Ok,
    ensures
        ({
            let (full, truncated) = g.ascend(target, chain, current)->Ok_0;
            &&& full.len() > chain.len()
            &&& full[chain.len() as int] == current
            &&& forall|k: int| 0 <= k < chain.len() ==> (#[trigger] full[k]) == chain[k]
            &&& follows_parents(g, full, chain.len() as int)
            &&& truncated == (parent_link(g.defs, full.last()) is Missing)
            &&& truncated || parent_link(g.defs, full.last()) is Root
            &&& forall|i: int, j: int|
                #![trigger full[i], full[j]]
                0 <= i < j < full.len() && chain.len() <= j && full[j].event_id is Some
                    ==> full[i].event_id != full[j].event_id
        }),
    decreases g.size() + 1 - chain.len(),
{
    let link = parent_link(g.defs, current);
    let next = chain.push(current);
    let full = g.ascend(target, chain, current)->Ok_0.0;
    match link {
        ParentLink::At(p) => {
            ascent_follows_parents(g, target, next, g.defs[p]);
            assert(full[chain.len() as int] == next[chain.len() as int]);
            assert forall|k: int| 0 <= k < chain.len() implies (#[trigger] full[k]) == chain[k] by {
                assert(next[k] == chain[k]);
            }
            assert forall|k: int| chain.len() <= k < full.len() - 1 implies {
                &&& parent_link(g.defs, #[trigger] full[k]) is At
                &&& g.defs[parent_link(g.defs, full[k])->At_0] == full[k + 1]
            } by {
                if k == chain.len() {
                    assert(full[next.len() as int] == g.defs[p]);
                }
            }
            assert forall|i: int, j: int|
                #![trigger full[i], full[j]]
                0 <= i < j < full.len() && chain.len() <= j
                    && full[j].event_id is Some implies full[i].event_id != full[j].event_id by {
                if j == chain.len() {
                    assert(full[i] == chain[i]);
                    assert(chain[i].event_id != current.event_id);
                }
            }
        },
        _ => {
            assert(full == next);
            assert forall|i: int, j: int|
                #![trigger full[i], full[j]]
                0 <= i < j < full.len() && chain.len() <= j
                    && full[j].event_id is Some implies full[i].event_id != full[j].event_id by {
                assert(chain[i].event_id != current.event_id);
            }
        },
    }
}

/// `parent` is where the parent link of `e` leads.
pub open spec fn is_parent(g: Lineage, parent: EventView, e: EventView) -> bool {
    parent_link(g.defs, e) is At && g.defs[parent_link(g.defs, e)->At_0] == parent
}

/// A resolved branch is one parent chain, root first: every event but the
/// first is the child of the one before it, the first has no parent or one
/// outside the log, no identity occurs twice, and all events belong to the
/// agent of the leaf.
pub proof fn resolved_branch_is_one_chain(
    log: Seq<EventView>,
    responses: Seq<(Seq<char>, Seq<char>)>,
    target: TargetView,
)
    requires
        lineage_of(log, responses).resolution(target) is Ok,
    ensures
        ({
            let g = lineage_of(log, responses);
            let branch = g.resolution(target)->Ok_0;
            let events = branch.events;
            &&& events.len() > 0
            &&& branch.leaf_event_id == events.last().event_id
            &&& target.event is Some ==> branch.leaf_event_id == target.event
            &&& target.admits(events.last())
            &&& log.contains(events.last())
            &&& forall|k: int|
                0 < k < events.len() ==> is_parent(g, events[k - 1], #[trigger] events[k])
            &&& branch.ancestor_chain_truncated == (parent_link(g.defs, events[0]) is Missing)
            &&& branch.ancestor_chain_truncated || parent_link(g.defs, events[0]) is Root
            &&& forall|i: int, j: int|
                #![trigger events[i], events[j]]
                0 <= i < j < events.len() && events[i].event_id is Some ==> events[i].event_id
                    != events[j].event_id
            &&& forall|k: int|
                0 <= k < events.len() ==> (#[trigger] events[k]).agent_id == events.last().agent_id
        }),
{
    let g = lineage_of(log, responses);
    let leaf = g.select(target)->Ok_0;
    let branch = g.resolution(target)->Ok_0;
    let (chain, truncated) = g.ascend(target, Seq::empty(), leaf)->Ok_0;
    ascent_follows_parents(g, target, Seq::empty(), leaf);
    let events = branch.events;
    let n = events.len() as int;
    assert forall|k: int| 0 <= k < n implies (#[trigger] events[k]) == chain[n - 1 - k] by {}
    assert(events.last() == chain[0]);
    assert forall|k: int| 0 < k < n implies is_parent(g, events[k - 1], #[trigger] events[k]) by {
        assert(chain[n - 1 - k] == events[k]);
        assert(events[k - 1] == chain[n - k]);
    }
    assert forall|i: int, j: int|
        #![trigger events[i], events[j]]
        0 <= i < j < n && events[i].event_id is Some implies events[i].event_id
        != events[j].event_id by {
        assert(events[i] == chain[n - 1 - i]);
        assert(events[j] == chain[n - 1 - j]);
        assert(chain[n - 1 - i].event_id is Some);
    }
    same_agent_up(g, chain, n - 1);
    assert forall|k: int| 0 <= k < n implies (#[trigger] events[k]).agent_id
        == events.last().agent_id by {
        same_agent_up(g, chain, n - 1 - k);
    }
    selected_leaf_is_admitted(log, responses, target);
}

proof fn same_agent_up(g: Lineage, chain: Seq<EventView>, k: int)
    requires
        0 <= k < chain.len(),
        follows_parents(g, chain, 0),
    ensures
        chain[k].agent_id == chain[0].agent_id,
    decreases k,
{
    if k > 0 {
        same_agent_up(g, chain, k - 1);
        assert(parent_link(g.defs, chain[k - 1]) is At);
        parents_stay_with_the_agent(g.defs, chain[k - 1]);
        assert(chain[k] == chain[(k - 1) + 1]);
    }
}

proof fn leaves_are_admitted(g: Lineage, target: TargetView, n: int, k: int)
    requires
        0 <= n <= g.size(),
        0 <= k < g.leaves_below(target, n).len(),
    ensures
        0 <= g.leaves_below(target, n)[k] < g.size(),
        target.admits(g.defs[g.leaves_below(target, n)[k]]),
    decreases n,
{
    if n > 0 {
        if k < g.leaves_below(target, n - 1).len() {
            leaves_are_admitted(g, target, n - 1, k);
        }
    }
}

proof fn substantive_are_admitted(g: Lineage, target: TargetView, n: int, k: int)
    requires
        0 <= n <= g.size(),
        0 <= k < g.substantive_below(target, n).len(),
    ensures
        0 <= g.substantive_below(target, n)[k] < g.size(),
        target.admits(g.defs[g.substantive_below(target, n)[k]]),
    decreases n,
{
    if n > 0 {
        if k < g.substantive_below(target, n - 1).len() {
            substantive_are_admitted(g, target, n - 1, k);
        }
    }
}

/// A selected leaf is an event of the log in the scope asked for, and the
/// event asked for where one is.
pub proof fn selected_leaf_is_admitted(
    log: Seq<EventView>,
    responses: Seq<(Seq<char>, Seq<char>)>,
    target: TargetView,
)
    requires
        lineage_of(log, responses).select(target) is Ok,
    ensures
        ({
            let leaf = lineage_of(log, responses).select(target)->Ok_0;
            &&& target.admits(leaf)
            &&& target.event is Some ==> leaf.event_id == target.event
            &&& log.contains(leaf)
        }),
{
    let g = lineage_of(log, responses);
    let leaf = g.select(target)->Ok_0;
    index_is_ordered(log);
    if target.event is Some {
        let p = choose|p: int| g.is_named_target(target, p);
        assert(g.is_named_target(target, p));
        assert(log.contains(g.defs[p]));
    } else if g.leaves_below(target, g.size()).len() == 1 {
        leaves_are_admitted(g, target, g.size(), 0);
        assert(log.contains(g.defs[g.leaves_below(target, g.size())[0]]));
    } else if g.leaves_below(target, g.size()).len() == 0 {
        assert(log[0] == leaf);
    } else {
        substantive_are_admitted(g, target, g.size(), 0);
        assert(log.contains(g.defs[g.substantive_below(target, g.size())[0]]));
    }
}

} // verus!
