//! Scope-aware event identity and parent-link selection.
//!
//! Explicit target qualifiers constrain the leaf even when an event identity
//! is supplied. Ancestors stay in that leaf's agent namespace. A parent first
//! resolves in the child's branch; a unique same-agent ancestor in another
//! branch can establish a fork, but an ambiguous bare parent identity cannot.
use crate::context::branch::{
    ActiveBranch, BranchResolution, BranchResolutionTarget, BranchView, ReasonView, TargetView,
    UnresolvedBranchReason,
};
use crate::context::{event_views, EventKind, EventView, NormalizedEvent, Role};
use crate::text::{copy_optional, copy_text, optional_text, same_optional, same_text, texts};
use vstd::prelude::*;
use vstd::utf8::*;

verus! {

/// An event identity within its agent and branch namespace.
pub struct EventKey {
    pub agent: Option<Seq<char>>,
    pub branch: Option<Seq<char>>,
    pub event: Seq<char>,
}

/// How two values stand in an order.
#[derive(Clone, Copy, Debug, PartialEq, Eq, Structural)]
pub enum Standing {
    Before,
    Same,
    After,
}

/// Lexicographic order of byte strings.
pub open spec fn byte_standing(a: Seq<u8>, b: Seq<u8>) -> Standing
    decreases a.len(),
{
    if a.len() == 0 {
        if b.len() == 0 {
            Standing::Same
        } else {
            Standing::Before
        }
    } else if b.len() == 0 {
        Standing::After
    } else if a[0] < b[0] {
        Standing::Before
    } else if a[0] > b[0] {
        Standing::After
    } else {
        byte_standing(a.drop_first(), b.drop_first())
    }
}

/// Texts order by their bytes.
pub open spec fn text_standing(a: Seq<char>, b: Seq<char>) -> Standing {
    byte_standing(encode_utf8(a), encode_utf8(b))
}

/// An absent text orders before every present one.
pub open spec fn optional_standing(a: Option<Seq<char>>, b: Option<Seq<char>>) -> Standing {
    match (a, b) {
        (None, None) => Standing::Same,
        (None, Some(_)) => Standing::Before,
        (Some(_), None) => Standing::After,
        (Some(x), Some(y)) => text_standing(x, y),
    }
}

/// Keys order by agent, then branch, then event.
pub open spec fn key_standing(a: EventKey, b: EventKey) -> Standing {
    match optional_standing(a.agent, b.agent) {
        Standing::Same => match optional_standing(a.branch, b.branch) {
            Standing::Same => text_standing(a.event, b.event),
            other => other,
        },
        other => other,
    }
}

/// The key of an event that has an identity.
pub open spec fn key_of(e: EventView) -> EventKey {
    EventKey { agent: e.agent_id, branch: e.branch_id, event: e.event_id->0 }
}

/// Add a definition in key order; the first definition of a key stays.
pub open spec fn with_definition(defs: Seq<EventView>, e: EventView) -> Seq<EventView>
    decreases defs.len(),
{
    if defs.len() == 0 {
        seq![e]
    } else {
        match key_standing(key_of(e), key_of(defs[0])) {
            Standing::Before => seq![e] + defs,
            Standing::Same => defs,
            Standing::After => seq![defs[0]] + with_definition(defs.drop_first(), e),
        }
    }
}

/// The first definition of every identified event of a log, in key order.
pub open spec fn definitions(log: Seq<EventView>) -> Seq<EventView>
    decreases log.len(),
{
    if log.len() == 0 {
        Seq::empty()
    } else if log.last().event_id is Some {
        with_definition(definitions(log.drop_last()), log.last())
    } else {
        definitions(log.drop_last())
    }
}

/// Does the log define the key of `e` in another way too?
pub open spec fn conflicted(log: Seq<EventView>, e: EventView) -> bool {
    exists|j: int| 0 <= j < log.len() && (#[trigger] log[j]).redefines(e)
}

impl EventView {
    pub open spec fn redefines(self, e: EventView) -> bool {
        self.event_id is Some && key_of(self) == key_of(e) && self != e
    }

    /// Is this a candidate for the bare identity `event` of an agent?
    pub open spec fn is_named(self, agent: Option<Seq<char>>, event: Seq<char>) -> bool {
        self.agent_id == agent && self.event_id == Some(event)
    }

    /// A system message with no tool payload, which no conversation continues
    /// from.
    pub open spec fn carries_no_conversation(self) -> bool {
        self.role == Role::System && self.kind == EventKind::Message && self.tool is None
    }

    /// A tool result whose parent is the invocation that it answers.
    pub open spec fn answers_own_call(self, call: EventView) -> bool {
        self.kind == EventKind::ToolResult && call.kind == EventKind::ToolInvocation
            && self.call_id() is Some && self.call_id() == call.call_id()
    }
}

impl TargetView {
    /// Is the event in the scope of the agent and branch asked for?
    pub open spec fn admits(self, e: EventView) -> bool {
        (self.agent is Some ==> e.agent_id == self.agent) && (self.branch is Some ==> e.branch_id
            == self.branch)
    }
}

/// Where the parent of an event is.
pub enum ParentLink {
    Root,
    Missing,
    At(int),
    Ambiguous,
}

/// `p` holds the only definition of the bare identity `event` of an agent.
pub open spec fn only_named(
    defs: Seq<EventView>,
    agent: Option<Seq<char>>,
    event: Seq<char>,
    p: int,
) -> bool {
    0 <= p < defs.len() && defs[p].is_named(agent, event) && forall|q: int|
        0 <= q < defs.len() && (#[trigger] defs[q]).is_named(agent, event) ==> q == p
}

/// Resolve the parent of `e`: by its exact key, else by the only definition of
/// that identity in the same agent's namespace.
pub open spec fn parent_link(defs: Seq<EventView>, e: EventView) -> ParentLink {
    match e.parent_id {
        None => ParentLink::Root,
        Some(parent) => {
            let key = EventKey { agent: e.agent_id, branch: e.branch_id, event: parent };
            if exists|p: int| is_place_of(defs, key, p) {
                ParentLink::At(choose|p: int| is_place_of(defs, key, p))
            } else if exists|p: int| only_named(defs, e.agent_id, parent, p) {
                ParentLink::At(choose|p: int| only_named(defs, e.agent_id, parent, p))
            } else if exists|p: int|
                0 <= p < defs.len() && (#[trigger] defs[p]).is_named(e.agent_id, parent) {
                ParentLink::Ambiguous
            } else {
                ParentLink::Missing
            }
        },
    }
}

/// `p` is the first place of the definition of `key`.
pub open spec fn is_place_of(defs: Seq<EventView>, key: EventKey, p: int) -> bool {
    0 <= p < defs.len() && key_of(defs[p]) == key && forall|q: int|
        0 <= q < p ==> key_of(#[trigger] defs[q]) != key
}

/// A log's definitions in key order, with the resolved parent of each.
pub struct Lineage {
    pub log: Seq<EventView>,
    pub defs: Seq<EventView>,
    pub links: Seq<ParentLink>,
    /// The provider response that an event is a fragment of, where the source
    /// says so.
    pub responses: Seq<(Seq<char>, Seq<char>)>,
}

pub open spec fn lineage_of(
    log: Seq<EventView>,
    responses: Seq<(Seq<char>, Seq<char>)>,
) -> Lineage {
    let defs = definitions(log);
    Lineage {
        log,
        defs,
        links: Seq::new(defs.len(), |i: int| parent_link(defs, defs[i])),
        responses,
    }
}

/// What a node says about the subtree below a tool call of one response.
pub enum BatchVerdict {
    /// Only fragments of that response, results answering its calls and
    /// content-free records, with every call answered.
    Answered,
    /// A later response or another turn: the conversation goes on here.
    Beyond,
    /// A call still waiting for its result, or a result for another call.
    Incomplete,
}

/// The value of the first pair with this key.
pub open spec fn lookup(pairs: Seq<(Seq<char>, Seq<char>)>, key: Seq<char>) -> Option<Seq<char>>
    decreases pairs.len(),
{
    if pairs.len() == 0 {
        None
    } else if pairs[0].0 == key {
        Some(pairs[0].1)
    } else {
        lookup(pairs.drop_first(), key)
    }
}

impl Lineage {
    pub open spec fn size(self) -> int {
        self.defs.len() as int
    }

    pub open spec fn child(self, c: int, p: int) -> bool {
        0 <= c < self.links.len() && self.links[c] == ParentLink::At(p)
    }

    /// The children of `p` among the first `n` definitions, in key order.
    pub open spec fn kids_below(self, p: int, n: int) -> Seq<int>
        decreases n,
    {
        if n <= 0 {
            Seq::empty()
        } else if self.links[n - 1] == ParentLink::At(p) {
            self.kids_below(p, n - 1).push(n - 1)
        } else {
            self.kids_below(p, n - 1)
        }
    }

    pub open spec fn kids(self, p: int) -> Seq<int> {
        self.kids_below(p, self.size())
    }

    /// A content-free record all of whose children are such dead ends, in at
    /// most `depth` generations.
    pub open spec fn dead_end_within(self, i: int, depth: nat) -> bool
        decreases depth,
    {
        depth > 0 && self.defs[i].carries_no_conversation() && forall|k: int|
            0 <= k < self.kids(i).len() ==> self.dead_end_within(
                #[trigger] self.kids(i)[k],
                (depth - 1) as nat,
            )
    }

    pub open spec fn dead_end(self, i: int) -> bool {
        exists|depth: nat| self.dead_end_within(i, depth)
    }

    /// The children among `kids` that are not dead ends.
    pub open spec fn surviving(self, kids: Seq<int>) -> nat
        decreases kids.len(),
    {
        if kids.len() == 0 {
            0
        } else {
            self.surviving(kids.drop_last()) + if self.dead_end(kids.last()) {
                0nat
            } else {
                1nat
            }
        }
    }

    /// A surviving leaf that answers its own parent's call.
    pub open spec fn side_result(self, i: int) -> bool {
        &&& !self.dead_end(i)
        &&& self.links[i] is At
        &&& self.defs[i].answers_own_call(self.defs[self.links[i]->At_0])
        &&& forall|k: int|
            0 <= k < self.kids(i).len() ==> self.dead_end(#[trigger] self.kids(i)[k])
    }

    pub open spec fn side_results(self, kids: Seq<int>) -> nat
        decreases kids.len(),
    {
        if kids.len() == 0 {
            0
        } else {
            self.side_results(kids.drop_last()) + if self.side_result(kids.last()) {
                1nat
            } else {
                0nat
            }
        }
    }

    /// A side result beside which its call's message goes on: more children
    /// survive than are side results. Each one set aside counts against the
    /// next.
    pub open spec fn filed_beside(self, i: int) -> bool {
        self.side_result(i) && {
            let call = self.links[i]->At_0;
            self.surviving(self.kids(call)) > self.side_results(self.kids(call))
                + self.side_results(self.kids_below(call, i))
        }
    }

    pub open spec fn set_aside(self, i: int) -> bool {
        self.dead_end(i) || self.filed_beside(i)
    }

    /// A tool result whose call precedes the window.
    pub open spec fn orphan_result(self, i: int) -> bool {
        &&& !self.set_aside(i)
        &&& self.defs[i].kind == EventKind::ToolResult
        &&& self.links[i] == ParentLink::Missing
        &&& forall|k: int|
            0 <= k < self.kids(i).len() ==> self.set_aside(#[trigger] self.kids(i)[k])
    }

    /// Visit the nodes below `nodes[next..]` generation by generation.
    pub open spec fn walk(self, head: int, nodes: Seq<int>, next: int) -> Seq<int>
        decreases self.size() - next,
    {
        if next >= nodes.len() || next >= self.size() {
            nodes
        } else {
            self.walk(head, nodes + without(self.kids(nodes[next]), head), next + 1)
        }
    }

    /// The node `head` and everything below it.
    pub open spec fn subtree(self, head: int) -> Seq<int> {
        self.walk(head, seq![head], 0)
    }

    pub open spec fn response_of(self, i: int) -> Option<Seq<char>> {
        lookup(self.responses, self.defs[i].event_id->0)
    }

    /// A piece of the assistant's response `response`.
    pub open spec fn fragment(self, i: int, response: Seq<char>) -> bool {
        let e = self.defs[i];
        e.role == Role::Assistant && (e.kind == EventKind::ToolInvocation || e.kind
            == EventKind::Message) && self.response_of(i) == Some(response)
    }

    /// The verdict of one node on its batch, where it has one.
    pub open spec fn verdict(self, i: int, response: Seq<char>) -> Option<BatchVerdict> {
        let e = self.defs[i];
        if self.fragment(i, response) {
            if e.kind == EventKind::ToolInvocation && e.call_id() is None {
                Some(BatchVerdict::Incomplete)
            } else {
                None
            }
        } else if e.kind == EventKind::ToolResult {
            if e.call_id() is None {
                Some(BatchVerdict::Incomplete)
            } else {
                None
            }
        } else if e.carries_no_conversation() {
            None
        } else {
            Some(BatchVerdict::Beyond)
        }
    }

    pub open spec fn is_first_verdict(self, nodes: Seq<int>, response: Seq<char>, k: int) -> bool {
        0 <= k < nodes.len() && self.verdict(nodes[k], response) is Some && forall|j: int|
            0 <= j < k ==> self.verdict(#[trigger] nodes[j], response) is None
    }

    /// Is `i` a call of the batch?
    pub open spec fn calls(self, i: int, response: Seq<char>) -> bool {
        self.fragment(i, response) && self.defs[i].kind == EventKind::ToolInvocation
    }

    pub open spec fn has_call(
        self,
        nodes: Seq<int>,
        response: Seq<char>,
        call: Option<Seq<char>>,
    ) -> bool {
        exists|k: int|
            0 <= k < nodes.len() && self.calls(#[trigger] nodes[k], response)
                && self.defs[nodes[k]].call_id() == call
    }

    pub open spec fn has_answer(self, nodes: Seq<int>, call: Option<Seq<char>>) -> bool {
        exists|k: int|
            0 <= k < nodes.len() && self.defs[#[trigger] nodes[k]].kind == EventKind::ToolResult
                && self.defs[nodes[k]].call_id() == call
    }

    /// Every call of the batch is answered, and every answer belongs to it.
    pub open spec fn batch_complete(
        self,
        nodes: Seq<int>,
        response: Seq<char>,
        own_call: Option<Seq<char>>,
    ) -> bool {
        forall|k: int|
            0 <= k < nodes.len() ==> self.node_settled(
                nodes,
                #[trigger] nodes[k],
                response,
                own_call,
            )
    }

    pub open spec fn node_settled(
        self,
        nodes: Seq<int>,
        i: int,
        response: Seq<char>,
        own_call: Option<Seq<char>>,
    ) -> bool {
        let call = self.defs[i].call_id();
        &&& self.calls(i, response) ==> self.has_answer(nodes, call)
        &&& self.defs[i].kind == EventKind::ToolResult ==> self.has_call(nodes, response, call)
            || own_call == call
    }

    /// Classify the subtree at `head` below a tool call of `response`.
    pub open spec fn batch(
        self,
        head: int,
        response: Seq<char>,
        own_call: Option<Seq<char>>,
    ) -> BatchVerdict {
        let nodes = self.subtree(head);
        if exists|k: int| self.is_first_verdict(nodes, response, k) {
            self.verdict(
                nodes[choose|k: int| self.is_first_verdict(nodes, response, k)],
                response,
            )->0
        } else if self.batch_complete(nodes, response, own_call) {
            BatchVerdict::Answered
        } else {
            BatchVerdict::Incomplete
        }
    }

    /// A child through which the response, or the answer to the fork's own
    /// call, reaches a later response or turn.
    pub open spec fn goes_on_at(self, fork: int, child: int) -> bool {
        let response = self.response_of(fork)->0;
        self.batch(child, response, self.defs[fork].call_id()) is Beyond && (self.response_of(child)
            == Some(response) || self.defs[child].answers_own_call(self.defs[fork]))
    }

    /// A tool call of a known response with several children, one of which
    /// goes on.
    pub open spec fn forks_on(self, fork: int) -> bool {
        &&& self.response_of(fork) is Some
        &&& self.defs[fork].kind == EventKind::ToolInvocation
        &&& self.kids(fork).len() >= 2
        &&& exists|k: int|
            0 <= k < self.kids(fork).len() && self.goes_on_at(fork, #[trigger] self.kids(fork)[k])
    }

    /// A child of `fork` that heads an answered batch of parallel tool calls
    /// while the response goes on elsewhere.
    pub open spec fn side_batch(self, fork: int, child: int) -> bool {
        self.forks_on(fork) && self.kids(fork).contains(child) && self.batch(
            child,
            self.response_of(fork)->0,
            self.defs[fork].call_id(),
        ) is Answered
    }

    pub open spec fn in_side_batch(self, i: int) -> bool {
        exists|fork: int, child: int|
            0 <= fork < self.size() && #[trigger] self.side_batch(fork, child) && self.subtree(
                child,
            ).contains(i)
    }

    /// On a side branch that no conversation continues from.
    pub open spec fn pruned(self, i: int) -> bool {
        self.set_aside(i) || self.orphan_result(i) || self.in_side_batch(i)
    }

    /// The leaves in scope among the first `n` definitions.
    pub open spec fn leaves_below(self, target: TargetView, n: int) -> Seq<int>
        decreases n,
    {
        if n <= 0 {
            Seq::empty()
        } else if target.admits(self.defs[n - 1]) && self.kids(n - 1).len() == 0 {
            self.leaves_below(target, n - 1).push(n - 1)
        } else {
            self.leaves_below(target, n - 1)
        }
    }

    pub open spec fn is_substantive_leaf(self, i: int) -> bool {
        !self.pruned(i) && forall|k: int|
            0 <= k < self.kids(i).len() ==> self.pruned(#[trigger] self.kids(i)[k])
    }

    /// The leaves in scope that remain once side branches are removed.
    pub open spec fn substantive_below(self, target: TargetView, n: int) -> Seq<int>
        decreases n,
    {
        if n <= 0 {
            Seq::empty()
        } else if target.admits(self.defs[n - 1]) && self.is_substantive_leaf(n - 1) {
            self.substantive_below(target, n - 1).push(n - 1)
        } else {
            self.substantive_below(target, n - 1)
        }
    }

    pub open spec fn ids(self, places: Seq<int>) -> Seq<Seq<char>> {
        places.map_values(|p: int| self.defs[p].event_id->0)
    }

    /// The place of the first definition in scope, if any.
    pub open spec fn is_first_in_scope(self, target: TargetView, p: int) -> bool {
        0 <= p < self.size() && target.admits(self.defs[p]) && forall|q: int|
            0 <= q < p ==> !target.admits(#[trigger] self.defs[q])
    }

    pub open spec fn is_first_conflict(self, target: TargetView, p: int) -> bool {
        0 <= p < self.size() && self.conflicts_in_scope(target, p) && forall|q: int|
            0 <= q < p ==> !#[trigger] self.conflicts_in_scope(target, q)
    }

    pub open spec fn conflicts_in_scope(self, target: TargetView, p: int) -> bool {
        target.admits(self.defs[p]) && conflicted(self.log, self.defs[p])
    }

    pub open spec fn is_named_target(self, target: TargetView, p: int) -> bool {
        0 <= p < self.size() && self.defs[p].event_id == target.event && target.admits(self.defs[p])
    }

    /// The event at which the active branch ends.
    pub open spec fn select(self, target: TargetView) -> Result<EventView, ReasonView> {
        let leaves = self.leaves_below(target, self.size());
        let substantive = self.substantive_below(target, self.size());
        if target.event is Some {
            if exists|p: int, q: int|
                p != q && #[trigger] self.is_named_target(target, p)
                    && #[trigger] self.is_named_target(target, q) {
                Err(ReasonView::AmbiguousEventIdentity { event: target.event->0 })
            } else if exists|p: int| self.is_named_target(target, p) {
                Ok(self.defs[choose|p: int| self.is_named_target(target, p)])
            } else {
                Err(ReasonView::TargetEventNotFound { target: target.event->0 })
            }
        } else if exists|p: int| self.is_first_conflict(target, p) {
            let p = choose|p: int| self.is_first_conflict(target, p);
            Err(ReasonView::ConflictingEventDefinitions { event: self.defs[p].event_id->0 })
        } else if leaves.len() == 1 {
            Ok(self.defs[leaves[0]])
        } else if leaves.len() == 0 {
            if self.log.len() == 1 && self.log[0].event_id is None && target.admits(self.log[0]) {
                Ok(self.log[0])
            } else if exists|p: int| self.is_first_in_scope(target, p) {
                let p = choose|p: int| self.is_first_in_scope(target, p);
                match self.trace(target, self.defs[p]) {
                    Ok(_) => Err(ReasonView::NoMatchingEvents),
                    Err(reason) => Err(reason),
                }
            } else {
                Err(ReasonView::NoMatchingEvents)
            }
        } else if substantive.len() == 1 {
            Ok(self.defs[substantive[0]])
        } else if substantive.len() == 0 {
            Err(ReasonView::AmbiguousSiblingForks { candidate_leaves: self.ids(leaves) })
        } else {
            Err(ReasonView::AmbiguousSiblingForks { candidate_leaves: self.ids(substantive) })
        }
    }

    /// Follow parent links from `current`, below which `chain` already lies
    /// (leaf first). The chain never holds more than every definition and one
    /// event without identity.
    pub open spec fn ascend(
        self,
        target: TargetView,
        chain: Seq<EventView>,
        current: EventView,
    ) -> Result<(Seq<EventView>, bool), ReasonView>
        decreases self.size() + 1 - chain.len(),
    {
        let link = parent_link(self.defs, current);
        if current.event_id is Some && conflicted(self.log, current) {
            Err(ReasonView::ConflictingEventDefinitions { event: current.event_id->0 })
        } else if chain.len() > self.size() || current.event_id is Some && exists|k: int|
            0 <= k < chain.len() && (#[trigger] chain[k]).has_key_of(current) {
            Err(ReasonView::CycleDetected { at_event: current.event_id->0 })
        } else if current.event_id is Some && exists|k: int|
            0 <= k < chain.len() && (#[trigger] chain[k]).event_id == current.event_id {
            Err(ReasonView::AmbiguousEventIdentity { event: current.event_id->0 })
        } else if target.branch is Some && current.branch_id is Some && target.branch
            != current.branch_id {
            Err(
                ReasonView::ConflictingBranchIdentities {
                    expected: target.branch->0,
                    observed: current.branch_id->0,
                },
            )
        } else {
            match link {
                ParentLink::Root => Ok((chain.push(current), false)),
                ParentLink::Missing => Ok((chain.push(current), true)),
                ParentLink::Ambiguous => Err(
                    ReasonView::AmbiguousEventIdentity { event: current.parent_id->0 },
                ),
                ParentLink::At(p) => self.ascend(target, chain.push(current), self.defs[p]),
            }
        }
    }

    /// The active branch that ends at `leaf`.
    pub open spec fn trace(self, target: TargetView, leaf: EventView) -> Result<
        BranchView,
        ReasonView,
    > {
        match self.ascend(target, Seq::empty(), leaf) {
            Err(reason) => Err(reason),
            Ok((chain, truncated)) => Ok(
                BranchView {
                    branch_id: if target.branch is Some {
                        target.branch
                    } else {
                        first_branch(chain)
                    },
                    leaf_event_id: leaf.event_id,
                    events: chain.reverse(),
                    compaction_count: count_kind(chain, EventKind::Compaction),
                    task_boundary_count: count_kind(chain, EventKind::TaskBoundary),
                    ancestor_chain_truncated: truncated,
                },
            ),
        }
    }

    pub open spec fn resolution(self, target: TargetView) -> Result<BranchView, ReasonView> {
        if self.log.len() == 0 {
            Err(ReasonView::EmptyHistory)
        } else {
            match self.select(target) {
                Ok(leaf) => self.trace(target, leaf),
                Err(reason) => Err(reason),
            }
        }
    }
}

impl EventView {
    pub open spec fn has_key_of(self, other: EventView) -> bool {
        self.event_id is Some && key_of(self) == key_of(other)
    }
}

/// All elements but `excluded`, in order.
pub open spec fn without(places: Seq<int>, excluded: int) -> Seq<int>
    decreases places.len(),
{
    if places.len() == 0 {
        Seq::empty()
    } else if places.last() == excluded {
        without(places.drop_last(), excluded)
    } else {
        without(places.drop_last(), excluded).push(places.last())
    }
}

/// The branch of the first event that names one.
pub open spec fn first_branch(chain: Seq<EventView>) -> Option<Seq<char>>
    decreases chain.len(),
{
    if chain.len() == 0 {
        None
    } else if chain[0].branch_id is Some {
        chain[0].branch_id
    } else {
        first_branch(chain.drop_first())
    }
}

pub open spec fn count_kind(chain: Seq<EventView>, kind: EventKind) -> nat
    decreases chain.len(),
{
    if chain.len() == 0 {
        0
    } else {
        count_kind(chain.drop_last(), kind) + if chain.last().kind == kind {
            1nat
        } else {
            0nat
        }
    }
}

/// Compare texts by their bytes.
pub(crate) fn compare_text(a: &str, b: &str) -> (r: Standing)
    ensures
        r == text_standing(a@, b@),
{
    let left: &[u8] = a.as_bytes();
    let right: &[u8] = b.as_bytes();
    let ghost l = left@;
    let ghost r = right@;
    let mut i: usize = 0;
    assert(l.skip(0) =~= l && r.skip(0) =~= r);
    while i < left.len() && i < right.len()
        invariant
            i <= l.len(),
            i <= r.len(),
            l == left@ && l == encode_utf8(a@),
            r == right@ && r == encode_utf8(b@),
            byte_standing(l, r) == byte_standing(l.skip(i as int), r.skip(i as int)),
        decreases l.len() - i,
    {
        assert(l.skip(i as int)[0] == l[i as int]);
        assert(r.skip(i as int)[0] == r[i as int]);
        if left[i] < right[i] {
            return Standing::Before;
        }
        if left[i] > right[i] {
            return Standing::After;
        }
        assert(l.skip(i as int).drop_first() =~= l.skip(i as int + 1));
        assert(r.skip(i as int).drop_first() =~= r.skip(i as int + 1));
        i += 1;
    }
    if i < right.len() {
        Standing::Before
    } else if i < left.len() {
        Standing::After
    } else {
        Standing::Same
    }
}

fn compare_optional(a: &Option<String>, b: &Option<String>) -> (r: Standing)
    ensures
        r == optional_standing(optional_text(*a), optional_text(*b)),
{
    match (a, b) {
        (None, None) => Standing::Same,
        (None, Some(_)) => Standing::Before,
        (Some(_), None) => Standing::After,
        (Some(x), Some(y)) => compare_text(x.as_str(), y.as_str()),
    }
}

proof fn same_bytes(a: Seq<u8>, b: Seq<u8>)
    ensures
        (byte_standing(a, b) is Same) == (a == b),
    decreases a.len(),
{
    if a.len() > 0 && b.len() > 0 {
        same_bytes(a.drop_first(), b.drop_first());
        if a.drop_first() == b.drop_first() && a[0] == b[0] {
            assert(a =~= seq![a[0]] + a.drop_first());
            assert(b =~= seq![b[0]] + b.drop_first());
        }
    } else {
        assert(a.len() == 0 && b.len() == 0 ==> a =~= b);
    }
}

/// Keys stand at the same place only if they are equal.
pub proof fn same_standing_means_same_key(a: EventKey, b: EventKey)
    ensures
        (key_standing(a, b) is Same) == (a == b),
{
    same_text_standing(a.event, b.event);
    if a.agent is Some && b.agent is Some {
        same_text_standing(a.agent->0, b.agent->0);
    }
    if a.branch is Some && b.branch is Some {
        same_text_standing(a.branch->0, b.branch->0);
    }
}

proof fn same_text_standing(a: Seq<char>, b: Seq<char>)
    ensures
        (text_standing(a, b) is Same) == (a == b),
{
    same_bytes(encode_utf8(a), encode_utf8(b));
    encode_utf8_decode_utf8(a);
    encode_utf8_decode_utf8(b);
}

/// The parent of a definition, by its place in the index.
#[derive(Clone, Copy, Debug, PartialEq, Eq, Structural)]
pub enum Link {
    Root,
    Missing,
    At(usize),
    Ambiguous,
}

impl View for Link {
    type V = ParentLink;

    open spec fn view(&self) -> ParentLink {
        match self {
            Link::Root => ParentLink::Root,
            Link::Missing => ParentLink::Missing,
            Link::At(p) => ParentLink::At(*p as int),
            Link::Ambiguous => ParentLink::Ambiguous,
        }
    }
}

/// The provider response of each event that is a fragment of one.
#[derive(Clone, Debug)]
pub struct ResponseFragment {
    pub event_id: String,
    pub response: String,
}

pub open spec fn response_pairs(fragments: Seq<ResponseFragment>) -> Seq<(Seq<char>, Seq<char>)> {
    fragments.map_values(|f: ResponseFragment| (f.event_id@, f.response@))
}

/// The definitions of a log: places in the log, in key order.
struct Index<'a> {
    events: &'a Vec<NormalizedEvent>,
    responses: &'a Vec<ResponseFragment>,
    nodes: Vec<usize>,
    links: Vec<Link>,
    kids: Vec<Vec<usize>>,
}

spec fn defs_at(events: Seq<NormalizedEvent>, nodes: Seq<usize>) -> Seq<EventView> {
    nodes.map_values(|n: usize| events[n as int]@)
}

spec fn places(list: Seq<usize>) -> Seq<int> {
    list.map_values(|n: usize| n as int)
}

proof fn insertion_place(defs: Seq<EventView>, e: EventView, p: int)
    requires
        0 <= p <= defs.len(),
        forall|j: int|
            0 <= j < p ==> key_standing(key_of(e), key_of(#[trigger] defs[j])) is After,
        p < defs.len() ==> !(key_standing(key_of(e), key_of(defs[p])) is After),
    ensures
        p < defs.len() && key_standing(key_of(e), key_of(defs[p])) is Same ==> with_definition(
            defs,
            e,
        ) == defs,
        p == defs.len() || key_standing(key_of(e), key_of(defs[p])) is Before ==> with_definition(
            defs,
            e,
        ) == defs.insert(p, e),
    decreases p,
{
    if p == 0 {
        if defs.len() > 0 {
            assert(seq![e] + defs =~= defs.insert(0, e));
        } else {
            assert(seq![e] =~= defs.insert(0, e));
        }
    } else {
        let rest = defs.drop_first();
        assert forall|j: int| 0 <= j < p - 1 implies key_standing(
            key_of(e),
            key_of(#[trigger] rest[j]),
        ) is After by {
            assert(rest[j] == defs[j + 1]);
        }
        if p < defs.len() {
            assert(rest[p - 1] == defs[p]);
        }
        assert(key_standing(key_of(e), key_of(defs[0])) is After);
        insertion_place(rest, e, p - 1);
        assert(seq![defs[0]] + rest =~= defs);
        assert(seq![defs[0]] + rest.insert(p - 1, e) =~= defs.insert(p, e));
    }
}

/// Compare the key of an identified event with that of another.
fn compare_keys(a: &NormalizedEvent, b: &NormalizedEvent) -> (r: Standing)
    requires
        a@.event_id is Some,
        b@.event_id is Some,
    ensures
        r == key_standing(key_of(a@), key_of(b@)),
{
    match compare_optional(&a.agent_id, &b.agent_id) {
        Standing::Same => {},
        other => {
            return other;
        },
    }
    match compare_optional(&a.branch_id, &b.branch_id) {
        Standing::Same => {},
        other => {
            return other;
        },
    }
    match (&a.event_id, &b.event_id) {
        (Some(x), Some(y)) => compare_text(x.as_str(), y.as_str()),
        _ => Standing::Same,
    }
}

/// The places of the definitions of a log, in key order.
fn index_definitions(events: &Vec<NormalizedEvent>) -> (nodes: Vec<usize>)
    ensures
        defs_at(events@, nodes@) == definitions(event_views(events@)),
        forall|k: int|
            0 <= k < nodes@.len() ==> (#[trigger] nodes@[k]) < events@.len()
                && events@[nodes@[k] as int]@.event_id is Some,
{
    let mut nodes: Vec<usize> = Vec::new();
    let ghost log = event_views(events@);
    let mut i: usize = 0;
    assert(defs_at(events@, nodes@) =~= definitions(log.take(0)));
    while i < events.len()
        invariant
            i <= events@.len(),
            log == event_views(events@),
            defs_at(events@, nodes@) == definitions(log.take(i as int)),
            forall|k: int|
                0 <= k < nodes@.len() ==> (#[trigger] nodes@[k]) < i
                    && events@[nodes@[k] as int]@.event_id is Some,
        decreases events@.len() - i,
    {
        let event: &NormalizedEvent = &events[i];
        let ghost defs = defs_at(events@, nodes@);
        assert(log.take(i as int + 1).drop_last() =~= log.take(i as int));
        assert(log.take(i as int + 1).last() == event@);
        if event.event_id.is_some() {
            let mut p: usize = 0;
            let mut standing: Standing = Standing::After;
            while p < nodes.len() && standing == Standing::After
                invariant
                    p <= nodes@.len(),
                    i < events@.len(),
                    *event == events@[i as int],
                    event@.event_id is Some,
                    defs == defs_at(events@, nodes@),
                    forall|k: int|
                        0 <= k < nodes@.len() ==> (#[trigger] nodes@[k]) < i
                            && events@[nodes@[k] as int]@.event_id is Some,
                    forall|j: int|
                        0 <= j < p ==> key_standing(key_of(event@), key_of(#[trigger] defs[j])) is After,
                    standing is After || (p < nodes@.len() && standing == key_standing(
                        key_of(event@),
                        key_of(defs[p as int]),
                    )),
                decreases (nodes@.len() - p) + if standing is After {
                    1nat
                } else {
                    0nat
                },
            {
                let other: &NormalizedEvent = &events[nodes[p]];
                assert(defs[p as int] == other@);
                standing = compare_keys(event, other);
                if standing == Standing::After {
                    p += 1;
                }
            }
            proof {
                insertion_place(defs, event@, p as int);
            }
            if standing != Standing::Same {
                let ghost before = nodes@;
                nodes.insert(p, i);
                assert(defs_at(events@, nodes@) =~= defs.insert(p as int, event@));
                assert forall|k: int| 0 <= k < nodes@.len() implies (#[trigger] nodes@[k]) < i + 1
                    && events@[nodes@[k] as int]@.event_id is Some by {
                    if k < p {
                        assert(nodes@[k] == before[k]);
                    } else if k > p {
                        assert(nodes@[k] == before[k - 1]);
                    }
                }
            }
        }
        i += 1;
    }
    assert(log.take(i as int) =~= log);
    nodes
}

pub(crate) proof fn kids_are_children(g: Lineage, p: int, n: int)
    requires
        n <= g.links.len(),
    ensures
        forall|k: int|
            0 <= k < g.kids_below(p, n).len() ==> 0 <= (#[trigger] g.kids_below(p, n)[k]) < n
                && g.links[g.kids_below(p, n)[k]] == ParentLink::At(p),
    decreases n,
{
    if n > 0 {
        kids_are_children(g, p, n - 1);
    }
}

pub(crate) proof fn children_are_kids(g: Lineage, p: int, n: int, c: int)
    requires
        n <= g.links.len(),
        0 <= c < n,
        g.links[c] == ParentLink::At(p),
    ensures
        g.kids_below(p, n).contains(c),
    decreases n,
{
    if c == n - 1 {
        assert(g.kids_below(p, n).last() == c);
    } else {
        children_are_kids(g, p, n - 1, c);
        let k = g.kids_below(p, n - 1).index_of(c);
        assert(g.kids_below(p, n)[k] == c);
    }
}

proof fn kids_are_distinct(g: Lineage, p: int, n: int)
    requires
        n <= g.links.len(),
    ensures
        g.kids_below(p, n).no_duplicates(),
    decreases n,
{
    if n > 0 {
        kids_are_distinct(g, p, n - 1);
        kids_are_children(g, p, n - 1);
    }
}

proof fn without_is_a_filter(list: Seq<int>, excluded: int)
    requires
        list.no_duplicates(),
    ensures
        without(list, excluded).no_duplicates(),
        forall|k: int|
            0 <= k < without(list, excluded).len() ==> list.contains(
                #[trigger] without(list, excluded)[k],
            ) && without(list, excluded)[k] != excluded,
    decreases list.len(),
{
    if list.len() > 0 {
        let front = list.drop_last();
        without_is_a_filter(front, excluded);
        let kept = without(list, excluded);
        assert forall|k: int| 0 <= k < kept.len() implies list.contains(#[trigger] kept[k])
            && kept[k] != excluded by {
            if k < without(front, excluded).len() {
                assert(front.contains(without(front, excluded)[k]));
                let i = front.index_of(kept[k]);
                assert(list[i] == kept[k]);
            } else {
                assert(list.last() == kept[k]);
            }
        }
        assert(kept.no_duplicates()) by {
            assert forall|i: int, j: int| 0 <= i < j < kept.len() implies kept[i] != kept[j] by {
                if j == kept.len() - 1 && list.last() != excluded {
                    assert(front.contains(without(front, excluded)[i]));
                    let m = front.index_of(kept[i]);
                    assert(list[m] == kept[i]);
                }
            }
        }
    }
}

impl<'a> Index<'a> {
    spec fn graph(self) -> Lineage {
        lineage_of(event_views(self.events@), response_pairs(self.responses@))
    }

    spec fn wf_nodes(self) -> bool {
        &&& defs_at(self.events@, self.nodes@) == self.graph().defs
        &&& forall|k: int|
            0 <= k < self.nodes@.len() ==> (#[trigger] self.nodes@[k]) < self.events@.len()
                && self.events@[self.nodes@[k] as int]@ == self.graph().defs[k]
                && self.graph().defs[k].event_id is Some
        &&& self.nodes@.len() == self.graph().size()
        &&& self.graph().links.len() == self.graph().size()
    }

    spec fn wf(self) -> bool {
        &&& self.wf_nodes()
        &&& self.links@.len() == self.graph().size()
        &&& forall|k: int|
            0 <= k < self.links@.len() ==> (#[trigger] self.links@[k])@ == self.graph().links[k]
        &&& forall|k: int|
            0 <= k < self.links@.len() && (#[trigger] self.links@[k]) is At ==> self.links@[k]->At_0
                < self.nodes@.len()
        &&& self.kids@.len() == self.graph().size()
        &&& forall|p: int|
            0 <= p < self.kids@.len() ==> places((#[trigger] self.kids@[p])@)
                == self.graph().kids(p)
        &&& forall|p: int, k: int|
            0 <= p < self.kids@.len() && 0 <= k < self.kids@[p]@.len()
                ==> (#[trigger] self.kids@[p]@[k]) < self.nodes@.len()
    }

    fn event(&self, p: usize) -> (e: &NormalizedEvent)
        requires
            self.wf_nodes(),
            p < self.nodes@.len(),
        ensures
            e@ == self.graph().defs[p as int],
            e@.event_id is Some,
    {
        &self.events[self.nodes[p]]
    }

    /// Resolve the parent of an event.
    fn parent(&self, e: &NormalizedEvent) -> (link: Link)
        requires
            self.wf_nodes(),
        ensures
            link@ == parent_link(self.graph().defs, e@),
            link is At ==> link->At_0 < self.nodes@.len(),
    {
        let ghost defs = self.graph().defs;
        let parent: &String = match &e.parent_id {
            None => {
                return Link::Root;
            },
            Some(parent) => parent,
        };
        let ghost key = EventKey {
            agent: e@.agent_id,
            branch: e@.branch_id,
            event: parent@,
        };
        let mut named: usize = 0;
        let mut first: usize = 0;
        let mut p: usize = 0;
        while p < self.nodes.len()
            invariant
                p <= self.nodes@.len(),
                self.wf_nodes(),
                defs == self.graph().defs,
                e@.parent_id == Some(parent@),
                key == (EventKey { agent: e@.agent_id, branch: e@.branch_id, event: parent@ }),
                named <= p,
                forall|q: int| 0 <= q < p ==> key_of(#[trigger] defs[q]) != key,
                named == 0 ==> forall|q: int|
                    0 <= q < p ==> !(#[trigger] defs[q]).is_named(e@.agent_id, parent@),
                named > 0 ==> first < p && defs[first as int].is_named(e@.agent_id, parent@),
                named == 1 ==> forall|q: int|
                    0 <= q < p && (#[trigger] defs[q]).is_named(e@.agent_id, parent@) ==> q == first,
                named > 1 ==> exists|q: int|
                    0 <= q < p && q != first && (#[trigger] defs[q]).is_named(
                        e@.agent_id,
                        parent@,
                    ),
            decreases self.nodes@.len() - p,
        {
            let other: &NormalizedEvent = self.event(p);
            assert(other@ == defs[p as int]);
            let same_id: bool = match &other.event_id {
                Some(id) => same_text(id.as_str(), parent.as_str()),
                None => false,
            };
            if same_id && same_optional(&other.agent_id, &e.agent_id) {
                assert(defs[p as int].is_named(e@.agent_id, parent@));
                if same_optional(&other.branch_id, &e.branch_id) {
                    assert(key_of(defs[p as int]) == key);
                    assert(is_place_of(defs, key, p as int));
                    let ghost c = choose|c: int| is_place_of(defs, key, c);
                    assert(c == p) by {
                        if c < p {
                            assert(key_of(defs[c]) != key);
                        }
                        if c > p {
                            assert(key_of(defs[p as int]) != key);
                        }
                    }
                    return Link::At(p);
                }
                if named == 0 {
                    first = p;
                }
                named += 1;
            }
            p += 1;
        }
        assert(!exists|c: int| is_place_of(defs, key, c));
        if named == 0 {
            assert(!exists|c: int| only_named(defs, e@.agent_id, parent@, c));
            Link::Missing
        } else if named == 1 {
            assert(only_named(defs, e@.agent_id, parent@, first as int));
            Link::At(first)
        } else {
            assert(defs[first as int].is_named(e@.agent_id, parent@));
            assert(!exists|c: int| only_named(defs, e@.agent_id, parent@, c)) by {
                let q = choose|q: int|
                    0 <= q < p && q != first && (#[trigger] defs[q]).is_named(
                        e@.agent_id,
                        parent@,
                    );
                assert(defs[q].is_named(e@.agent_id, parent@));
            }
            Link::Ambiguous
        }
    }

    fn new(events: &'a Vec<NormalizedEvent>, responses: &'a Vec<ResponseFragment>) -> (index: Self)
        ensures
            index.wf(),
            index.events == events,
            index.responses == responses,
    {
        let nodes: Vec<usize> = index_definitions(events);
        let mut index = Index { events, responses, nodes, links: Vec::new(), kids: Vec::new() };
        let ghost g = index.graph();
        let n: usize = index.nodes.len();
        assert forall|k: int| 0 <= k < index.nodes@.len() implies (#[trigger] index.nodes@[k])
            < index.events@.len() && index.events@[index.nodes@[k] as int]@ == index.graph().defs[k]
            && index.graph().defs[k].event_id is Some by {
            assert(defs_at(events@, index.nodes@)[k] == events@[index.nodes@[k] as int]@);
        }
        let mut links: Vec<Link> = Vec::new();
        let mut i: usize = 0;
        while i < n
            invariant
                i <= n,
                n == index.nodes@.len(),
                index.wf_nodes(),
                g == index.graph(),
                links@.len() == i,
                forall|k: int| 0 <= k < i ==> (#[trigger] links@[k])@ == g.links[k],
                forall|k: int|
                    0 <= k < i && (#[trigger] links@[k]) is At ==> links@[k]->At_0 < n,
            decreases n - i,
        {
            let link: Link = index.parent(index.event(i));
            links.push(link);
            i += 1;
        }
        let mut kids: Vec<Vec<usize>> = Vec::new();
        i = 0;
        while i < n
            invariant
                i <= n,
                kids@.len() == i,
                forall|p: int| 0 <= p < i ==> (#[trigger] kids@[p])@.len() == 0,
            decreases n - i,
        {
            kids.push(Vec::new());
            i += 1;
        }
        i = 0;
        assert forall|p: int| 0 <= p < n implies places((#[trigger] kids@[p])@) == g.kids_below(
            p,
            0,
        ) by {
            assert(places(kids@[p]@) =~= g.kids_below(p, 0));
        }
        while i < n
            invariant
                i <= n,
                n == g.size(),
                g == index.graph(),
                links@.len() == n,
                kids@.len() == n,
                g.links.len() == n,
                forall|k: int| 0 <= k < n ==> (#[trigger] links@[k])@ == g.links[k],
                forall|k: int|
                    0 <= k < n && (#[trigger] links@[k]) is At ==> links@[k]->At_0 < n,
                forall|p: int|
                    0 <= p < n ==> places((#[trigger] kids@[p])@) == g.kids_below(p, i as int),
                forall|p: int, k: int|
                    0 <= p < n && 0 <= k < kids@[p]@.len() ==> (#[trigger] kids@[p]@[k]) < i,
            decreases n - i,
        {
            let ghost before = kids@;
            assert(links@[i as int]@ == g.links[i as int]);
            match links[i] {
                Link::At(p) => {
                    kids[p].push(i);
                    assert(places(kids@[p as int]@) =~= places(before[p as int]@).push(i as int));
                    assert forall|q: int| 0 <= q < n implies places((#[trigger] kids@[q])@)
                        == g.kids_below(q, i + 1) by {
                        if q != p {
                            assert(kids@[q] == before[q]);
                            assert(g.links[i as int] != ParentLink::At(q));
                        }
                    }
                    assert forall|q: int, k: int|
                        0 <= q < n && 0 <= k < kids@[q]@.len() implies (#[trigger] kids@[q]@[k])
                        < i + 1 by {
                        if q != p {
                            assert(kids@[q] == before[q]);
                            assert(before[q]@[k] < i);
                        } else if k < before[p as int]@.len() {
                            assert(before[p as int]@[k] < i);
                        }
                    }
                },
                _ => {},
            }
            i += 1;
        }
        index.links = links;
        index.kids = kids;
        assert(index.graph() == g);
        index
    }
}

/// The number of places not yet marked.
spec fn unmarked(marks: Seq<bool>) -> nat
    decreases marks.len(),
{
    if marks.len() == 0 {
        0
    } else {
        unmarked(marks.drop_last()) + if marks.last() {
            0nat
        } else {
            1nat
        }
    }
}

proof fn marking_lowers(marks: Seq<bool>, i: int)
    requires
        0 <= i < marks.len(),
        !marks[i],
    ensures
        unmarked(marks.update(i, true)) + 1 == unmarked(marks),
    decreases marks.len(),
{
    let marked = marks.update(i, true);
    if i == marks.len() - 1 {
        assert(marked.drop_last() =~= marks.drop_last());
    } else {
        assert(marked.drop_last() =~= marks.drop_last().update(i, true));
        marking_lowers(marks.drop_last(), i);
    }
}

impl Lineage {
    proof fn deeper_dead_end(self, i: int, depth: nat, more: nat)
        requires
            self.dead_end_within(i, depth),
            depth <= more,
        ensures
            self.dead_end_within(i, more),
        decreases depth,
    {
        assert forall|k: int| 0 <= k < self.kids(i).len() implies self.dead_end_within(
            #[trigger] self.kids(i)[k],
            (more - 1) as nat,
        ) by {
            assert(self.dead_end_within(self.kids(i)[k], (depth - 1) as nat));
            self.deeper_dead_end(self.kids(i)[k], (depth - 1) as nat, (more - 1) as nat);
        }
    }

    /// A bound on the depth of the first `n` children, all of them dead ends.
    proof fn common_depth(self, i: int, n: int) -> (depth: nat)
        requires
            0 <= n <= self.kids(i).len(),
            forall|k: int| 0 <= k < n ==> self.dead_end(#[trigger] self.kids(i)[k]),
        ensures
            forall|k: int| 0 <= k < n ==> self.dead_end_within(#[trigger] self.kids(i)[k], depth),
        decreases n,
    {
        if n == 0 {
            0
        } else {
            let first = self.common_depth(i, n - 1);
            let last = self.kids(i)[n - 1];
            assert(self.dead_end(last));
            let own = choose|d: nat| self.dead_end_within(last, d);
            let depth = if first < own {
                own
            } else {
                first
            };
            assert forall|k: int| 0 <= k < n implies self.dead_end_within(
                #[trigger] self.kids(i)[k],
                depth,
            ) by {
                if k == n - 1 {
                    self.deeper_dead_end(last, own, depth);
                } else {
                    self.deeper_dead_end(self.kids(i)[k], first, depth);
                }
            }
            depth
        }
    }

    pub(crate) proof fn dead_end_above(self, i: int)
        requires
            self.defs[i].carries_no_conversation(),
            forall|k: int|
                0 <= k < self.kids(i).len() ==> self.dead_end(#[trigger] self.kids(i)[k]),
        ensures
            self.dead_end(i),
    {
        let depth = self.common_depth(i, self.kids(i).len() as int);
        assert forall|k: int| 0 <= k < self.kids(i).len() implies self.dead_end_within(
            #[trigger] self.kids(i)[k],
            depth,
        ) by {
            assert(self.dead_end_within(self.kids(i)[k], depth));
        }
        assert(self.dead_end_within(i, depth + 1));
    }

    /// Marks that no record can extend hold every dead end.
    proof fn closed_marks_hold_dead_ends(self, marks: Seq<bool>, i: int, depth: nat)
        requires
            marks.len() == self.size(),
            self.links.len() == self.size(),
            0 <= i < self.size(),
            self.dead_end_within(i, depth),
            forall|j: int|
                0 <= j < self.size() && self.defs[j].carries_no_conversation() && self.all_marked(
                    marks,
                    j,
                ) ==> #[trigger] marks[j],
        ensures
            marks[i],
        decreases depth,
    {
        assert(self.all_marked(marks, i)) by {
            assert forall|k: int| 0 <= k < self.kids(i).len() implies marks[(
            #[trigger] self.kids(i)[k])] by {
                kids_are_children(self, i, self.size());
                assert(self.dead_end_within(self.kids(i)[k], (depth - 1) as nat));
                self.closed_marks_hold_dead_ends(marks, self.kids(i)[k], (depth - 1) as nat);
            }
        }
    }

    spec fn all_marked(self, marks: Seq<bool>, i: int) -> bool {
        forall|k: int| 0 <= k < self.kids(i).len() ==> marks[(#[trigger] self.kids(i)[k])]
    }
}

fn carries_no_conversation(event: &NormalizedEvent) -> (r: bool)
    ensures
        r == event@.carries_no_conversation(),
{
    event.role == Role::System && event.kind == EventKind::Message && event.tool.is_none()
}

fn answers_own_call(result: &NormalizedEvent, call: &NormalizedEvent) -> (r: bool)
    ensures
        r == result@.answers_own_call(call@),
{
    result.kind == EventKind::ToolResult && call.kind == EventKind::ToolInvocation
        && result.shares_call_with(call)
}

fn matches_target(event: &NormalizedEvent, target: &BranchResolutionTarget) -> (r: bool)
    ensures
        r == target@.admits(event@),
{
    let agent: bool = match &target.target_agent_id {
        Some(_) => same_optional(&event.agent_id, &target.target_agent_id),
        None => true,
    };
    let branch: bool = match &target.target_branch_id {
        Some(_) => same_optional(&event.branch_id, &target.target_branch_id),
        None => true,
    };
    agent && branch
}

impl<'a> Index<'a> {
    /// Are all children of `p` marked?
    fn kids_marked(&self, marks: &Vec<bool>, p: usize) -> (r: bool)
        requires
            self.wf(),
            marks@.len() == self.nodes@.len(),
            p < self.nodes@.len(),
        ensures
            r == self.graph().all_marked(marks@, p as int),
    {
        let ghost g = self.graph();
        let mut k: usize = 0;
        assert(places(self.kids@[p as int]@) == g.kids(p as int));
        while k < self.kids[p].len()
            invariant
                self.wf(),
                g == self.graph(),
                marks@.len() == self.nodes@.len(),
                p < self.nodes@.len(),
                places(self.kids@[p as int]@) == g.kids(p as int),
                k <= self.kids@[p as int]@.len(),
                forall|j: int| 0 <= j < k ==> marks@[(#[trigger] g.kids(p as int)[j])],
            decreases self.kids@[p as int]@.len() - k,
        {
            let c: usize = self.kids[p][k];
            assert(g.kids(p as int)[k as int] == c);
            if !marks[c] {
                return false;
            }
            k += 1;
        }
        true
    }

    /// Mark the dead ends, generation by generation.
    fn dead_ends(&self) -> (marks: Vec<bool>)
        requires
            self.wf(),
        ensures
            marks@.len() == self.nodes@.len(),
            forall|i: int|
                0 <= i < marks@.len() ==> (#[trigger] marks@[i]) == self.graph().dead_end(i),
    {
        let ghost g = self.graph();
        let n: usize = self.nodes.len();
        let mut marks: Vec<bool> = Vec::new();
        let mut i: usize = 0;
        while i < n
            invariant
                i <= n,
                marks@.len() == i,
                forall|j: int| 0 <= j < i ==> !#[trigger] marks@[j],
            decreases n - i,
        {
            marks.push(false);
            i += 1;
        }
        let mut changed: bool = true;
        while changed
            invariant
                self.wf(),
                g == self.graph(),
                n == self.nodes@.len(),
                marks@.len() == n,
                forall|j: int| 0 <= j < n && #[trigger] marks@[j] ==> g.dead_end(j),
                !changed ==> forall|j: int|
                    0 <= j < n && g.defs[j].carries_no_conversation() && g.all_marked(marks@, j)
                        ==> #[trigger] marks@[j],
            decreases unmarked(marks@) + if changed {
                1nat
            } else {
                0nat
            },
        {
            changed = false;
            let ghost start = marks@;
            i = 0;
            while i < n
                invariant
                    self.wf(),
                    g == self.graph(),
                    n == self.nodes@.len(),
                    i <= n,
                    marks@.len() == n,
                    start.len() == n,
                    forall|j: int| 0 <= j < n && #[trigger] marks@[j] ==> g.dead_end(j),
                    changed ==> unmarked(marks@) < unmarked(start),
                    !changed ==> marks@ == start,
                    !changed ==> forall|j: int|
                        0 <= j < i && g.defs[j].carries_no_conversation() && g.all_marked(marks@, j)
                            ==> #[trigger] marks@[j],
                decreases n - i,
            {
                let notice: bool = carries_no_conversation(self.event(i));
                if !marks[i] && notice && self.kids_marked(&marks, i) {
                    proof {
                        kids_are_children(g, i as int, g.size());
                        assert forall|k: int| 0 <= k < g.kids(i as int).len() implies g.dead_end(
                            #[trigger] g.kids(i as int)[k],
                        ) by {
                            assert(marks@[g.kids(i as int)[k]]);
                        }
                        g.dead_end_above(i as int);
                        marking_lowers(marks@, i as int);
                    }
                    let ghost before = marks@;
                    marks.set(i, true);
                    assert(marks@ =~= before.update(i as int, true));
                    changed = true;
                }
                i += 1;
            }
        }
        assert forall|j: int| 0 <= j < marks@.len() implies (#[trigger] marks@[j]) == g.dead_end(
            j,
        ) by {
            if g.dead_end(j) {
                let depth = choose|d: nat| g.dead_end_within(j, d);
                g.closed_marks_hold_dead_ends(marks@, j, depth);
            }
        }
        marks
    }

    /// The number of unmarked places among `list[..upto]`.
    fn count_surviving(&self, dead: &Vec<bool>, list: &Vec<usize>) -> (count: usize)
        requires
            self.wf(),
            dead@.len() == self.nodes@.len(),
            forall|i: int| 0 <= i < dead@.len() ==> (#[trigger] dead@[i]) == self.graph().dead_end(i),
            forall|k: int| 0 <= k < list@.len() ==> (#[trigger] list@[k]) < dead@.len(),
        ensures
            count == self.graph().surviving(places(list@)),
    {
        let ghost g = self.graph();
        let ghost all = places(list@);
        let mut count: usize = 0;
        let mut k: usize = 0;
        assert(all.take(0) =~= Seq::empty());
        while k < list.len()
            invariant
                k <= list@.len(),
                count <= k,
                g == self.graph(),
                all == places(list@),
                dead@.len() == self.nodes@.len(),
                forall|i: int| 0 <= i < dead@.len() ==> (#[trigger] dead@[i]) == g.dead_end(i),
                forall|k: int| 0 <= k < list@.len() ==> (#[trigger] list@[k]) < dead@.len(),
                count == g.surviving(all.take(k as int)),
            decreases list@.len() - k,
        {
            assert(all.take(k as int + 1).drop_last() =~= all.take(k as int));
            assert(all.take(k as int + 1).last() == list@[k as int]);
            if !dead[list[k]] {
                count += 1;
            }
            k += 1;
        }
        assert(all.take(k as int) =~= all);
        count
    }

    /// The side results among the places of `list` that lie below `limit`.
    fn count_marked_below(&self, marks: &Vec<bool>, list: &Vec<usize>, limit: usize) -> (count: usize)
        requires
            forall|k: int| 0 <= k < list@.len() ==> (#[trigger] list@[k]) < marks@.len(),
        ensures
            count == marked_below(marks@, places(list@), limit as int),
    {
        let ghost all = places(list@);
        let mut count: usize = 0;
        let mut k: usize = 0;
        assert(all.take(0) =~= Seq::empty());
        while k < list.len()
            invariant
                k <= list@.len(),
                count <= k,
                all == places(list@),
                forall|k: int| 0 <= k < list@.len() ==> (#[trigger] list@[k]) < marks@.len(),
                count == marked_below(marks@, all.take(k as int), limit as int),
            decreases list@.len() - k,
        {
            assert(all.take(k as int + 1).drop_last() =~= all.take(k as int));
            assert(all.take(k as int + 1).last() == list@[k as int]);
            if list[k] < limit && marks[list[k]] {
                count += 1;
            }
            k += 1;
        }
        assert(all.take(k as int) =~= all);
        count
    }

    fn side_results(&self, dead: &Vec<bool>) -> (marks: Vec<bool>)
        requires
            self.wf(),
            dead@.len() == self.nodes@.len(),
            forall|i: int| 0 <= i < dead@.len() ==> (#[trigger] dead@[i]) == self.graph().dead_end(i),
        ensures
            marks@.len() == self.nodes@.len(),
            forall|i: int|
                0 <= i < marks@.len() ==> (#[trigger] marks@[i]) == self.graph().side_result(i),
    {
        let ghost g = self.graph();
        let mut marks: Vec<bool> = Vec::new();
        let mut i: usize = 0;
        while i < self.nodes.len()
            invariant
                self.wf(),
                g == self.graph(),
                i <= self.nodes@.len(),
                dead@.len() == self.nodes@.len(),
                forall|j: int| 0 <= j < dead@.len() ==> (#[trigger] dead@[j]) == g.dead_end(j),
                marks@.len() == i,
                forall|j: int| 0 <= j < i ==> (#[trigger] marks@[j]) == g.side_result(j),
            decreases self.nodes@.len() - i,
        {
            assert(self.links@[i as int]@ == g.links[i as int]);
            proof {
                kids_are_children(g, i as int, g.size());
            }
            let side: bool = match self.links[i] {
                Link::At(p) => !dead[i] && answers_own_call(self.event(i), self.event(p))
                    && self.kids_marked(dead, i),
                _ => false,
            };
            assert(side == g.side_result(i as int)) by {
                assert forall|k: int| 0 <= k < g.kids(i as int).len() implies dead@[(
                #[trigger] g.kids(i as int)[k])] == g.dead_end(g.kids(i as int)[k]) by {}
            }
            marks.push(side);
            i += 1;
        }
        marks
    }

    fn set_aside(&self) -> (marks: Vec<bool>)
        requires
            self.wf(),
        ensures
            marks@.len() == self.nodes@.len(),
            forall|i: int|
                0 <= i < marks@.len() ==> (#[trigger] marks@[i]) == self.graph().set_aside(i),
    {
        let ghost g = self.graph();
        let dead: Vec<bool> = self.dead_ends();
        let side: Vec<bool> = self.side_results(&dead);
        let mut marks: Vec<bool> = Vec::new();
        let mut i: usize = 0;
        while i < self.nodes.len()
            invariant
                self.wf(),
                g == self.graph(),
                i <= self.nodes@.len(),
                dead@.len() == self.nodes@.len(),
                side@.len() == self.nodes@.len(),
                forall|j: int| 0 <= j < dead@.len() ==> (#[trigger] dead@[j]) == g.dead_end(j),
                forall|j: int| 0 <= j < side@.len() ==> (#[trigger] side@[j]) == g.side_result(j),
                marks@.len() == i,
                forall|j: int| 0 <= j < i ==> (#[trigger] marks@[j]) == g.set_aside(j),
            decreases self.nodes@.len() - i,
        {
            assert(self.links@[i as int]@ == g.links[i as int]);
            let beside: bool = if side[i] {
                match self.links[i] {
                    Link::At(p) => {
                        assert(places(self.kids@[p as int]@) == g.kids(p as int));
                        assert forall|k: int| 0 <= k < self.kids@[p as int]@.len() implies (
                        #[trigger] self.kids@[p as int]@[k]) < self.nodes@.len() by {}
                        let surviving: usize = self.count_surviving(&dead, &self.kids[p]);
                        let all: usize = self.count_marked_below(
                            &side,
                            &self.kids[p],
                            self.nodes.len(),
                        );
                        let earlier: usize = self.count_marked_below(&side, &self.kids[p], i);
                        proof {
                            g.marked_side_results(side@, p as int, g.size(), g.size());
                            g.marked_side_results(side@, p as int, g.size(), i as int);
                        }
                        surviving > all && surviving - all > earlier
                    },
                    _ => false,
                }
            } else {
                false
            };
            marks.push(dead[i] || beside);
            i += 1;
        }
        marks
    }
}

/// The marked places among `list` that lie below `limit`.
spec fn marked_below(marks: Seq<bool>, list: Seq<int>, limit: int) -> nat
    decreases list.len(),
{
    if list.len() == 0 {
        0
    } else {
        marked_below(marks, list.drop_last(), limit) + if list.last() < limit && marks[list.last()] {
            1nat
        } else {
            0nat
        }
    }
}

impl Lineage {
    /// Counting marked children below a limit counts the side results among
    /// the children up to that limit.
    proof fn marked_side_results(self, side: Seq<bool>, p: int, n: int, limit: int)
        requires
            0 <= n <= self.size(),
            0 <= limit <= self.size(),
            side.len() == self.size(),
            self.links.len() == self.size(),
            forall|j: int| 0 <= j < side.len() ==> (#[trigger] side[j]) == self.side_result(j),
        ensures
            marked_below(side, self.kids_below(p, n), limit) == self.side_results(
                self.kids_below(
                    p,
                    if limit < n {
                        limit
                    } else {
                        n
                    },
                ),
            ),
        decreases n,
    {
        if n > 0 {
            self.marked_side_results(side, p, n - 1, limit);
            let kids = self.kids_below(p, n);
            if self.links[n - 1] == ParentLink::At(p) {
                assert(kids.drop_last() =~= self.kids_below(p, n - 1));
                assert(kids.last() == n - 1);
            }
            if limit >= n {
                assert(side[n - 1] == self.side_result(n - 1));
            }
        }
    }
}

proof fn lookup_first(pairs: Seq<(Seq<char>, Seq<char>)>, key: Seq<char>, i: int)
    requires
        0 <= i <= pairs.len(),
        forall|j: int| 0 <= j < i ==> (#[trigger] pairs[j]).0 != key,
    ensures
        i < pairs.len() && pairs[i].0 == key ==> lookup(pairs, key) == Some(pairs[i].1),
        i == pairs.len() ==> lookup(pairs, key) is None,
    decreases i,
{
    if i > 0 {
        let rest = pairs.drop_first();
        assert forall|j: int| 0 <= j < i - 1 implies (#[trigger] rest[j]).0 != key by {
            assert(rest[j] == pairs[j + 1]);
        }
        if i < pairs.len() {
            assert(rest[i - 1] == pairs[i]);
        }
        assert(pairs[0].0 != key);
        lookup_first(rest, key, i - 1);
    }
}

impl Lineage {
    /// A walk in progress: no node twice, and every node but the head below a
    /// node that the walk has passed.
    spec fn visits(self, head: int, nodes: Seq<int>, next: int) -> bool {
        &&& nodes.len() > 0
        &&& nodes[0] == head
        &&& nodes.no_duplicates()
        &&& forall|k: int| 0 <= k < nodes.len() ==> 0 <= (#[trigger] nodes[k]) < self.size()
        &&& forall|k: int|
            1 <= k < nodes.len() ==> exists|j: int|
                0 <= j < next && j < nodes.len() && self.links[(#[trigger] nodes[k])]
                    == ParentLink::At(#[trigger] nodes[j])
    }

    proof fn visits_are_bounded(self, head: int, nodes: Seq<int>, next: int)
        requires
            self.visits(head, nodes, next),
        ensures
            nodes.len() <= self.size(),
    {
        nodes.unique_seq_to_set();
        vstd::set_lib::lemma_int_range(0, self.size());
        assert(nodes.to_set().subset_of(vstd::set_lib::set_int_range(0, self.size())));
        vstd::set_lib::lemma_len_subset(
            nodes.to_set(),
            vstd::set_lib::set_int_range(0, self.size()),
        );
    }

    proof fn visiting_on(self, head: int, nodes: Seq<int>, next: int)
        requires
            self.visits(head, nodes, next),
            0 <= next < nodes.len(),
            self.links.len() == self.size(),
        ensures
            self.visits(head, nodes + without(self.kids(nodes[next]), head), next + 1),
    {
        let p = nodes[next];
        let kids = self.kids(p);
        let added = without(kids, head);
        let more = nodes + added;
        kids_are_children(self, p, self.size());
        kids_are_distinct(self, p, self.size());
        without_is_a_filter(kids, head);
        assert forall|k: int| 0 <= k < added.len() implies 0 <= (#[trigger] added[k]) < self.size()
            && self.links[added[k]] == ParentLink::At(p) && added[k] != head && !nodes.contains(
            added[k],
        ) by {
            assert(kids.contains(added[k]));
            let i = kids.index_of(added[k]);
            assert(kids[i] == added[k]);
            if nodes.contains(added[k]) {
                let m = nodes.index_of(added[k]);
                assert(nodes[m] == added[k]);
                let j = choose|j: int|
                    0 <= j < next && j < nodes.len() && self.links[nodes[m]] == ParentLink::At(
                        #[trigger] nodes[j],
                    );
                assert(nodes[j] == p);
            }
        }
        assert forall|k: int| 1 <= k < more.len() implies exists|j: int|
            0 <= j < next + 1 && j < more.len() && self.links[(#[trigger] more[k])]
                == ParentLink::At(#[trigger] more[j]) by {
            if k < nodes.len() {
                let j = choose|j: int|
                    0 <= j < next && j < nodes.len() && self.links[nodes[k]] == ParentLink::At(
                        #[trigger] nodes[j],
                    );
                assert(more[j] == nodes[j]);
            } else {
                assert(more[k] == added[k - nodes.len()]);
                assert(more[next] == p);
            }
        }
        assert(more.no_duplicates()) by {
            assert forall|i: int, j: int| 0 <= i < j < more.len() implies more[i] != more[j] by {
                if j >= nodes.len() {
                    assert(more[j] == added[j - nodes.len()]);
                    if i < nodes.len() {
                        assert(nodes.contains(more[i]));
                    } else {
                        assert(more[i] == added[i - nodes.len()]);
                    }
                }
            }
        }
    }

    /// Walking on only appends.
    proof fn walk_extends(self, head: int, nodes: Seq<int>, next: int)
        ensures
            self.walk(head, nodes, next).len() >= nodes.len(),
            forall|k: int|
                0 <= k < nodes.len() ==> (#[trigger] self.walk(head, nodes, next)[k]) == nodes[k],
        decreases self.size() - next,
    {
        if next >= nodes.len() || next >= self.size() {
        } else {
            let more = nodes + without(self.kids(nodes[next]), head);
            self.walk_extends(head, more, next + 1);
            assert forall|k: int| 0 <= k < nodes.len() implies (#[trigger] self.walk(
                head,
                nodes,
                next,
            )[k]) == nodes[k] by {
                assert(more[k] == nodes[k]);
            }
        }
    }

    proof fn first_verdict_is_unique(self, nodes: Seq<int>, response: Seq<char>, k: int)
        requires
            self.is_first_verdict(nodes, response, k),
        ensures
            (choose|j: int| self.is_first_verdict(nodes, response, j)) == k,
    {
        let c = choose|j: int| self.is_first_verdict(nodes, response, j);
        if c < k {
            assert(self.verdict(nodes[c], response) is None);
        }
        if k < c {
            assert(self.verdict(nodes[k], response) is None);
        }
    }
}

/// A batch with the places of its nodes where it is answered.
enum Batch {
    Answered(Vec<usize>),
    Beyond,
    Incomplete,
}

impl<'a> Index<'a> {
    /// The provider response that a definition is a fragment of.
    fn response(&self, p: usize) -> (r: Option<&'a String>)
        requires
            self.wf(),
            p < self.nodes@.len(),
        ensures
            match r {
                Some(text) => self.graph().response_of(p as int) == Some(text@),
                None => self.graph().response_of(p as int) is None,
            },
    {
        let ghost pairs = response_pairs(self.responses@);
        let id: &String = match &self.event(p).event_id {
            Some(id) => id,
            None => {
                return None;
            },
        };
        let responses: &'a Vec<ResponseFragment> = self.responses;
        let mut i: usize = 0;
        while i < responses.len()
            invariant
                i <= responses@.len(),
                self.wf(),
                p < self.nodes@.len(),
                responses == self.responses,
                pairs == response_pairs(self.responses@),
                self.graph().defs[p as int].event_id == Some(id@),
                forall|j: int| 0 <= j < i ==> (#[trigger] pairs[j]).0 != id@,
            decreases responses@.len() - i,
        {
            assert(pairs[i as int].0 == responses@[i as int].event_id@);
            if same_text(responses[i].event_id.as_str(), id.as_str()) {
                proof {
                    lookup_first(pairs, id@, i as int);
                }
                return Some(&responses[i].response);
            }
            i += 1;
        }
        proof {
            lookup_first(pairs, id@, i as int);
        }
        None
    }

    fn is_fragment(&self, p: usize, response: &str) -> (r: bool)
        requires
            self.wf(),
            p < self.nodes@.len(),
        ensures
            r == self.graph().fragment(p as int, response@),
    {
        let event: &NormalizedEvent = self.event(p);
        if event.role == Role::Assistant && (event.kind == EventKind::ToolInvocation || event.kind
            == EventKind::Message) {
            match self.response(p) {
                Some(own) => same_text(own.as_str(), response),
                None => false,
            }
        } else {
            false
        }
    }

    /// What one node says about its batch: whether it decides, and whether it
    /// then lies beyond the batch.
    fn verdict(&self, p: usize, response: &str) -> (r: Option<bool>)
        requires
            self.wf(),
            p < self.nodes@.len(),
        ensures
            match r {
                Some(true) => self.graph().verdict(p as int, response@)
                    == Some(BatchVerdict::Beyond),
                Some(false) => self.graph().verdict(p as int, response@)
                    == Some(BatchVerdict::Incomplete),
                None => self.graph().verdict(p as int, response@) is None,
            },
    {
        let event: &NormalizedEvent = self.event(p);
        let has_call: bool = match &event.tool {
            Some(tool) => tool.call_id.is_some(),
            None => false,
        };
        if self.is_fragment(p, response) {
            if event.kind == EventKind::ToolInvocation && !has_call {
                Some(false)
            } else {
                None
            }
        } else if event.kind == EventKind::ToolResult {
            if has_call {
                None
            } else {
                Some(false)
            }
        } else if carries_no_conversation(event) {
            None
        } else {
            Some(true)
        }
    }

    fn same_call(&self, p: usize, q: usize) -> (r: bool)
        requires
            self.wf(),
            p < self.nodes@.len(),
            q < self.nodes@.len(),
        ensures
            r == (self.graph().defs[p as int].call_id() == self.graph().defs[q as int].call_id()),
    {
        let a: &NormalizedEvent = self.event(p);
        let b: &NormalizedEvent = self.event(q);
        let no_a: bool = match &a.tool {
            Some(tool) => tool.call_id.is_none(),
            None => true,
        };
        let no_b: bool = match &b.tool {
            Some(tool) => tool.call_id.is_none(),
            None => true,
        };
        (no_a && no_b) || a.shares_call_with(b)
    }

    /// Does the batch hold what node `p` needs from it?
    fn is_settled(&self, nodes: &Vec<usize>, p: usize, response: &str, fork: usize) -> (r: bool)
        requires
            self.wf(),
            p < self.nodes@.len(),
            fork < self.nodes@.len(),
            forall|k: int| 0 <= k < nodes@.len() ==> (#[trigger] nodes@[k]) < self.nodes@.len(),
        ensures
            r == self.graph().node_settled(
                places(nodes@),
                p as int,
                response@,
                self.graph().defs[fork as int].call_id(),
            ),
    {
        let ghost g = self.graph();
        let ghost all = places(nodes@);
        let ghost call = g.defs[p as int].call_id();
        let calls: bool = self.is_fragment(p, response) && self.event(p).kind
            == EventKind::ToolInvocation;
        let answers: bool = self.event(p).kind == EventKind::ToolResult;
        let mut has_answer: bool = false;
        let mut has_call: bool = false;
        let mut k: usize = 0;
        while k < nodes.len()
            invariant
                self.wf(),
                g == self.graph(),
                all == places(nodes@),
                p < self.nodes@.len(),
                call == g.defs[p as int].call_id(),
                k <= nodes@.len(),
                forall|k: int| 0 <= k < nodes@.len() ==> (#[trigger] nodes@[k]) < self.nodes@.len(),
                has_answer == exists|j: int|
                    0 <= j < k && g.defs[#[trigger] all[j]].kind == EventKind::ToolResult
                        && g.defs[all[j]].call_id() == call,
                has_call == exists|j: int|
                    0 <= j < k && g.calls(#[trigger] all[j], response@) && g.defs[all[j]].call_id()
                        == call,
            decreases nodes@.len() - k,
        {
            let q: usize = nodes[k];
            assert(all[k as int] == q);
            if self.same_call(p, q) {
                if self.event(q).kind == EventKind::ToolResult {
                    has_answer = true;
                }
                if self.event(q).kind == EventKind::ToolInvocation && self.is_fragment(q, response) {
                    has_call = true;
                }
            }
            k += 1;
        }
        assert(has_answer == g.has_answer(all, call));
        assert(has_call == g.has_call(all, response@, call));
        (!calls || has_answer) && (!answers || has_call || self.same_call(fork, p))
    }

    /// Classify the subtree at `head` below the tool call at `fork`.
    fn batch(&self, head: usize, response: &str, fork: usize) -> (r: Batch)
        requires
            self.wf(),
            head < self.nodes@.len(),
            fork < self.nodes@.len(),
        ensures
            ({
                let verdict = self.graph().batch(
                    head as int,
                    response@,
                    self.graph().defs[fork as int].call_id(),
                );
                match r {
                    Batch::Answered(nodes) => verdict is Answered && places(nodes@)
                        == self.graph().subtree(head as int) && forall|k: int|
                        0 <= k < nodes@.len() ==> (#[trigger] nodes@[k]) < self.nodes@.len(),
                    Batch::Beyond => verdict is Beyond,
                    Batch::Incomplete => verdict is Incomplete,
                }
            }),
    {
        let ghost g = self.graph();
        let ghost tree = g.subtree(head as int);
        let ghost own_call = g.defs[fork as int].call_id();
        let mut nodes: Vec<usize> = Vec::new();
        nodes.push(head);
        assert(places(nodes@) =~= seq![head as int]);
        let mut next: usize = 0;
        while next < nodes.len() && next < self.nodes.len()
            invariant
                self.wf(),
                g == self.graph(),
                tree == g.subtree(head as int),
                next <= nodes@.len(),
                next <= self.nodes@.len(),
                head < self.nodes@.len(),
                forall|k: int| 0 <= k < nodes@.len() ==> (#[trigger] nodes@[k]) < self.nodes@.len(),
                tree == g.walk(head as int, places(nodes@), next as int),
                g.visits(head as int, places(nodes@), next as int),
                own_call == g.defs[fork as int].call_id(),
                forall|k: int|
                    0 <= k < next ==> g.verdict(#[trigger] tree[k], response@) is None,
            decreases self.nodes@.len() - next,
        {
            let p: usize = nodes[next];
            proof {
                g.walk_extends(head as int, places(nodes@), next as int);
                assert(places(nodes@)[next as int] == p);
                assert(tree[next as int] == p);
            }
            match self.verdict(p, response) {
                Some(beyond) => {
                    proof {
                        assert(g.is_first_verdict(tree, response@, next as int));
                        g.first_verdict_is_unique(tree, response@, next as int);
                    }
                    if beyond {
                        return Batch::Beyond;
                    } else {
                        return Batch::Incomplete;
                    }
                },
                None => {},
            }
            let ghost before = places(nodes@);
            let ghost kids = g.kids(p as int);
            assert(places(self.kids@[p as int]@) == kids);
            let mut k: usize = 0;
            assert(before + without(kids.take(0), head as int) =~= before);
            while k < self.kids[p].len()
                invariant
                    self.wf(),
                    g == self.graph(),
                    p < self.nodes@.len(),
                    k <= self.kids@[p as int]@.len(),
                    kids == places(self.kids@[p as int]@),
                    places(nodes@) == before + without(kids.take(k as int), head as int),
                    forall|k: int|
                        0 <= k < nodes@.len() ==> (#[trigger] nodes@[k]) < self.nodes@.len(),
                decreases self.kids@[p as int]@.len() - k,
            {
                let c: usize = self.kids[p][k];
                assert(self.kids@[p as int]@[k as int] < self.nodes@.len());
                assert(kids.take(k as int + 1).drop_last() =~= kids.take(k as int));
                assert(kids.take(k as int + 1).last() == c);
                if c != head {
                    let ghost old_nodes = places(nodes@);
                    nodes.push(c);
                    assert(places(nodes@) =~= old_nodes.push(c as int));
                    assert(places(nodes@) =~= before + without(
                        kids.take(k as int + 1),
                        head as int,
                    ));
                }
                k += 1;
            }
            assert(kids.take(k as int) =~= kids);
            proof {
                g.visiting_on(head as int, before, next as int);
            }
            next += 1;
        }
        proof {
            g.visits_are_bounded(head as int, places(nodes@), next as int);
        }
        assert(tree == places(nodes@));
        assert(!exists|k: int| g.is_first_verdict(tree, response@, k));
        let mut k: usize = 0;
        while k < nodes.len()
            invariant
                self.wf(),
                g == self.graph(),
                fork < self.nodes@.len(),
                own_call == g.defs[fork as int].call_id(),
                tree == places(nodes@),
                tree == g.subtree(head as int),
                k <= nodes@.len(),
                !exists|k: int| g.is_first_verdict(tree, response@, k),
                forall|k: int| 0 <= k < nodes@.len() ==> (#[trigger] nodes@[k]) < self.nodes@.len(),
                forall|j: int|
                    0 <= j < k ==> g.node_settled(tree, #[trigger] tree[j], response@, own_call),
            decreases nodes@.len() - k,
        {
            assert(tree[k as int] == nodes@[k as int]);
            if !self.is_settled(&nodes, nodes[k], response, fork) {
                assert(!g.batch_complete(tree, response@, own_call));
                return Batch::Incomplete;
            }
            k += 1;
        }
        Batch::Answered(nodes)
    }
}

impl<'a> Index<'a> {
    fn goes_on_at(&self, fork: usize, child: usize, response: &str) -> (r: bool)
        requires
            self.wf(),
            fork < self.nodes@.len(),
            child < self.nodes@.len(),
            self.graph().response_of(fork as int) == Some(response@),
        ensures
            r == self.graph().goes_on_at(fork as int, child as int),
    {
        match self.batch(child, response, fork) {
            Batch::Beyond => {
                let own: bool = match self.response(child) {
                    Some(text) => same_text(text.as_str(), response),
                    None => false,
                };
                own || answers_own_call(self.event(child), self.event(fork))
            },
            _ => false,
        }
    }

    /// The response of a tool call through which the conversation forks on.
    fn forks_on(&self, fork: usize) -> (r: Option<&'a String>)
        requires
            self.wf(),
            fork < self.nodes@.len(),
        ensures
            r is Some <==> self.graph().forks_on(fork as int),
            r is Some ==> self.graph().response_of(fork as int) == Some(r->0@),
    {
        let ghost g = self.graph();
        if self.event(fork).kind != EventKind::ToolInvocation {
            return None;
        }
        assert(places(self.kids@[fork as int]@) == g.kids(fork as int));
        if self.kids[fork].len() < 2 {
            return None;
        }
        let response: &'a String = match self.response(fork) {
            Some(response) => response,
            None => {
                return None;
            },
        };
        let mut k: usize = 0;
        while k < self.kids[fork].len()
            invariant
                self.wf(),
                g == self.graph(),
                fork < self.nodes@.len(),
                places(self.kids@[fork as int]@) == g.kids(fork as int),
                g.response_of(fork as int) == Some(response@),
                g.defs[fork as int].kind == EventKind::ToolInvocation,
                g.kids(fork as int).len() >= 2,
                k <= self.kids@[fork as int]@.len(),
                forall|j: int|
                    0 <= j < k ==> !g.goes_on_at(fork as int, #[trigger] g.kids(fork as int)[j]),
            decreases self.kids@[fork as int]@.len() - k,
        {
            let child: usize = self.kids[fork][k];
            assert(self.kids@[fork as int]@[k as int] < self.nodes@.len());
            assert(g.kids(fork as int)[k as int] == child);
            if self.goes_on_at(fork, child, response.as_str()) {
                return Some(response);
            }
            k += 1;
        }
        None
    }

    /// Mark everything below the answered side batches of every fork.
    fn mark_side_batches(&self, marks: &mut Vec<bool>)
        requires
            self.wf(),
            old(marks)@.len() == self.nodes@.len(),
        ensures
            final(marks)@.len() == old(marks)@.len(),
            forall|i: int|
                0 <= i < old(marks)@.len() ==> (#[trigger] final(marks)@[i]) == (old(marks)@[i]
                    || self.graph().in_side_batch(i)),
    {
        let ghost g = self.graph();
        let ghost start = marks@;
        let n: usize = self.nodes.len();
        let mut fork: usize = 0;
        while fork < n
            invariant
                self.wf(),
                g == self.graph(),
                n == self.nodes@.len(),
                fork <= n,
                start == old(marks)@,
                start.len() == n,
                marks@.len() == n,
                forall|i: int|
                    0 <= i < n ==> (#[trigger] marks@[i]) == (start[i] || g.batched_below(
                        i,
                        fork as int,
                        0,
                    )),
            decreases n - fork,
        {
            assert(places(self.kids@[fork as int]@) == g.kids(fork as int));
            let ghost at_fork = marks@;
            match self.forks_on(fork) {
                Some(response) => {
                    let mut k: usize = 0;
                    while k < self.kids[fork].len()
                        invariant
                            self.wf(),
                            g == self.graph(),
                            n == self.nodes@.len(),
                            fork < n,
                            start.len() == n,
                            marks@.len() == n,
                            g.forks_on(fork as int),
                            g.response_of(fork as int) == Some(response@),
                            places(self.kids@[fork as int]@) == g.kids(fork as int),
                            k <= self.kids@[fork as int]@.len(),
                            forall|i: int|
                                0 <= i < n ==> (#[trigger] marks@[i]) == (start[i]
                                    || g.batched_below(i, fork as int, k as int)),
                        decreases self.kids@[fork as int]@.len() - k,
                    {
                        let child: usize = self.kids[fork][k];
                        assert(self.kids@[fork as int]@[k as int] < self.nodes@.len());
                        assert(g.kids(fork as int)[k as int] == child);
                        let ghost before = marks@;
                        match self.batch(child, response.as_str(), fork) {
                            Batch::Answered(nodes) => {
                                let ghost tree = g.subtree(child as int);
                                assert(g.side_batch(fork as int, child as int));
                                let mut m: usize = 0;
                                while m < nodes.len()
                                    invariant
                                        self.wf(),
                                        n == self.nodes@.len(),
                                        m <= nodes@.len(),
                                        marks@.len() == n,
                                        before.len() == n,
                                        tree == places(nodes@),
                                        forall|k: int|
                                            0 <= k < nodes@.len() ==> (#[trigger] nodes@[k]) < n,
                                        forall|i: int|
                                            0 <= i < n ==> (#[trigger] marks@[i]) == (before[i]
                                                || tree.take(m as int).contains(i)),
                                    decreases nodes@.len() - m,
                                {
                                    let ghost prior = marks@;
                                    let p: usize = nodes[m];
                                    marks.set(p, true);
                                    assert(tree.take(m as int + 1) =~= tree.take(m as int).push(
                                        p as int,
                                    ));
                                    assert forall|i: int| 0 <= i < n implies (#[trigger] marks@[i])
                                        == (before[i] || tree.take(m as int + 1).contains(i)) by {
                                        if i == p {
                                            assert(tree.take(m as int + 1).last() == i);
                                        } else {
                                            assert(marks@[i] == prior[i]);
                                            if tree.take(m as int).contains(i) {
                                                let w = tree.take(m as int).index_of(i);
                                                assert(tree.take(m as int + 1)[w] == i);
                                            }
                                            if tree.take(m as int + 1).contains(i) {
                                                let w = tree.take(m as int + 1).index_of(i);
                                                assert(w < m);
                                                assert(tree.take(m as int)[w] == i);
                                            }
                                        }
                                    }
                                    m += 1;
                                }
                                assert(tree.take(m as int) =~= tree);
                            },
                            _ => {
                                assert(!g.side_batch(fork as int, child as int));
                            },
                        }
                        assert forall|i: int| 0 <= i < n implies (#[trigger] marks@[i]) == (start[i]
                            || g.batched_below(i, fork as int, k + 1)) by {
                            g.next_batch(i, fork as int, k as int);
                            assert(before[i] == (start[i] || g.batched_below(
                                i,
                                fork as int,
                                k as int,
                            )));
                        }
                        k += 1;
                    }
                    assert forall|i: int| 0 <= i < n implies (#[trigger] marks@[i]) == (start[i]
                        || g.batched_below(i, fork + 1, 0)) by {
                        g.next_fork(i, fork as int);
                    }
                },
                None => {
                    assert forall|i: int| 0 <= i < n implies (#[trigger] marks@[i]) == (start[i]
                        || g.batched_below(i, fork + 1, 0)) by {
                        g.next_fork(i, fork as int);
                        assert(g.batched_below(i, fork as int, g.kids(fork as int).len() as int)
                            == g.batched_below(i, fork as int, 0)) by {
                            g.no_batch_here(i, fork as int);
                        }
                        assert(at_fork[i] == marks@[i]);
                    }
                },
            }
            fork += 1;
        }
        assert forall|i: int| 0 <= i < n implies (#[trigger] marks@[i]) == (start[i]
            || g.in_side_batch(i)) by {
            g.all_batches(i);
        }
    }

    /// Mark everything on side branches.
    fn pruned(&self) -> (marks: Vec<bool>)
        requires
            self.wf(),
        ensures
            marks@.len() == self.nodes@.len(),
            forall|i: int|
                0 <= i < marks@.len() ==> (#[trigger] marks@[i]) == self.graph().pruned(i),
    {
        let ghost g = self.graph();
        let aside: Vec<bool> = self.set_aside();
        let mut marks: Vec<bool> = Vec::new();
        let mut i: usize = 0;
        while i < self.nodes.len()
            invariant
                self.wf(),
                g == self.graph(),
                i <= self.nodes@.len(),
                aside@.len() == self.nodes@.len(),
                forall|j: int| 0 <= j < aside@.len() ==> (#[trigger] aside@[j]) == g.set_aside(j),
                marks@.len() == i,
                forall|j: int|
                    0 <= j < i ==> (#[trigger] marks@[j]) == (g.set_aside(j) || g.orphan_result(j)),
            decreases self.nodes@.len() - i,
        {
            assert(self.links@[i as int]@ == g.links[i as int]);
            proof {
                kids_are_children(g, i as int, g.size());
            }
            let missing: bool = match self.links[i] {
                Link::Missing => true,
                _ => false,
            };
            let orphan: bool = missing && self.event(i).kind == EventKind::ToolResult
                && self.kids_marked(&aside, i);
            assert(g.all_marked(aside@, i as int) == forall|k: int|
                0 <= k < g.kids(i as int).len() ==> g.set_aside(#[trigger] g.kids(i as int)[k])) by {
                assert forall|k: int| 0 <= k < g.kids(i as int).len() implies aside@[(
                #[trigger] g.kids(i as int)[k])] == g.set_aside(g.kids(i as int)[k]) by {}
            }
            marks.push(aside[i] || orphan);
            i += 1;
        }
        self.mark_side_batches(&mut marks);
        marks
    }

    /// The leaves that remain once side branches are removed.
    fn substantive_leaves(&self, target: &BranchResolutionTarget) -> (list: Vec<usize>)
        requires
            self.wf(),
        ensures
            places(list@) == self.graph().substantive_below(target@, self.graph().size()),
            forall|k: int| 0 <= k < list@.len() ==> (#[trigger] list@[k]) < self.nodes@.len(),
    {
        let ghost g = self.graph();
        let pruned: Vec<bool> = self.pruned();
        let mut list: Vec<usize> = Vec::new();
        let mut i: usize = 0;
        assert(places(list@) =~= g.substantive_below(target@, 0));
        while i < self.nodes.len()
            invariant
                self.wf(),
                g == self.graph(),
                i <= self.nodes@.len(),
                pruned@.len() == self.nodes@.len(),
                forall|j: int| 0 <= j < pruned@.len() ==> (#[trigger] pruned@[j]) == g.pruned(j),
                places(list@) == g.substantive_below(target@, i as int),
                forall|k: int| 0 <= k < list@.len() ==> (#[trigger] list@[k]) < i,
            decreases self.nodes@.len() - i,
        {
            proof {
                kids_are_children(g, i as int, g.size());
            }
            let leaf: bool = !pruned[i] && self.kids_marked(&pruned, i);
            assert(leaf == g.is_substantive_leaf(i as int)) by {
                assert forall|k: int| 0 <= k < g.kids(i as int).len() implies pruned@[(
                #[trigger] g.kids(i as int)[k])] == g.pruned(g.kids(i as int)[k]) by {}
            }
            if leaf && matches_target(self.event(i), target) {
                let ghost before = places(list@);
                list.push(i);
                assert(places(list@) =~= before.push(i as int));
            }
            i += 1;
        }
        list
    }

    fn ids(&self, list: &Vec<usize>) -> (ids: Vec<String>)
        requires
            self.wf(),
            forall|k: int| 0 <= k < list@.len() ==> (#[trigger] list@[k]) < self.nodes@.len(),
        ensures
            texts(ids@) == self.graph().ids(places(list@)),
    {
        let mut ids: Vec<String> = Vec::new();
        let mut k: usize = 0;
        while k < list.len()
            invariant
                self.wf(),
                k <= list@.len(),
                forall|k: int| 0 <= k < list@.len() ==> (#[trigger] list@[k]) < self.nodes@.len(),
                ids@.len() == k,
                forall|j: int|
                    0 <= j < k ==> (#[trigger] ids@[j])@
                        == self.graph().defs[list@[j] as int].event_id->0,
            decreases list@.len() - k,
        {
            match &self.event(list[k]).event_id {
                Some(id) => {
                    ids.push(copy_text(id.as_str()));
                },
                None => {
                    assert(false);
                },
            }
            k += 1;
        }
        assert(texts(ids@) =~= self.graph().ids(places(list@)));
        ids
    }

    fn id_of(&self, p: usize) -> (id: String)
        requires
            self.wf(),
            p < self.nodes@.len(),
        ensures
            id@ == self.graph().defs[p as int].event_id->0,
    {
        match &self.event(p).event_id {
            Some(id) => copy_text(id.as_str()),
            None => {
                assert(false);
                String::new()
            },
        }
    }

    /// Does the log define the key of `e` in another way too?
    fn is_conflicted(&self, e: &NormalizedEvent) -> (r: bool)
        requires
            e@.event_id is Some,
        ensures
            r == conflicted(event_views(self.events@), e@),
    {
        let ghost log = event_views(self.events@);
        let mut j: usize = 0;
        while j < self.events.len()
            invariant
                j <= self.events@.len(),
                log == event_views(self.events@),
                e@.event_id is Some,
                forall|i: int| 0 <= i < j ==> !(#[trigger] log[i]).redefines(e@),
            decreases self.events@.len() - j,
        {
            let other: &NormalizedEvent = &self.events[j];
            assert(log[j as int] == other@);
            if other.event_id.is_some() && same_optional(&other.event_id, &e.event_id)
                && same_optional(&other.agent_id, &e.agent_id) && same_optional(
                &other.branch_id,
                &e.branch_id,
            ) && !other.same(e) {
                assert(log[j as int].redefines(e@));
                return true;
            }
            j += 1;
        }
        false
    }
}

impl Lineage {
    /// Below the first `fork` forks, or below the first `k` children of `fork`.
    spec fn batched_below(self, i: int, fork: int, k: int) -> bool {
        ||| exists|f: int, c: int|
            0 <= f < fork && #[trigger] self.side_batch(f, c) && self.subtree(c).contains(i)
        ||| exists|j: int|
            0 <= j < k && j < self.kids(fork).len() && self.side_batch(
                fork,
                #[trigger] self.kids(fork)[j],
            ) && self.subtree(self.kids(fork)[j]).contains(i)
    }

    proof fn next_batch(self, i: int, fork: int, k: int)
        requires
            0 <= k < self.kids(fork).len(),
        ensures
            self.batched_below(i, fork, k + 1) == (self.batched_below(i, fork, k) || (
            self.side_batch(fork, self.kids(fork)[k]) && self.subtree(self.kids(fork)[k]).contains(
                i,
            ))),
    {
        if self.side_batch(fork, self.kids(fork)[k]) && self.subtree(self.kids(fork)[k]).contains(
            i,
        ) {
            assert(self.batched_below(i, fork, k + 1));
        }
    }

    proof fn next_fork(self, i: int, fork: int)
        requires
            fork >= 0,
        ensures
            self.batched_below(i, fork + 1, 0) == self.batched_below(
                i,
                fork,
                self.kids(fork).len() as int,
            ),
    {
        if self.batched_below(i, fork + 1, 0) {
            let (f, c) = choose|f: int, c: int|
                0 <= f < fork + 1 && #[trigger] self.side_batch(f, c) && self.subtree(c).contains(i);
            if f == fork {
                let j = self.kids(fork).index_of(c);
                assert(self.kids(fork)[j] == c);
            }
        }
        if exists|j: int|
            0 <= j < self.kids(fork).len() && self.side_batch(fork, #[trigger] self.kids(fork)[j])
                && self.subtree(self.kids(fork)[j]).contains(i) {
            let j = choose|j: int|
                0 <= j < self.kids(fork).len() && self.side_batch(
                    fork,
                    #[trigger] self.kids(fork)[j],
                ) && self.subtree(self.kids(fork)[j]).contains(i);
            assert(self.side_batch(fork, self.kids(fork)[j]));
        }
    }

    proof fn no_batch_here(self, i: int, fork: int)
        requires
            !self.forks_on(fork),
        ensures
            self.batched_below(i, fork, self.kids(fork).len() as int) == self.batched_below(
                i,
                fork,
                0,
            ),
    {
    }

    proof fn all_batches(self, i: int)
        ensures
            self.batched_below(i, self.size(), 0) == self.in_side_batch(i),
    {
    }
}

impl<'a> Index<'a> {
    /// The leaves in scope.
    fn leaves(&self, target: &BranchResolutionTarget) -> (list: Vec<usize>)
        requires
            self.wf(),
        ensures
            places(list@) == self.graph().leaves_below(target@, self.graph().size()),
            forall|k: int| 0 <= k < list@.len() ==> (#[trigger] list@[k]) < self.nodes@.len(),
    {
        let ghost g = self.graph();
        let mut list: Vec<usize> = Vec::new();
        let mut i: usize = 0;
        assert(places(list@) =~= g.leaves_below(target@, 0));
        while i < self.nodes.len()
            invariant
                self.wf(),
                g == self.graph(),
                i <= self.nodes@.len(),
                places(list@) == g.leaves_below(target@, i as int),
                forall|k: int| 0 <= k < list@.len() ==> (#[trigger] list@[k]) < i,
            decreases self.nodes@.len() - i,
        {
            assert(places(self.kids@[i as int]@) == g.kids(i as int));
            if self.kids[i].len() == 0 && matches_target(self.event(i), target) {
                let ghost before = places(list@);
                list.push(i);
                assert(places(list@) =~= before.push(i as int));
            }
            i += 1;
        }
        list
    }

    fn select_named(&self, id: &str, target: &BranchResolutionTarget) -> (r: Result<
        &'a NormalizedEvent,
        UnresolvedBranchReason,
    >)
        requires
            self.wf(),
            target@.event == Some(id@),
        ensures
            match r {
                Ok(leaf) => self.graph().select(target@) == Ok::<EventView, ReasonView>(leaf@),
                Err(reason) => self.graph().select(target@) == Err::<EventView, ReasonView>(reason@),
            },
    {
        let ghost g = self.graph();
        let mut found: Option<usize> = None;
        let mut p: usize = 0;
        while p < self.nodes.len()
            invariant
                self.wf(),
                g == self.graph(),
                target@.event == Some(id@),
                p <= self.nodes@.len(),
                match found {
                    None => forall|q: int| 0 <= q < p ==> !#[trigger] g.is_named_target(target@, q),
                    Some(first) => first < p && g.is_named_target(target@, first as int) && forall|
                        q: int,
                    |
                        0 <= q < p && q != first ==> !#[trigger] g.is_named_target(target@, q),
                },
            decreases self.nodes@.len() - p,
        {
            let event: &NormalizedEvent = self.event(p);
            let named: bool = match &event.event_id {
                Some(own) => same_text(own.as_str(), id),
                None => false,
            };
            if named && matches_target(event, target) {
                assert(g.is_named_target(target@, p as int));
                match found {
                    Some(first) => {
                        assert(g.is_named_target(target@, first as int));
                        return Err(
                            UnresolvedBranchReason::AmbiguousEventIdentity { event: copy_text(id) },
                        );
                    },
                    None => {
                        found = Some(p);
                    },
                }
            }
            p += 1;
        }
        match found {
            Some(first) => {
                assert(g.is_named_target(target@, first as int));
                let events: &'a Vec<NormalizedEvent> = self.events;
                Ok(&events[self.nodes[first]])
            },
            None => Err(UnresolvedBranchReason::TargetEventNotFound { target: copy_text(id) }),
        }
    }

    /// The event at which the active branch ends.
    fn select(&self, target: &BranchResolutionTarget) -> (r: Result<
        &'a NormalizedEvent,
        UnresolvedBranchReason,
    >)
        requires
            self.wf(),
        ensures
            match r {
                Ok(leaf) => self.graph().select(target@) == Ok::<EventView, ReasonView>(leaf@),
                Err(reason) => self.graph().select(target@) == Err::<EventView, ReasonView>(reason@),
            },
    {
        let ghost g = self.graph();
        match &target.target_event_id {
            Some(id) => {
                return self.select_named(id.as_str(), target);
            },
            None => {},
        }
        let events: &'a Vec<NormalizedEvent> = self.events;
        let mut first_in_scope: Option<usize> = None;
        let mut p: usize = 0;
        while p < self.nodes.len()
            invariant
                self.wf(),
                g == self.graph(),
                target@.event is None,
                p <= self.nodes@.len(),
                forall|q: int| 0 <= q < p ==> !#[trigger] g.conflicts_in_scope(target@, q),
                match first_in_scope {
                    None => forall|q: int| 0 <= q < p ==> !target@.admits(#[trigger] g.defs[q]),
                    Some(first) => first < p && g.is_first_in_scope(target@, first as int),
                },
            decreases self.nodes@.len() - p,
        {
            let event: &NormalizedEvent = self.event(p);
            if matches_target(event, target) {
                if self.is_conflicted(event) {
                    assert(g.conflicts_in_scope(target@, p as int));
                    assert(g.is_first_conflict(target@, p as int));
                    let ghost c = choose|c: int| g.is_first_conflict(target@, c);
                    assert(c == p) by {
                        if c < p {
                            assert(!g.conflicts_in_scope(target@, c));
                        }
                        if c > p {
                            assert(!g.conflicts_in_scope(target@, p as int));
                        }
                    }
                    return Err(
                        UnresolvedBranchReason::ConflictingEventDefinitions { event: self.id_of(p) },
                    );
                }
                if first_in_scope.is_none() {
                    first_in_scope = Some(p);
                }
            }
            p += 1;
        }
        assert(!exists|c: int| g.is_first_conflict(target@, c));
        let leaves: Vec<usize> = self.leaves(target);
        if leaves.len() == 1 {
            assert(places(leaves@)[0] == leaves@[0]);
            return Ok(&events[self.nodes[leaves[0]]]);
        }
        if leaves.len() == 0 {
            assert(g.log.len() == events@.len());
            if events.len() == 1 {
                assert(g.log[0] == events@[0]@);
                if events[0].event_id.is_none() && matches_target(&events[0], target) {
                    return Ok(&events[0]);
                }
            }
            match first_in_scope {
                Some(first) => {
                    let ghost c = choose|c: int| g.is_first_in_scope(target@, c);
                    assert(c == first) by {
                        if c < first {
                            assert(!target@.admits(g.defs[c]));
                        }
                        if c > first {
                            assert(!target@.admits(g.defs[first as int]));
                        }
                    }
                    match self.trace(self.event(first), target) {
                        Ok(_) => {},
                        Err(reason) => {
                            return Err(reason);
                        },
                    }
                },
                None => {
                    assert(!exists|c: int| g.is_first_in_scope(target@, c));
                },
            }
            return Err(UnresolvedBranchReason::NoMatchingEvents);
        }
        let substantive: Vec<usize> = self.substantive_leaves(target);
        if substantive.len() == 1 {
            assert(places(substantive@)[0] == substantive@[0]);
            return Ok(&events[self.nodes[substantive[0]]]);
        }
        let remaining: &Vec<usize> = if substantive.len() == 0 {
            &leaves
        } else {
            &substantive
        };
        Err(UnresolvedBranchReason::AmbiguousSiblingForks { candidate_leaves: self.ids(remaining) })
    }

    /// The active branch that ends at `leaf`.
    fn trace(&self, leaf: &NormalizedEvent, target: &BranchResolutionTarget) -> (r: Result<
        ActiveBranch,
        UnresolvedBranchReason,
    >)
        requires
            self.wf(),
        ensures
            match r {
                Ok(branch) => self.graph().trace(target@, leaf@) == Ok::<BranchView, ReasonView>(
                    branch@,
                ),
                Err(reason) => self.graph().trace(target@, leaf@) == Err::<BranchView, ReasonView>(
                    reason@,
                ),
            },
    {
        let ghost g = self.graph();
        let mut chain: Vec<&NormalizedEvent> = Vec::new();
        let mut current: &NormalizedEvent = leaf;
        let mut truncated: bool = false;
        let mut done: bool = false;
        assert(chain_views(chain@) =~= Seq::empty());
        while !done
            invariant
                self.wf(),
                g == self.graph(),
                !done ==> g.ascend(target@, Seq::empty(), leaf@) == g.ascend(
                    target@,
                    chain_views(chain@),
                    current@,
                ),
                done ==> g.ascend(target@, Seq::empty(), leaf@) == Ok::<
                    (Seq<EventView>, bool),
                    ReasonView,
                >((chain_views(chain@), truncated)),
                !done ==> !truncated,
                g.linked(chain_views(chain@)),
                !done ==> g.continues(chain_views(chain@), current@),
                chain@.len() > 0 ==> chain@[0]@ == leaf@,
                chain@.len() == 0 ==> current@ == leaf@,
            decreases (if done {
                    0int
                } else {
                    1int
                }), g.size() + 1 - chain@.len(),
        {
            let ghost below = chain_views(chain@);
            match &current.event_id {
                Some(id) => {
                    if self.is_conflicted(current) {
                        return Err(
                            UnresolvedBranchReason::ConflictingEventDefinitions {
                                event: copy_text(id.as_str()),
                            },
                        );
                    }
                    let mut cycle: bool = false;
                    let mut repeated: bool = false;
                    let mut k: usize = 0;
                    while k < chain.len()
                        invariant
                            k <= chain@.len(),
                            below == chain_views(chain@),
                            current@.event_id == Some(id@),
                            cycle == exists|j: int|
                                0 <= j < k && (#[trigger] below[j]).has_key_of(current@),
                            repeated == exists|j: int|
                                0 <= j < k && (#[trigger] below[j]).event_id == current@.event_id,
                        decreases chain@.len() - k,
                    {
                        let other: &NormalizedEvent = chain[k];
                        assert(below[k as int] == other@);
                        if same_optional(&other.event_id, &current.event_id) {
                            repeated = true;
                            if same_optional(&other.agent_id, &current.agent_id) && same_optional(
                                &other.branch_id,
                                &current.branch_id,
                            ) {
                                cycle = true;
                            }
                        }
                        k += 1;
                    }
                    if cycle {
                        return Err(
                            UnresolvedBranchReason::CycleDetected { at_event: copy_text(id.as_str()) },
                        );
                    }
                    proof {
                        g.chain_is_bounded(below, current@);
                    }
                    if repeated {
                        return Err(
                            UnresolvedBranchReason::AmbiguousEventIdentity {
                                event: copy_text(id.as_str()),
                            },
                        );
                    }
                },
                None => {
                    proof {
                        assert(below.len() == 0);
                    }
                },
            }
            match (&target.target_branch_id, &current.branch_id) {
                (Some(expected), Some(observed)) => {
                    if !same_text(expected.as_str(), observed.as_str()) {
                        return Err(
                            UnresolvedBranchReason::ConflictingBranchIdentities {
                                expected: copy_text(expected.as_str()),
                                observed: copy_text(observed.as_str()),
                            },
                        );
                    }
                },
                _ => {},
            }
            chain.push(current);
            assert(chain_views(chain@) =~= below.push(current@));
            match self.parent(current) {
                Link::Root => {
                    done = true;
                },
                Link::Missing => {
                    truncated = true;
                    done = true;
                },
                Link::Ambiguous => {
                    let event: String = match &current.parent_id {
                        Some(parent) => copy_text(parent.as_str()),
                        None => String::new(),
                    };
                    return Err(UnresolvedBranchReason::AmbiguousEventIdentity { event });
                },
                Link::At(p) => {
                    proof {
                        g.defs_hold(p as int);
                    }
                    current = self.event(p);
                },
            }
        }
        let ghost full = chain_views(chain@);
        let mut events: Vec<NormalizedEvent> = Vec::new();
        let mut branch_id: Option<String> = copy_optional(&target.target_branch_id);
        let mut compaction_count: usize = 0;
        let mut task_boundary_count: usize = 0;
        let mut k: usize = chain.len();
        while k > 0
            invariant
                k <= chain@.len(),
                full == chain_views(chain@),
                events@.len() == chain@.len() - k,
                forall|j: int|
                    0 <= j < events@.len() ==> (#[trigger] events@[j])@ == full[full.len() - 1 - j],
            decreases k,
        {
            k -= 1;
            assert(full[k as int] == chain@[k as int]@);
            events.push(chain[k].copied());
        }
        assert(event_views(events@) =~= full.reverse());
        let ghost first = optional_text(branch_id);
        k = 0;
        assert(full.skip(0) =~= full);
        assert(full.take(0) =~= Seq::empty());
        while k < chain.len()
            invariant
                k <= chain@.len(),
                full == chain_views(chain@),
                optional_text(branch_id) == (if first is Some {
                    first
                } else {
                    if optional_text(branch_id) is Some {
                        first_branch(full)
                    } else {
                        None
                    }
                }),
                first is None && optional_text(branch_id) is None ==> first_branch(full)
                    == first_branch(full.skip(k as int)),
                compaction_count <= k,
                task_boundary_count <= k,
                compaction_count == count_kind(full.take(k as int), EventKind::Compaction),
                task_boundary_count == count_kind(full.take(k as int), EventKind::TaskBoundary),
            decreases chain@.len() - k,
        {
            let event: &NormalizedEvent = chain[k];
            assert(full[k as int] == event@);
            assert(full.take(k as int + 1).drop_last() =~= full.take(k as int));
            assert(full.take(k as int + 1).last() == event@);
            assert(full.skip(k as int)[0] == event@);
            assert(full.skip(k as int).drop_first() =~= full.skip(k as int + 1));
            if branch_id.is_none() {
                branch_id = copy_optional(&event.branch_id);
            }
            if event.kind == EventKind::Compaction {
                compaction_count += 1;
            }
            if event.kind == EventKind::TaskBoundary {
                task_boundary_count += 1;
            }
            k += 1;
        }
        assert(full.take(k as int) =~= full);
        assert(full.skip(k as int) =~= Seq::empty());
        Ok(
            ActiveBranch {
                branch_id,
                leaf_event_id: copy_optional(&leaf.event_id),
                events,
                compaction_count,
                task_boundary_count,
                ancestor_chain_truncated: truncated,
            },
        )
    }
}

spec fn chain_views(chain: Seq<&NormalizedEvent>) -> Seq<EventView> {
    chain.map_values(|e: &NormalizedEvent| e@)
}

impl Lineage {
    /// Every event of a chain but the first is a definition, and no two of its
    /// identified events share a key.
    spec fn linked(self, chain: Seq<EventView>) -> bool {
        &&& forall|k: int| 1 <= k < chain.len() ==> self.defs.contains(#[trigger] chain[k])
        &&& forall|k: int| 1 <= k < chain.len() ==> (#[trigger] chain[k]).event_id is Some
        &&& forall|j: int, k: int|
            0 <= j < k < chain.len() ==> !(#[trigger] chain[j]).has_key_of(#[trigger] chain[k])
    }

    spec fn continues(self, chain: Seq<EventView>, current: EventView) -> bool {
        chain.len() > 0 ==> self.defs.contains(current) && current.event_id is Some
    }

    proof fn defs_hold(self, p: int)
        requires
            0 <= p < self.size(),
        ensures
            self.defs.contains(self.defs[p]),
    {
    }

    proof fn chain_is_bounded(self, chain: Seq<EventView>, current: EventView)
        requires
            self.linked(chain),
            self.continues(chain, current),
            current.event_id is Some,
            !exists|k: int| 0 <= k < chain.len() && (#[trigger] chain[k]).has_key_of(current),
        ensures
            chain.len() <= self.size(),
    {
        if chain.len() > 0 {
            let tail = chain.drop_first().push(current);
            let at = Seq::new(tail.len(), |k: int| self.defs.index_of(tail[k]));
            assert forall|k: int| 0 <= k < tail.len() implies 0 <= (#[trigger] at[k]) < self.size()
                && self.defs[at[k]] == tail[k] by {
                assert(self.defs.contains(tail[k])) by {
                    if k < chain.len() - 1 {
                        assert(tail[k] == chain[k + 1]);
                    } else {
                        assert(tail[k] == current);
                    }
                }
            }
            assert(at.no_duplicates()) by {
                assert forall|i: int, j: int| 0 <= i < j < at.len() implies at[i] != at[j] by {
                    assert(tail[i] == chain[i + 1]);
                    if j < chain.len() - 1 {
                        assert(tail[j] == chain[j + 1]);
                        assert(!chain[i + 1].has_key_of(chain[j + 1]));
                    } else {
                        assert(tail[j] == current);
                        assert(!chain[i + 1].has_key_of(current));
                    }
                }
            }
            at.unique_seq_to_set();
            vstd::set_lib::lemma_int_range(0, self.size());
            assert(at.to_set().subset_of(vstd::set_lib::set_int_range(0, self.size())));
            vstd::set_lib::lemma_len_subset(
                at.to_set(),
                vstd::set_lib::set_int_range(0, self.size()),
            );
        }
    }
}

/// Select the active branch of a log. `responses` names the provider response
/// of each event that is a fragment of one.
pub fn resolve(
    events: &Vec<NormalizedEvent>,
    target: &BranchResolutionTarget,
    responses: &Vec<ResponseFragment>,
) -> (r: BranchResolution)
    ensures
        r@ == lineage_of(event_views(events@), response_pairs(responses@)).resolution(target@),
{
    if events.len() == 0 {
        assert(event_views(events@).len() == 0);
        return BranchResolution::Unresolved(UnresolvedBranchReason::EmptyHistory);
    }
    assert(event_views(events@).len() > 0);
    let index = Index::new(events, responses);
    match index.select(target) {
        Ok(leaf) => match index.trace(leaf, target) {
            Ok(branch) => BranchResolution::Resolved(branch),
            Err(reason) => BranchResolution::Unresolved(reason),
        },
        Err(reason) => BranchResolution::Unresolved(reason),
    }
}

} // verus!
