//! What a discovery finds of what its roots hold.
use crate::roster::discovery::{
    after_entry, after_failure, after_step, level_steps, nothing_discovered, passed, root_steps,
    stream_steps, walk_steps, walked, CandidateView, DiscoveryLimits, DiscoveryView, EntryReading,
    PlannedRoot, StepView, StreamError, WalkView,
};
use vstd::prelude::*;

verus! {

/// Every entry counts. A skill within the allowance is a candidate, the last,
/// under its own root and with its own size; one past it is none, and the walk
/// is over and says so.
pub proof fn skills_within_the_allowance_are_candidates(
    state: DiscoveryView,
    source: Seq<char>,
    entry: EntryReading,
    limits: DiscoveryLimits,
)
    ensures
        ({
            let after = after_entry(state, source, entry, limits);
            let room = state.entries_examined < limits.entries;
            &&& after.entries_examined == state.entries_examined + 1
            &&& entry is Other ==> after.candidates == state.candidates && after.bytes_examined
                == state.bytes_examined
            &&& entry is Other && room ==> after.exhausted == state.exhausted
                && after.diagnostics == state.diagnostics
            &&& entry matches EntryReading::Skill { relative, size } ==> {
                let fits = room && state.bytes_examined + size <= limits.bytes;
                &&& fits ==> {
                    &&& after.candidates == state.candidates.push(
                        CandidateView { source, relative: relative@, size },
                    )
                    &&& after.bytes_examined == state.bytes_examined + size
                    &&& after.exhausted == state.exhausted
                    &&& after.diagnostics == state.diagnostics
                }
                &&& !fits ==> after.candidates == state.candidates && after.exhausted
                    && after.diagnostics.len() == state.diagnostics.len() + 1
            }
            &&& !room ==> after.exhausted && after.diagnostics.len() == state.diagnostics.len() + 1
        }),
        after_failure(state, source).candidates == state.candidates,
        after_failure(state, source).diagnostics.len() == state.diagnostics.len() + 1,
        nothing_discovered().candidates.len() == 0,
        nothing_discovered().diagnostics.len() == 0,
{
}

/// The candidate that a skill entry is.
pub open spec fn candidate_of(source: Seq<char>, entry: EntryReading) -> CandidateView {
    CandidateView { source, relative: entry->relative@, size: entry->size }
}

proof fn candidates_stay(
    state: WalkView,
    steps: Seq<StepView>,
    limits: DiscoveryLimits,
    refusal: Option<nat>,
    c: CandidateView,
)
    requires
        state.found.candidates.contains(c),
    ensures
        walked(state, steps, limits, refusal).found.candidates.contains(c),
    decreases steps.len(),
{
    if steps.len() > 0 && !state.refused && !state.found.exhausted {
        let next = after_step(state, steps[0], limits, refusal);
        let k = state.found.candidates.index_of(c);
        assert(next.found.candidates[k] == c);
        candidates_stay(next, steps.skip(1), limits, refusal, c);
    }
}

proof fn visited_skills_are_found(
    state: WalkView,
    steps: Seq<StepView>,
    limits: DiscoveryLimits,
    k: int,
)
    requires
        !state.refused,
        0 <= k < steps.len(),
        steps[k] is Visit,
        steps[k]->entry is Skill,
        !walked(state, steps, limits, None).found.exhausted,
    ensures
        walked(state, steps, limits, None).found.candidates.contains(
            candidate_of(steps[k]->Visit_source, steps[k]->entry),
        ),
    decreases steps.len(),
{
    if !state.found.exhausted {
        let next = after_step(state, steps[0], limits, None);
        let c = candidate_of(steps[k]->Visit_source, steps[k]->entry);
        if k == 0 {
            if next.found.exhausted {
                assert(walked(next, steps.skip(1), limits, None) == next);
            }
            assert(next.found.candidates.last() == c);
            assert(next.found.candidates[next.found.candidates.len() - 1] == c);
            candidates_stay(next, steps.skip(1), limits, None, c);
        } else {
            assert(steps.skip(1)[k - 1] == steps[k]);
            visited_skills_are_found(next, steps.skip(1), limits, k - 1);
        }
    }
}

proof fn streams_visit_their_entries(
    source: Seq<char>,
    entries: Seq<Result<EntryReading, StreamError>>,
    i: int,
)
    requires
        0 <= i < entries.len(),
        forall|j: int| 0 <= j <= i ==> (#[trigger] entries[j]) is Ok,
    ensures
        stream_steps(source, entries).contains(
            StepView::Visit { source, entry: entries[i]->Ok_0 },
        ),
    decreases i,
{
    let steps = stream_steps(source, entries);
    let visit = StepView::Visit { source, entry: entries[i]->Ok_0 };
    assert(entries[0] is Ok);
    if i == 0 {
        assert(steps[1] == visit);
    } else {
        let rest = entries.skip(1);
        assert forall|j: int| 0 <= j <= i - 1 implies (#[trigger] rest[j]) is Ok by {
            assert(rest[j] == entries[j + 1]);
        }
        streams_visit_their_entries(source, rest, i - 1);
        let k = stream_steps(source, rest).index_of(visit);
        assert(steps[k + 2] == visit);
    }
}

proof fn joined_steps_contain(a: Seq<StepView>, b: Seq<StepView>, step: StepView)
    ensures
        (a + b).contains(step) <==> a.contains(step) || b.contains(step),
{
    let all = a + b;
    if a.contains(step) {
        assert(all[a.index_of(step)] == step);
    }
    if b.contains(step) {
        assert(all[a.len() + b.index_of(step)] == step);
    }
    if all.contains(step) {
        let k = all.index_of(step);
        if k < a.len() {
            assert(a[k] == step);
        } else {
            assert(b[k - a.len()] == step);
        }
    }
}

proof fn roots_visit_their_entries(root: PlannedRoot, depth: nat, from: int, d: int, i: int)
    requires
        0 <= from <= d < root.directories@.len(),
        root.directories@[d].depth == depth,
        0 <= i < root.directories@[d].entries@.len(),
        forall|j: int| 0 <= j <= i ==> (#[trigger] root.directories@[d].entries@[j]) is Ok,
    ensures
        root_steps(root, depth, from).contains(
            StepView::Visit {
                source: root.source@,
                entry: root.directories@[d].entries@[i]->Ok_0,
            },
        ),
    decreases d - from,
{
    let visit = StepView::Visit {
        source: root.source@,
        entry: root.directories@[d].entries@[i]->Ok_0,
    };
    let directory = root.directories@[from];
    let own = if directory.depth == depth {
        seq![StepView::Check] + stream_steps(root.source@, directory.entries@)
    } else {
        Seq::empty()
    };
    joined_steps_contain(own, root_steps(root, depth, from + 1), visit);
    if from == d {
        streams_visit_their_entries(root.source@, directory.entries@, i);
        joined_steps_contain(
            seq![StepView::Check],
            stream_steps(root.source@, directory.entries@),
            visit,
        );
    } else {
        roots_visit_their_entries(root, depth, from + 1, d, i);
    }
}

proof fn levels_visit_their_entries(
    roots: Seq<PlannedRoot>,
    depth: nat,
    from: int,
    r: int,
    d: int,
    i: int,
)
    requires
        0 <= from <= r < roots.len(),
        0 <= d < roots[r].directories@.len(),
        roots[r].directories@[d].depth == depth,
        0 <= i < roots[r].directories@[d].entries@.len(),
        forall|j: int| 0 <= j <= i ==> (#[trigger] roots[r].directories@[d].entries@[j]) is Ok,
    ensures
        level_steps(roots, depth, from).contains(
            StepView::Visit {
                source: roots[r].source@,
                entry: roots[r].directories@[d].entries@[i]->Ok_0,
            },
        ),
    decreases r - from,
{
    let visit = StepView::Visit {
        source: roots[r].source@,
        entry: roots[r].directories@[d].entries@[i]->Ok_0,
    };
    joined_steps_contain(
        root_steps(roots[from], depth, 0),
        level_steps(roots, depth, from + 1),
        visit,
    );
    if from == r {
        roots_visit_their_entries(roots[r], depth, 0, d, i);
    } else {
        levels_visit_their_entries(roots, depth, from + 1, r, d, i);
    }
}

proof fn walks_visit_their_entries(
    roots: Seq<PlannedRoot>,
    levels: nat,
    depth: nat,
    r: int,
    d: int,
    i: int,
)
    requires
        0 <= r < roots.len(),
        0 <= d < roots[r].directories@.len(),
        depth <= roots[r].directories@[d].depth < levels,
        0 <= i < roots[r].directories@[d].entries@.len(),
        forall|j: int| 0 <= j <= i ==> (#[trigger] roots[r].directories@[d].entries@[j]) is Ok,
    ensures
        walk_steps(roots, levels, depth).contains(
            StepView::Visit {
                source: roots[r].source@,
                entry: roots[r].directories@[d].entries@[i]->Ok_0,
            },
        ),
    decreases levels - depth,
{
    let visit = StepView::Visit {
        source: roots[r].source@,
        entry: roots[r].directories@[d].entries@[i]->Ok_0,
    };
    joined_steps_contain(
        level_steps(roots, depth, 0),
        walk_steps(roots, levels, depth + 1),
        visit,
    );
    if roots[r].directories@[d].depth == depth {
        levels_visit_their_entries(roots, depth, 0, r, d, i);
    } else {
        walks_visit_their_entries(roots, levels, depth + 1, r, d, i);
    }
}

/// A pass that does not exhaust its allowance finds every skill that its roots
/// hold within the levels that are walked, up to where a directory could no
/// longer be read.
pub proof fn every_skill_is_found(
    roots: Seq<PlannedRoot>,
    limits: DiscoveryLimits,
    r: int,
    d: int,
    i: int,
)
    requires
        0 <= r < roots.len(),
        0 <= d < roots[r].directories@.len(),
        roots[r].directories@[d].depth < limits.levels,
        0 <= i < roots[r].directories@[d].entries@.len(),
        forall|j: int| 0 <= j <= i ==> (#[trigger] roots[r].directories@[d].entries@[j]) is Ok,
        roots[r].directories@[d].entries@[i]->Ok_0 is Skill,
        !passed(roots, limits, None).found.exhausted,
    ensures
        passed(roots, limits, None).found.candidates.contains(
            candidate_of(roots[r].source@, roots[r].directories@[d].entries@[i]->Ok_0),
        ),
{
    let steps = walk_steps(roots, limits.levels as nat, 0);
    walks_visit_their_entries(roots, limits.levels as nat, 0, r, d, i);
    let visit = StepView::Visit {
        source: roots[r].source@,
        entry: roots[r].directories@[d].entries@[i]->Ok_0,
    };
    let k = steps.index_of(visit);
    let start = WalkView { found: nothing_discovered(), checks: 0, refused: false };
    let entered = after_step(start, StepView::Check, limits, None);
    nothing_refuses(entered, steps, limits);
    visited_skills_are_found(entered, steps, limits, k);
}

proof fn nothing_refuses(state: WalkView, steps: Seq<StepView>, limits: DiscoveryLimits)
    requires
        !state.refused,
    ensures
        !walked(state, steps, limits, None).refused,
    decreases steps.len(),
{
    if steps.len() > 0 && !state.found.exhausted {
        nothing_refuses(after_step(state, steps[0], limits, None), steps.skip(1), limits);
    }
}

/// Is a candidate one of the skills that the roots hold within the levels?
pub open spec fn is_held(roots: Seq<PlannedRoot>, levels: nat, c: CandidateView) -> bool {
    exists|r: int, d: int, i: int|
        #![trigger roots[r].directories@[d].entries@[i]]
        {
            &&& 0 <= r < roots.len()
            &&& 0 <= d < roots[r].directories@.len()
            &&& roots[r].directories@[d].depth < levels
            &&& 0 <= i < roots[r].directories@[d].entries@.len()
            &&& roots[r].directories@[d].entries@[i] is Ok
            &&& roots[r].directories@[d].entries@[i]->Ok_0 is Skill
            &&& c == candidate_of(roots[r].source@, roots[r].directories@[d].entries@[i]->Ok_0)
        }
}

proof fn found_candidates_were_visited(
    state: WalkView,
    steps: Seq<StepView>,
    limits: DiscoveryLimits,
    refusal: Option<nat>,
    c: CandidateView,
)
    requires
        walked(state, steps, limits, refusal).found.candidates.contains(c),
        !state.found.candidates.contains(c),
    ensures
        exists|k: int|
            0 <= k < steps.len() && (#[trigger] steps[k]) is Visit && steps[k]->entry is Skill && c
                == candidate_of(steps[k]->Visit_source, steps[k]->entry),
    decreases steps.len(),
{
    if steps.len() > 0 && !state.refused && !state.found.exhausted {
        let next = after_step(state, steps[0], limits, refusal);
        if next.found.candidates.contains(c) {
            let k = next.found.candidates.index_of(c);
            if k < state.found.candidates.len() {
                assert(state.found.candidates[k] == c);
            }
            assert(steps[0] is Visit && steps[0]->entry is Skill);
        } else {
            found_candidates_were_visited(next, steps.skip(1), limits, refusal, c);
            let k = choose|k: int|
                0 <= k < steps.skip(1).len() && (#[trigger] steps.skip(1)[k]) is Visit
                    && steps.skip(1)[k]->entry is Skill && c == candidate_of(
                    steps.skip(1)[k]->Visit_source,
                    steps.skip(1)[k]->entry,
                );
            assert(steps[k + 1] == steps.skip(1)[k]);
        }
    }
}

proof fn stream_visits_are_entries(
    source: Seq<char>,
    entries: Seq<Result<EntryReading, StreamError>>,
    step: StepView,
)
    requires
        step is Visit,
        stream_steps(source, entries).contains(step),
    ensures
        step->Visit_source == source,
        exists|i: int|
            0 <= i < entries.len() && (#[trigger] entries[i]) is Ok && entries[i]->Ok_0
                == step->entry,
    decreases entries.len(),
{
    let steps = stream_steps(source, entries);
    let k = steps.index_of(step);
    if entries.len() > 0 && entries[0] is Ok {
        let rest = entries.skip(1);
        if k == 1 {
            assert(entries[0]->Ok_0 == step->entry);
        } else {
            assert(stream_steps(source, rest)[k - 2] == step);
            stream_visits_are_entries(source, rest, step);
            let i = choose|i: int|
                0 <= i < rest.len() && (#[trigger] rest[i]) is Ok && rest[i]->Ok_0 == step->entry;
            assert(entries[i + 1] == rest[i]);
        }
    }
}

proof fn root_visits_are_entries(
    roots: Seq<PlannedRoot>,
    levels: nat,
    r: int,
    depth: nat,
    from: int,
    step: StepView,
)
    requires
        step is Visit,
        step->entry is Skill,
        0 <= r < roots.len(),
        0 <= from,
        depth < levels,
        root_steps(roots[r], depth, from).contains(step),
    ensures
        is_held(roots, levels, candidate_of(step->Visit_source, step->entry)),
    decreases roots[r].directories@.len() - from,
{
    let root = roots[r];
    if from < root.directories@.len() {
        let directory = root.directories@[from];
        let own = if directory.depth == depth {
            seq![StepView::Check] + stream_steps(root.source@, directory.entries@)
        } else {
            Seq::empty()
        };
        joined_steps_contain(own, root_steps(root, depth, from + 1), step);
        if own.contains(step) {
            joined_steps_contain(
                seq![StepView::Check],
                stream_steps(root.source@, directory.entries@),
                step,
            );
            assert(!seq![StepView::Check].contains(step));
            stream_visits_are_entries(root.source@, directory.entries@, step);
            let i = choose|i: int|
                0 <= i < directory.entries@.len() && (#[trigger] directory.entries@[i]) is Ok
                    && directory.entries@[i]->Ok_0 == step->entry;
            assert(roots[r].directories@[from].entries@[i]->Ok_0 == step->entry);
        } else {
            root_visits_are_entries(roots, levels, r, depth, from + 1, step);
        }
    }
}

proof fn level_visits_are_entries(
    roots: Seq<PlannedRoot>,
    levels: nat,
    depth: nat,
    from: int,
    step: StepView,
)
    requires
        step is Visit,
        step->entry is Skill,
        0 <= from,
        depth < levels,
        level_steps(roots, depth, from).contains(step),
    ensures
        is_held(roots, levels, candidate_of(step->Visit_source, step->entry)),
    decreases roots.len() - from,
{
    if from < roots.len() {
        joined_steps_contain(
            root_steps(roots[from], depth, 0),
            level_steps(roots, depth, from + 1),
            step,
        );
        if root_steps(roots[from], depth, 0).contains(step) {
            root_visits_are_entries(roots, levels, from, depth, 0, step);
        } else {
            level_visits_are_entries(roots, levels, depth, from + 1, step);
        }
    }
}

proof fn walk_visits_are_entries(
    roots: Seq<PlannedRoot>,
    levels: nat,
    depth: nat,
    step: StepView,
)
    requires
        step is Visit,
        step->entry is Skill,
        walk_steps(roots, levels, depth).contains(step),
    ensures
        is_held(roots, levels, candidate_of(step->Visit_source, step->entry)),
    decreases levels - depth,
{
    if depth < levels {
        joined_steps_contain(
            level_steps(roots, depth, 0),
            walk_steps(roots, levels, depth + 1),
            step,
        );
        if level_steps(roots, depth, 0).contains(step) {
            level_visits_are_entries(roots, levels, depth, 0, step);
        } else {
            walk_visits_are_entries(roots, levels, depth + 1, step);
        }
    }
}

/// Whatever a pass finds, its roots hold, within the levels that are walked.
pub proof fn only_held_skills_are_found(
    roots: Seq<PlannedRoot>,
    limits: DiscoveryLimits,
    refusal: Option<nat>,
    c: CandidateView,
)
    requires
        passed(roots, limits, refusal).found.candidates.contains(c),
    ensures
        is_held(roots, limits.levels as nat, c),
{
    let steps = walk_steps(roots, limits.levels as nat, 0);
    let start = WalkView { found: nothing_discovered(), checks: 0, refused: false };
    let entered = after_step(start, StepView::Check, limits, refusal);
    found_candidates_were_visited(entered, steps, limits, refusal, c);
    let k = choose|k: int|
        0 <= k < steps.len() && (#[trigger] steps[k]) is Visit && steps[k]->entry is Skill && c
            == candidate_of(steps[k]->Visit_source, steps[k]->entry);
    assert(steps.contains(steps[k]));
    walk_visits_are_entries(roots, limits.levels as nat, 0, steps[k]);
}

} // verus!
