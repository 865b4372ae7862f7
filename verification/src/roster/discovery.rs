//! Bounded discovery of skill files.
//!
//! A plan walks its roots level by level, so that a shallow skill of any root
//! precedes another root's nested files. One allowance of entries and bytes
//! holds for the whole plan: once it is exhausted nothing resumes.
use crate::context::branch::lineage::{compare_text, text_standing, Standing};
use crate::text::copy_text;
use vstd::prelude::*;

pub mod coverage;

verus! {

/// The file that makes a directory a skill.
pub const CLAUDE_SKILL_FILE: &'static str = "SKILL.md";

/// How reading a directory stream failed.
#[derive(Clone, Copy, Debug, PartialEq, Eq, Structural)]
pub struct StreamError(pub i32);

/// The allowance of a plan.
#[derive(Clone, Copy, Debug, PartialEq, Eq, Structural)]
pub struct DiscoveryLimits {
    pub entries: usize,
    pub bytes: u64,
    /// Levels that are walked, the root's own the first.
    pub levels: usize,
}

impl DiscoveryLimits {
    pub fn new(entries: usize, bytes: u64, levels: usize) -> (limits: DiscoveryLimits)
        ensures
            limits == (DiscoveryLimits { entries, bytes, levels }),
    {
        DiscoveryLimits { entries, bytes, levels }
    }
}

/// Why a discovery is partial. Diagnostics carry no paths.
#[derive(Clone, Debug, PartialEq, Eq)]
pub enum Diagnostic {
    EntryUnreadable(String),
    EntryLimitReached,
    ByteLimitReached,
}

/// A diagnostic as characters.
pub enum DiagnosticView {
    EntryUnreadable(Seq<char>),
    EntryLimitReached,
    ByteLimitReached,
}

impl View for Diagnostic {
    type V = DiagnosticView;

    open spec fn view(&self) -> DiagnosticView {
        match self {
            Diagnostic::EntryUnreadable(source) => DiagnosticView::EntryUnreadable(source@),
            Diagnostic::EntryLimitReached => DiagnosticView::EntryLimitReached,
            Diagnostic::ByteLimitReached => DiagnosticView::ByteLimitReached,
        }
    }
}

/// A skill file that was found.
#[derive(Clone, Debug, PartialEq, Eq)]
pub struct Candidate {
    source: String,
    relative: String,
    size: u64,
}

/// A candidate as characters.
pub struct CandidateView {
    pub source: Seq<char>,
    pub relative: Seq<char>,
    pub size: u64,
}

impl View for Candidate {
    type V = CandidateView;

    closed spec fn view(&self) -> CandidateView {
        CandidateView { source: self.source@, relative: self.relative@, size: self.size }
    }
}

impl Candidate {
    pub fn source(&self) -> (source: &str)
        ensures
            source@ == self@.source,
    {
        self.source.as_str()
    }

    pub fn relative(&self) -> (relative: &str)
        ensures
            relative@ == self@.relative,
    {
        self.relative.as_str()
    }

    pub fn size(&self) -> (size: u64)
        ensures
            size == self@.size,
    {
        self.size
    }
}

/// An entry of a directory.
#[derive(Clone, Debug)]
pub enum EntryReading {
    /// A skill file of this size, at this path below the root.
    Skill { relative: String, size: u64 },
    /// A directory or a file that is none.
    Other,
}

/// Where a discovery stands.
pub struct DiscoveryView {
    pub candidates: Seq<CandidateView>,
    pub diagnostics: Seq<DiagnosticView>,
    pub entries_examined: nat,
    pub bytes_examined: nat,
    /// Is the allowance exhausted?
    pub exhausted: bool,
}

/// The result of walking a plan.
#[derive(Debug)]
pub struct Discovery {
    candidates: Vec<Candidate>,
    diagnostics: Vec<Diagnostic>,
    entries_examined: usize,
    bytes_examined: u64,
    exhausted: bool,
}

impl View for Discovery {
    type V = DiscoveryView;

    closed spec fn view(&self) -> DiscoveryView {
        DiscoveryView {
            candidates: self.candidates@.map_values(|c: Candidate| c@),
            diagnostics: self.diagnostics@.map_values(|d: Diagnostic| d@),
            entries_examined: self.entries_examined as nat,
            bytes_examined: self.bytes_examined as nat,
            exhausted: self.exhausted,
        }
    }
}

pub open spec fn nothing_discovered() -> DiscoveryView {
    DiscoveryView {
        candidates: Seq::empty(),
        diagnostics: Seq::empty(),
        entries_examined: 0,
        bytes_examined: 0,
        exhausted: false,
    }
}

/// A stream that failed is reported and read no further.
pub open spec fn after_failure(state: DiscoveryView, source: Seq<char>) -> DiscoveryView {
    DiscoveryView {
        diagnostics: state.diagnostics.push(DiagnosticView::EntryUnreadable(source)),
        ..state
    }
}

/// An entry counts before it is looked at; the one past the limit is the last.
pub open spec fn after_entry(
    state: DiscoveryView,
    source: Seq<char>,
    entry: EntryReading,
    limits: DiscoveryLimits,
) -> DiscoveryView {
    let counted = DiscoveryView { entries_examined: state.entries_examined + 1, ..state };
    if counted.entries_examined > limits.entries {
        DiscoveryView {
            diagnostics: state.diagnostics.push(DiagnosticView::EntryLimitReached),
            exhausted: true,
            ..counted
        }
    } else {
        match entry {
            EntryReading::Other => counted,
            EntryReading::Skill { relative, size } => if state.bytes_examined + size > limits.bytes {
                DiscoveryView {
                    diagnostics: state.diagnostics.push(DiagnosticView::ByteLimitReached),
                    exhausted: true,
                    ..counted
                }
            } else {
                DiscoveryView {
                    candidates: state.candidates.push(
                        CandidateView { source, relative: relative@, size },
                    ),
                    bytes_examined: state.bytes_examined + size as nat,
                    ..counted
                }
            },
        }
    }
}

impl Discovery {
    pub fn new() -> (discovery: Discovery)
        ensures
            discovery@ == nothing_discovered(),
    {
        let discovery = Discovery {
            candidates: Vec::new(),
            diagnostics: Vec::new(),
            entries_examined: 0,
            bytes_examined: 0,
            exhausted: false,
        };
        assert(discovery@.candidates =~= Seq::empty());
        assert(discovery@.diagnostics =~= Seq::empty());
        discovery
    }

    pub fn candidates(&self) -> (list: &Vec<Candidate>)
        ensures
            list@.map_values(|c: Candidate| c@) == self@.candidates,
    {
        &self.candidates
    }

    pub fn diagnostics(&self) -> (list: &Vec<Diagnostic>)
        ensures
            list@.map_values(|d: Diagnostic| d@) == self@.diagnostics,
    {
        &self.diagnostics
    }

    pub fn entries_examined(&self) -> (n: usize)
        ensures
            n == self@.entries_examined,
    {
        self.entries_examined
    }

    pub fn bytes_examined(&self) -> (n: u64)
        ensures
            n == self@.bytes_examined,
    {
        self.bytes_examined
    }

    /// Is something left out?
    pub fn is_partial(&self) -> (r: bool)
        ensures
            r == (self@.diagnostics.len() > 0),
    {
        self.diagnostics.len() > 0
    }

    fn diagnose(&mut self, diagnostic: Diagnostic)
        ensures
            final(self)@ == (DiscoveryView {
                diagnostics: old(self)@.diagnostics.push(diagnostic@),
                ..old(self)@
            }),
    {
        let ghost before = self@;
        let ghost own = diagnostic@;
        self.diagnostics.push(diagnostic);
        assert(self@.diagnostics =~= before.diagnostics.push(own));
    }

    /// The next entry of a stream. A failed stream ends: it need not advance,
    /// so it is not asked again.
    pub fn next_entry<T>(&mut self, entry: Option<Result<T, StreamError>>, source: &str) -> (next:
        Option<T>)
        ensures
            match entry {
                None => next is None && final(self)@ == old(self)@,
                Some(Ok(item)) => next == Some(item) && final(self)@ == old(self)@,
                Some(Err(_)) => next is None && final(self)@ == after_failure(
                    old(self)@,
                    source@,
                ),
            },
    {
        match entry {
            None => None,
            Some(Ok(item)) => Some(item),
            Some(Err(_)) => {
                self.diagnose(Diagnostic::EntryUnreadable(copy_text(source)));
                None
            },
        }
    }

    /// Look at an entry.
    pub fn visit(&mut self, source: &str, entry: &EntryReading, limits: DiscoveryLimits)
        requires
            old(self)@.entries_examined <= limits.entries,
            limits.entries < usize::MAX,
            old(self)@.bytes_examined <= limits.bytes,
        ensures
            final(self)@ == after_entry(old(self)@, source@, *entry, limits),
            final(self)@.bytes_examined <= limits.bytes,
    {
        let ghost before = self@;
        self.entries_examined = self.entries_examined + 1;
        if self.entries_examined > limits.entries {
            self.exhausted = true;
            self.diagnose(Diagnostic::EntryLimitReached);
            return;
        }
        match entry {
            EntryReading::Other => {},
            EntryReading::Skill { relative, size } => {
                if *size > limits.bytes - self.bytes_examined {
                    self.exhausted = true;
                    self.diagnose(Diagnostic::ByteLimitReached);
                    return;
                }
                self.bytes_examined = self.bytes_examined + *size;
                let candidate = Candidate {
                    source: copy_text(source),
                    relative: copy_text(relative.as_str()),
                    size: *size,
                };
                let ghost own = candidate@;
                self.candidates.push(candidate);
                assert(self@.candidates =~= before.candidates.push(own));
            },
        }
    }
}

/// A directory of a root: how deep it lies and what its stream gives.
#[derive(Debug)]
pub struct DirectoryListing {
    pub depth: usize,
    pub entries: Vec<Result<EntryReading, StreamError>>,
}

/// A root with its directories.
#[derive(Debug)]
pub struct PlannedRoot {
    pub source: String,
    pub directories: Vec<DirectoryListing>,
}

/// The roots of a harness to walk, in the order of their sources.
#[derive(Debug)]
pub struct DiscoveryPlan {
    harness: String,
    roots: Vec<PlannedRoot>,
}

/// What a walk does next.
pub enum StepView {
    Check,
    Visit { source: Seq<char>, entry: EntryReading },
    Fail { source: Seq<char> },
}

/// The steps of a stream: a failure ends it.
pub open spec fn stream_steps(
    source: Seq<char>,
    entries: Seq<Result<EntryReading, StreamError>>,
) -> Seq<StepView>
    decreases entries.len(),
{
    if entries.len() == 0 {
        Seq::empty()
    } else {
        match entries[0] {
            Err(_) => seq![StepView::Check, StepView::Fail { source }],
            Ok(entry) => seq![StepView::Check, StepView::Visit { source, entry }] + stream_steps(
                source,
                entries.skip(1),
            ),
        }
    }
}

/// The steps of the directories of a root from `from` on that lie at a depth.
pub open spec fn root_steps(root: PlannedRoot, depth: nat, from: int) -> Seq<StepView>
    decreases root.directories@.len() - from,
{
    if from < 0 || from >= root.directories@.len() {
        Seq::empty()
    } else {
        let directory = root.directories@[from];
        (if directory.depth == depth {
            seq![StepView::Check] + stream_steps(root.source@, directory.entries@)
        } else {
            Seq::empty()
        }) + root_steps(root, depth, from + 1)
    }
}

/// The steps of one level of the roots from `from` on.
pub open spec fn level_steps(roots: Seq<PlannedRoot>, depth: nat, from: int) -> Seq<StepView>
    decreases roots.len() - from,
{
    if from < 0 || from >= roots.len() {
        Seq::empty()
    } else {
        root_steps(roots[from], depth, 0) + level_steps(roots, depth, from + 1)
    }
}

/// The steps of the levels from `depth` on.
pub open spec fn walk_steps(roots: Seq<PlannedRoot>, levels: nat, depth: nat) -> Seq<StepView>
    decreases levels - depth,
{
    if depth >= levels {
        Seq::empty()
    } else {
        level_steps(roots, depth, 0) + walk_steps(roots, levels, depth + 1)
    }
}

/// A walk between two steps: what was found, and how often it was checked.
pub struct WalkView {
    pub found: DiscoveryView,
    pub checks: nat,
    pub refused: bool,
}

/// The state after some steps. An exhausted walk takes no further step; a
/// refused one neither.
pub open spec fn walked(
    state: WalkView,
    steps: Seq<StepView>,
    limits: DiscoveryLimits,
    refusal: Option<nat>,
) -> WalkView
    decreases steps.len(),
{
    if steps.len() == 0 || state.refused || state.found.exhausted {
        state
    } else {
        walked(after_step(state, steps[0], limits, refusal), steps.skip(1), limits, refusal)
    }
}

pub open spec fn after_step(
    state: WalkView,
    step: StepView,
    limits: DiscoveryLimits,
    refusal: Option<nat>,
) -> WalkView {
    match step {
        StepView::Check => WalkView {
            checks: state.checks + 1,
            refused: refusal == Some(state.checks + 1),
            ..state
        },
        StepView::Visit { source, entry } => WalkView {
            found: after_entry(state.found, source, entry, limits),
            ..state
        },
        StepView::Fail { source } => WalkView { found: after_failure(state.found, source), ..state },
    }
}

/// A whole pass: admission is checked before the walk, and completion after
/// it.
pub open spec fn passed(
    roots: Seq<PlannedRoot>,
    limits: DiscoveryLimits,
    refusal: Option<nat>,
) -> WalkView {
    let entered = after_step(
        WalkView { found: nothing_discovered(), checks: 0, refused: false },
        StepView::Check,
        limits,
        refusal,
    );
    let walk = walked(
        entered,
        walk_steps(roots, limits.levels as nat, 0),
        limits,
        refusal,
    );
    if walk.refused {
        walk
    } else {
        after_step(walk, StepView::Check, limits, refusal)
    }
}

/// The checks of a pass, of which one may be refused with an error.
#[derive(Clone, Debug)]
pub struct Checkpoints {
    calls: u64,
    refusal: Option<u64>,
    error: String,
}

impl Checkpoints {
    pub closed spec fn made(self) -> nat {
        self.calls as nat
    }

    pub closed spec fn refused_at(self) -> Option<nat> {
        match self.refusal {
            Some(n) => Some(n as nat),
            None => None,
        }
    }

    /// The error of the refused check.
    pub closed spec fn error_text(self) -> Seq<char> {
        self.error@
    }

    /// Checks that are all admitted.
    pub fn admitting() -> (checks: Checkpoints)
        ensures
            checks.made() == 0,
            checks.refused_at() is None,
    {
        Checkpoints { calls: 0, refusal: None, error: String::new() }
    }

    /// Checks of which the `n`th is refused.
    pub fn refusing(n: u64, error: &str) -> (checks: Checkpoints)
        ensures
            checks.made() == 0,
            checks.refused_at() == Some(n as nat),
            checks.error_text() == error@,
    {
        Checkpoints { calls: 0, refusal: Some(n), error: copy_text(error) }
    }

    /// How many checks were made.
    pub fn calls(&self) -> (n: u64)
        ensures
            n == self.made(),
    {
        self.calls
    }

    /// Make a check: whether the work may go on.
    fn check(&mut self) -> (go: bool)
        requires
            old(self).made() < u64::MAX,
        ensures
            final(self).made() == old(self).made() + 1,
            final(self).refused_at() == old(self).refused_at(),
            final(self).error_text() == old(self).error_text(),
            go == (old(self).refused_at() != Some(old(self).made() + 1)),
    {
        self.calls = self.calls + 1;
        match self.refusal {
            Some(n) => n != self.calls,
            None => true,
        }
    }
}

/// Steps can be taken in two parts.
proof fn walks_compose(
    state: WalkView,
    a: Seq<StepView>,
    b: Seq<StepView>,
    limits: DiscoveryLimits,
    refusal: Option<nat>,
)
    ensures
        walked(state, a + b, limits, refusal) == walked(
            walked(state, a, limits, refusal),
            b,
            limits,
            refusal,
        ),
    decreases a.len(),
{
    if a.len() == 0 {
        assert(a + b =~= b);
    } else if state.refused || state.found.exhausted {
    } else {
        assert((a + b)[0] == a[0]);
        assert((a + b).skip(1) =~= a.skip(1) + b);
        walks_compose(after_step(state, a[0], limits, refusal), a.skip(1), b, limits, refusal);
    }
}

/// Each step makes one check at most.
proof fn checks_are_counted(
    state: WalkView,
    steps: Seq<StepView>,
    limits: DiscoveryLimits,
    refusal: Option<nat>,
)
    ensures
        walked(state, steps, limits, refusal).checks <= state.checks + steps.len(),
    decreases steps.len(),
{
    if steps.len() == 0 || state.refused || state.found.exhausted {
    } else {
        checks_are_counted(
            after_step(state, steps[0], limits, refusal),
            steps.skip(1),
            limits,
            refusal,
        );
    }
}

/// A walk in progress.
struct Walk {
    found: Discovery,
    checks: Checkpoints,
    refused: bool,
}

impl Walk {
    spec fn state(self) -> WalkView {
        WalkView { found: self.found@, checks: self.checks.made(), refused: self.refused }
    }

    spec fn inv(self, limits: DiscoveryLimits) -> bool {
        &&& limits.entries < usize::MAX
        &&& !self.found@.exhausted ==> self.found@.entries_examined <= limits.entries
        &&& self.found@.bytes_examined <= limits.bytes
    }

    fn is_over(&self) -> (r: bool)
        ensures
            r == (self.refused || self.found@.exhausted),
    {
        self.refused || self.found.exhausted
    }

    fn check(&mut self, limits: DiscoveryLimits)
        requires
            old(self).inv(limits),
            old(self).checks.made() < u64::MAX,
            !old(self).refused,
        ensures
            final(self).inv(limits),
            final(self).state() == after_step(
                old(self).state(),
                StepView::Check,
                limits,
                old(self).checks.refused_at(),
            ),
            final(self).checks.refused_at() == old(self).checks.refused_at(),
            final(self).checks.error_text() == old(self).checks.error_text(),
    {
        let go: bool = self.checks.check();
        self.refused = !go;
    }

    fn walk_stream(
        &mut self,
        source: &str,
        entries: &Vec<Result<EntryReading, StreamError>>,
        limits: DiscoveryLimits,
    )
        requires
            old(self).inv(limits),
            old(self).checks.made() + stream_steps(source@, entries@).len() <= u64::MAX,
        ensures
            final(self).inv(limits),
            final(self).state() == walked(
                old(self).state(),
                stream_steps(source@, entries@),
                limits,
                old(self).checks.refused_at(),
            ),
            final(self).checks.refused_at() == old(self).checks.refused_at(),
            final(self).checks.error_text() == old(self).checks.error_text(),
    {
        let ghost all = entries@;
        let ghost refusal = self.checks.refused_at();
        let ghost start = self.state();
        let mut i: usize = 0;
        assert(all.skip(0) =~= all);
        while i < entries.len()
            invariant
                i <= entries@.len(),
                all == entries@,
                self.inv(limits),
                start == old(self).state(),
                refusal == old(self).checks.refused_at(),
                self.checks.refused_at() == refusal,
                self.checks.error_text() == old(self).checks.error_text(),
                self.checks.made() + stream_steps(source@, all.skip(i as int)).len() <= u64::MAX,
                walked(start, stream_steps(source@, all), limits, refusal) == walked(
                    self.state(),
                    stream_steps(source@, all.skip(i as int)),
                    limits,
                    refusal,
                ),
            decreases entries@.len() - i,
        {
            let ghost rest = all.skip(i as int);
            let ghost steps = stream_steps(source@, rest);
            assert(rest[0] == all[i as int]);
            assert(rest.skip(1) =~= all.skip(i + 1));
            if self.is_over() {
                return;
            }
            let ghost here = self.state();
            let ghost tail = steps.skip(1);
            assert(steps[0] is Check);
            self.check(limits);
            let ghost mid = self.state();
            assert(walked(here, steps, limits, refusal) == walked(mid, tail, limits, refusal));
            if self.refused {
                return;
            }
            let item: Result<&EntryReading, StreamError> = match &entries[i] {
                Ok(entry) => Ok(entry),
                Err(error) => Err(*error),
            };
            match self.found.next_entry(Some(item), source) {
                Some(entry) => {
                    assert(tail[0] == (StepView::Visit { source: source@, entry: *entry }));
                    assert(tail.skip(1) =~= stream_steps(source@, all.skip(i + 1)));
                    self.found.visit(source, entry, limits);
                    assert(walked(mid, tail, limits, refusal) == walked(
                        self.state(),
                        tail.skip(1),
                        limits,
                        refusal,
                    ));
                },
                None => {
                    assert(tail =~= seq![StepView::Fail { source: source@ }]);
                    assert(walked(mid, tail, limits, refusal) == walked(
                        self.state(),
                        tail.skip(1),
                        limits,
                        refusal,
                    ));
                    return;
                },
            }
            i += 1;
        }
    }

    fn walk_root(&mut self, root: &PlannedRoot, depth: usize, limits: DiscoveryLimits)
        requires
            old(self).inv(limits),
            old(self).checks.made() + root_steps(*root, depth as nat, 0).len() <= u64::MAX,
        ensures
            final(self).inv(limits),
            final(self).state() == walked(
                old(self).state(),
                root_steps(*root, depth as nat, 0),
                limits,
                old(self).checks.refused_at(),
            ),
            final(self).checks.refused_at() == old(self).checks.refused_at(),
            final(self).checks.error_text() == old(self).checks.error_text(),
    {
        let ghost refusal = self.checks.refused_at();
        let ghost start = self.state();
        let mut i: usize = 0;
        while i < root.directories.len()
            invariant
                i <= root.directories@.len(),
                self.inv(limits),
                start == old(self).state(),
                refusal == old(self).checks.refused_at(),
                self.checks.refused_at() == refusal,
                self.checks.error_text() == old(self).checks.error_text(),
                self.checks.made() + root_steps(*root, depth as nat, i as int).len() <= u64::MAX,
                walked(start, root_steps(*root, depth as nat, 0), limits, refusal) == walked(
                    self.state(),
                    root_steps(*root, depth as nat, i as int),
                    limits,
                    refusal,
                ),
            decreases root.directories@.len() - i,
        {
            let directory: &DirectoryListing = &root.directories[i];
            let ghost more = root_steps(*root, depth as nat, i + 1);
            if self.is_over() {
                return;
            }
            if directory.depth == depth {
                let ghost stream = stream_steps(root.source@, directory.entries@);
                let ghost here = self.state();
                proof {
                    assert(root_steps(*root, depth as nat, i as int) =~= (seq![StepView::Check]
                        + stream) + more);
                    walks_compose(here, seq![StepView::Check] + stream, more, limits, refusal);
                    assert((seq![StepView::Check] + stream).skip(1) =~= stream);
                    checks_are_counted(here, seq![StepView::Check] + stream, limits, refusal);
                }
                self.check(limits);
                assert(walked(here, seq![StepView::Check] + stream, limits, refusal) == walked(
                    self.state(),
                    stream,
                    limits,
                    refusal,
                ));
                if self.refused {
                    return;
                }
                self.walk_stream(root.source.as_str(), &directory.entries, limits);
            } else {
                assert(Seq::<StepView>::empty() + more =~= more);
            }
            i += 1;
        }
    }

    fn walk_level(&mut self, roots: &Vec<PlannedRoot>, depth: usize, limits: DiscoveryLimits)
        requires
            old(self).inv(limits),
            old(self).checks.made() + level_steps(roots@, depth as nat, 0).len() <= u64::MAX,
        ensures
            final(self).inv(limits),
            final(self).state() == walked(
                old(self).state(),
                level_steps(roots@, depth as nat, 0),
                limits,
                old(self).checks.refused_at(),
            ),
            final(self).checks.refused_at() == old(self).checks.refused_at(),
            final(self).checks.error_text() == old(self).checks.error_text(),
    {
        let ghost refusal = self.checks.refused_at();
        let ghost start = self.state();
        let mut i: usize = 0;
        while i < roots.len()
            invariant
                i <= roots@.len(),
                self.inv(limits),
                start == old(self).state(),
                refusal == old(self).checks.refused_at(),
                self.checks.refused_at() == refusal,
                self.checks.error_text() == old(self).checks.error_text(),
                self.checks.made() + level_steps(roots@, depth as nat, i as int).len() <= u64::MAX,
                walked(start, level_steps(roots@, depth as nat, 0), limits, refusal) == walked(
                    self.state(),
                    level_steps(roots@, depth as nat, i as int),
                    limits,
                    refusal,
                ),
            decreases roots@.len() - i,
        {
            proof {
                let own = root_steps(roots@[i as int], depth as nat, 0);
                let more = level_steps(roots@, depth as nat, i + 1);
                walks_compose(self.state(), own, more, limits, refusal);
                checks_are_counted(self.state(), own, limits, refusal);
            }
            self.walk_root(&roots[i], depth, limits);
            i += 1;
        }
    }

    fn walk_all(&mut self, roots: &Vec<PlannedRoot>, limits: DiscoveryLimits)
        requires
            old(self).inv(limits),
            old(self).checks.made() + walk_steps(roots@, limits.levels as nat, 0).len() <= u64::MAX,
        ensures
            final(self).inv(limits),
            final(self).state() == walked(
                old(self).state(),
                walk_steps(roots@, limits.levels as nat, 0),
                limits,
                old(self).checks.refused_at(),
            ),
            final(self).checks.refused_at() == old(self).checks.refused_at(),
            final(self).checks.error_text() == old(self).checks.error_text(),
    {
        let ghost refusal = self.checks.refused_at();
        let ghost start = self.state();
        let ghost levels = limits.levels as nat;
        let mut depth: usize = 0;
        while depth < limits.levels
            invariant
                depth <= limits.levels,
                levels == limits.levels,
                self.inv(limits),
                start == old(self).state(),
                refusal == old(self).checks.refused_at(),
                self.checks.refused_at() == refusal,
                self.checks.error_text() == old(self).checks.error_text(),
                self.checks.made() + walk_steps(roots@, levels, depth as nat).len() <= u64::MAX,
                walked(start, walk_steps(roots@, levels, 0), limits, refusal) == walked(
                    self.state(),
                    walk_steps(roots@, levels, depth as nat),
                    limits,
                    refusal,
                ),
            decreases limits.levels - depth,
        {
            proof {
                let own = level_steps(roots@, depth as nat, 0);
                let more = walk_steps(roots@, levels, (depth + 1) as nat);
                walks_compose(self.state(), own, more, limits, refusal);
                checks_are_counted(self.state(), own, limits, refusal);
            }
            self.walk_level(roots, depth, limits);
            depth += 1;
        }
    }
}

/// Where a root with this source belongs among sorted ones: behind all that do
/// not come after it.
pub open spec fn is_root_place(roots: Seq<PlannedRoot>, source: Seq<char>, at: int) -> bool {
    &&& 0 <= at <= roots.len()
    &&& forall|i: int|
        0 <= i < at ==> !(text_standing((#[trigger] roots[i]).source@, source) is After)
    &&& at < roots.len() ==> text_standing(roots[at].source@, source) is After
}

impl DiscoveryPlan {
    pub closed spec fn planned(self) -> Seq<PlannedRoot> {
        self.roots@
    }

    pub closed spec fn harness_text(self) -> Seq<char> {
        self.harness@
    }

    pub fn new(harness: &str) -> (plan: DiscoveryPlan)
        ensures
            plan.planned() == Seq::<PlannedRoot>::empty(),
            plan.harness_text() == harness@,
    {
        DiscoveryPlan { harness: copy_text(harness), roots: Vec::new() }
    }

    pub fn harness(&self) -> (harness: &str)
        ensures
            harness@ == self.harness_text(),
    {
        self.harness.as_str()
    }

    /// Add a root at its place in the order of sources.
    pub fn push_root(&mut self, root: PlannedRoot)
        ensures
            exists|at: int|
                #[trigger] is_root_place(old(self).planned(), root.source@, at)
                    && final(self).planned() == old(self).planned().insert(at, root),
            final(self).harness_text() == old(self).harness_text(),
    {
        let mut at: usize = 0;
        while at < self.roots.len()
            invariant
                self == old(self),
                at <= self.roots@.len(),
                forall|i: int|
                    0 <= i < at ==> !(text_standing(
                        (#[trigger] self.roots@[i]).source@,
                        root.source@,
                    ) is After),
            ensures
                is_root_place(self.roots@, root.source@, at as int),
            decreases self.roots@.len() - at,
        {
            match compare_text(self.roots[at].source.as_str(), root.source.as_str()) {
                Standing::After => {
                    break;
                },
                _ => {},
            }
            at += 1;
        }
        assert(is_root_place(old(self).planned(), root.source@, at as int));
        self.roots.insert(at, root);
    }

    /// Can the steps of this plan be counted?
    pub open spec fn is_countable(self, limits: DiscoveryLimits) -> bool {
        walk_steps(self.planned(), limits.levels as nat, 0).len() + 2 <= u64::MAX
    }

    /// Walk the plan with a check at admission, before every directory and
    /// every entry, and at completion. A refused check ends the pass at once.
    pub fn discover_with_checkpoint(&self, limits: DiscoveryLimits, checks: Checkpoints) -> (r: (
        Result<Discovery, String>,
        Checkpoints,
    ))
        requires
            checks.made() == 0,
            limits.entries < usize::MAX,
            self.is_countable(limits),
        ensures
            ({
                let pass = passed(self.planned(), limits, checks.refused_at());
                &&& r.1.made() == pass.checks
                &&& match r.0 {
                    Ok(discovery) => !pass.refused && discovery@ == pass.found,
                    Err(error) => pass.refused && error@ == checks.error_text(),
                }
            }),
    {
        let mut walk = Walk { found: Discovery::new(), checks, refused: false };
        let ghost refusal = checks.refused_at();
        walk.check(limits);
        proof {
            checks_are_counted(
                walk.state(),
                walk_steps(self.planned(), limits.levels as nat, 0),
                limits,
                refusal,
            );
        }
        walk.walk_all(&self.roots, limits);
        if !walk.refused {
            walk.check(limits);
        }
        if walk.refused {
            let error: String = copy_text(walk.checks.error.as_str());
            (Err(error), walk.checks)
        } else {
            (Ok(walk.found), walk.checks)
        }
    }

    /// Walk the plan without a refusal.
    pub fn discover_with(&self, limits: DiscoveryLimits) -> (discovery: Discovery)
        requires
            limits.entries < usize::MAX,
            self.is_countable(limits),
        ensures
            discovery@ == passed(self.planned(), limits, None).found,
    {
        proof {
            nothing_is_refused(
                after_step(
                    WalkView { found: nothing_discovered(), checks: 0, refused: false },
                    StepView::Check,
                    limits,
                    None,
                ),
                walk_steps(self.planned(), limits.levels as nat, 0),
                limits,
            );
        }
        match self.discover_with_checkpoint(limits, Checkpoints::admitting()) {
            (Ok(discovery), _) => discovery,
            (Err(_), _) => Discovery::new(),
        }
    }
}

proof fn nothing_is_refused(state: WalkView, steps: Seq<StepView>, limits: DiscoveryLimits)
    requires
        !state.refused,
    ensures
        !walked(state, steps, limits, None).refused,
    decreases steps.len(),
{
    if steps.len() > 0 && !state.found.exhausted {
        nothing_is_refused(after_step(state, steps[0], limits, None), steps.skip(1), limits);
    }
}

/// A walk stays within its allowance but for the one entry that shows it to be
/// exhausted, and one that is exhausted is reported so.
pub proof fn walks_are_bounded(
    state: WalkView,
    steps: Seq<StepView>,
    limits: DiscoveryLimits,
    refusal: Option<nat>,
)
    requires
        !state.found.exhausted,
        state.found.entries_examined <= limits.entries,
        state.found.bytes_examined <= limits.bytes,
    ensures
        ({
            let end = walked(state, steps, limits, refusal).found;
            &&& end.entries_examined <= limits.entries + 1
            &&& end.bytes_examined <= limits.bytes
            &&& end.exhausted ==> end.diagnostics.len() > 0
            &&& !end.exhausted ==> end.entries_examined <= limits.entries
        }),
    decreases steps.len(),
{
    if steps.len() > 0 && !state.refused {
        let next = after_step(state, steps[0], limits, refusal);
        if next.found.exhausted {
            assert(walked(next, steps.skip(1), limits, refusal) == next);
        } else {
            walks_are_bounded(next, steps.skip(1), limits, refusal);
        }
    }
}

/// Even an empty pass is checked twice, and a refusal of any check that is
/// made ends it there.
pub proof fn every_pass_is_checked(
    roots: Seq<PlannedRoot>,
    limits: DiscoveryLimits,
    refusal: Option<nat>,
)
    ensures
        passed(roots, limits, None).checks >= 2,
        refusal == Some(1nat) ==> passed(roots, limits, refusal).refused && passed(
            roots,
            limits,
            refusal,
        ).checks == 1,
        passed(roots, limits, refusal).refused ==> refusal == Some(
            passed(roots, limits, refusal).checks,
        ),
{
    let start = WalkView { found: nothing_discovered(), checks: 0, refused: false };
    let steps = walk_steps(roots, limits.levels as nat, 0);
    checks_never_fall(after_step(start, StepView::Check, limits, None), steps, limits, None);
    nothing_is_refused(after_step(start, StepView::Check, limits, None), steps, limits);
    checks_never_fall(after_step(start, StepView::Check, limits, refusal), steps, limits, refusal);
}

proof fn checks_never_fall(
    state: WalkView,
    steps: Seq<StepView>,
    limits: DiscoveryLimits,
    refusal: Option<nat>,
)
    requires
        state.refused ==> refusal == Some(state.checks),
    ensures
        walked(state, steps, limits, refusal).checks >= state.checks,
        walked(state, steps, limits, refusal).refused ==> refusal == Some(
            walked(state, steps, limits, refusal).checks,
        ),
    decreases steps.len(),
{
    if steps.len() > 0 && !state.refused && !state.found.exhausted {
        checks_never_fall(
            after_step(state, steps[0], limits, refusal),
            steps.skip(1),
            limits,
            refusal,
        );
    }
}

} // verus!
