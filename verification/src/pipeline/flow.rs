//! The order of a ranking: what it does next, and where it ends.
//!
//! Each step takes what the last action found and gives the next action. The
//! actions themselves read, send and store; the decisions stand here.
use crate::pipeline::failure::{
    failing, failing_as, failing_with, failure, failure_with, input_failure, FailureView,
    PipelineFailure,
};
use vstd::prelude::*;

verus! {

/// The most candidates that a wide request can carry.
pub const MAX_REAL_OPTIONS: usize = 254;

/// The longest shortlist.
pub const MAX_SHORTLIST: usize = 32;

/// What a ranking waits for.
#[derive(Clone, Copy, Debug, PartialEq, Eq, Structural)]
pub enum Phase {
    Start,
    Config,
    Source,
    Context,
    Anchor,
    Roster,
    Explicit,
    ExplicitPolicy,
    Admission,
    Retrieval,
    Capture,
    Render,
    Store,
    WideRequest,
    Preview,
    Endpoint,
    Lookup,
    Lease,
    Waiting,
    SecondLookup,
    WideAnswer,
    WideOutcome,
    LowNeedPolicy,
    RerankRequest,
    RerankAnswer,
    RerankOutcome,
    Scores,
    RosterCheck,
    RankedPolicy,
    Publication,
    Ended,
}

/// Where the wide answer of a ranking comes from.
#[derive(Clone, Copy, Debug, PartialEq, Eq, Structural)]
pub enum WideOrigin {
    Unanswered,
    /// From the cache, with the rerank answer of its shortlist or, where it
    /// needs none, without.
    Cached { with_rerank: bool },
    /// From this invocation's own session.
    Fresh,
}

/// A ranking between two steps.
#[derive(Clone, Copy, Debug, PartialEq, Eq, Structural)]
pub struct Flow {
    pub phase: Phase,
    pub dry_run: bool,
    /// Are there skills that must be taken outright?
    pub required: bool,
    /// Were the session and the roster admitted?
    pub admitted: bool,
    /// Is the persistent cache open?
    pub persistent: bool,
    /// May leases be taken?
    pub leases: bool,
    pub lease_held: bool,
    pub wide: WideOrigin,
    pub roster_valid: bool,
    pub policy_current: bool,
}

/// What reading the configuration gave.
#[derive(Clone, Copy, Debug, PartialEq, Eq, Structural)]
pub enum ConfigReading {
    Failed,
    Loaded { top: usize, shortlist: usize, workspace_valid: bool },
}

/// What selecting the context source gave.
#[derive(Clone, Copy, Debug, PartialEq, Eq, Structural)]
pub enum SourceReading {
    Failed,
    NeedsChoice,
    NormalizedFile,
    NormalizedStdin,
    Transcript,
    HookStdin,
    Archive,
}

/// What the request's anchor is.
#[derive(Clone, Copy, Debug, PartialEq, Eq, Structural)]
pub enum AnchorReading {
    Established { required: bool },
    MissingTask,
    Oversized,
    Conflicting,
}

/// What explicit requirements came to.
#[derive(Clone, Copy, Debug, PartialEq, Eq, Structural)]
pub enum ExplicitReading {
    Failed,
    Resolved,
    Unresolved,
    NoneSpecified,
}

/// What re-reading the policy gave.
#[derive(Clone, Copy, Debug, PartialEq, Eq, Structural)]
pub enum PolicyReading {
    Failed,
    Current,
    Refused,
}

/// What admitting the candidates gave.
#[derive(Clone, Copy, Debug, PartialEq, Eq, Structural)]
pub enum AdmissionReading {
    NoAdvisory,
    Abstain,
    Unavailable,
    Candidates(usize),
}

/// What retrieval gave.
#[derive(Clone, Copy, Debug, PartialEq, Eq, Structural)]
pub enum RetrievalReading {
    Failed,
    Candidates(usize),
}

/// What rendering the context gave.
#[derive(Clone, Copy, Debug, PartialEq, Eq, Structural)]
pub enum RenderReading {
    Unsupported,
    Unsafe,
    Unserializable,
    Rendered { unsupported: bool, request_truncated: bool },
}

/// What opening the response cache gave.
#[derive(Clone, Copy, Debug, PartialEq, Eq, Structural)]
pub enum StoreReading {
    NoKey,
    Ready { persistent: bool, leases: bool },
}

/// What looking up a cached answer gave.
#[derive(Clone, Copy, Debug, PartialEq, Eq, Structural)]
pub enum LookupReading {
    Miss,
    Hit { with_rerank: bool },
}

/// What asking for the lease gave.
#[derive(Clone, Copy, Debug, PartialEq, Eq, Structural)]
pub enum LeaseReading {
    Unavailable,
    Leading,
    Following,
    AlreadyCompleted,
}

/// What the wide answer says.
#[derive(Clone, Copy, Debug, PartialEq, Eq, Structural)]
pub enum WideReading {
    Invalid,
    LowNeed,
    Shortlist,
}

/// What the rerank answer says.
#[derive(Clone, Copy, Debug, PartialEq, Eq, Structural)]
pub enum RerankReading {
    Invalid,
    Abstain,
    Unavailable,
    Eligible,
}

/// What scoring the eligible skills gave.
#[derive(Clone, Copy, Debug, PartialEq, Eq, Structural)]
pub enum ScoreReading {
    BadWeights,
    Failed,
    Ranked,
}

/// What an action found.
#[derive(Clone, Copy, Debug, PartialEq, Eq, Structural)]
pub enum Event {
    Clock { open: bool },
    Config(ConfigReading),
    Source(SourceReading),
    Context { read: bool },
    Anchor(AnchorReading),
    Roster { loaded: bool },
    Explicit(ExplicitReading),
    Policy(PolicyReading),
    Admission(AdmissionReading),
    Retrieval(RetrievalReading),
    Capture { captured: bool },
    Render(RenderReading),
    Store(StoreReading),
    WideRequest { built: bool },
    Preview { built: bool },
    Endpoint { valid: bool },
    Lookup(LookupReading),
    Lease(LeaseReading),
    Waited,
    WideAnswer { answered: bool },
    WideOutcome(WideReading),
    RerankRequest { built: bool },
    RerankAnswer { answered: bool },
    RerankOutcome(RerankReading),
    Scores(ScoreReading),
    RosterCheck { valid: bool },
    Publication { late: bool },
}

/// What to do next.
#[derive(Clone, Copy, Debug, PartialEq, Eq, Structural)]
pub enum Action {
    LoadConfig,
    SelectSource,
    ReadContext,
    ResolveAnchor,
    LoadRoster,
    ResolveExplicit,
    RefreshPolicy,
    AdmitCandidates,
    Retrieve,
    CaptureDependencies,
    RenderContext,
    OpenStore,
    BuildWide,
    BuildPreview,
    ResolveEndpoint,
    LookUp,
    AcquireLease,
    WaitForLeader,
    SendWide,
    EvaluateWide,
    BuildRerank,
    SendRerank,
    EvaluateRerank,
    Score,
    ValidateRoster,
    CheckPublication,
    Finish(Ending),
}

/// How a ranking ends.
#[derive(Clone, Copy, Debug, PartialEq, Eq, Structural)]
pub enum Ending {
    Failed(Stop),
    Explicit,
    Unresolved,
    EmptyRoster,
    AdmissionAbstains,
    AdmissionUnavailable,
    NoShortlistMatch,
    Preview,
    LowNeed,
    RerankAbstains,
    RerankUnavailable,
    Ranked,
}

/// Why a ranking failed. `Reported` is a failure of the last action, in its
/// own words.
#[derive(Clone, Copy, Debug, PartialEq, Eq, Structural)]
pub enum Stop {
    DeadlineBeforeStart,
    InvalidSizes,
    InvalidWorkspace,
    AmbiguousSession,
    HookSource,
    ArchiveSource,
    MissingTask,
    OversizedRequest,
    ConflictingDirectives,
    RenderUnsupported,
    RenderUnsafe,
    RenderUnserializable,
    ContextDoesNotFit,
    NoFingerprintKey,
    InvalidEndpoint,
    UnpairedRerank,
    BadWeights,
    Reported,
}

impl Stop {
    /// The report of a failure that is not in another's words.
    pub open spec fn report_view(self, hook_hint: Seq<char>, sizes: Seq<char>) -> Option<
        FailureView,
    > {
        match self {
            Stop::DeadlineBeforeStart => Some(
                failing(6, "timeout"@, "Invocation deadline exceeded before ranking start"@),
            ),
            Stop::InvalidSizes => Some(
                failing_with(2, "invalid-configuration"@, "Invalid ranking sizes: "@, sizes),
            ),
            Stop::InvalidWorkspace => Some(
                failing(2, "invalid-configuration"@, "Invalid workspace root path"@),
            ),
            Stop::AmbiguousSession => Some(
                failing(
                    2,
                    "ambiguous-session"@,
                    "Multiple sessions available; selection required"@,
                ),
            ),
            Stop::HookSource => Some(
                failing(2, "unsupported-source-mode"@, hook_hint),
            ),
            Stop::ArchiveSource => Some(
                failing(
                    7,
                    "unsupported-source-mode"@,
                    "Cass session mode unavailable in this execution lane"@,
                ),
            ),
            Stop::MissingTask => Some(
                failing_as(
                    "insufficient-context"@,
                    "The request continues a task whose instruction is not in the context"@,
                ),
            ),
            Stop::OversizedRequest => Some(
                failing_as("oversized-input"@, "The request is too large to inspect"@),
            ),
            Stop::ConflictingDirectives => Some(
                failing_as(
                    "unresolved-explicit"@,
                    "The context both requires and excludes the same skill"@,
                ),
            ),
            Stop::RenderUnsupported => Some(
                failing_as(
                    "insufficient-context"@,
                    "The request depends on content that is not in the context"@,
                ),
            ),
            Stop::RenderUnsafe => Some(
                failing_as("unsupported-input"@, "The context could not be made safe to send"@),
            ),
            Stop::RenderUnserializable => Some(
                failing_as(
                    "oversized-input"@,
                    "The context could not be rendered within its bounds"@,
                ),
            ),
            Stop::ContextDoesNotFit => Some(
                failing_as(
                    "insufficient-context"@,
                    "The request or its essential context does not fit the admitted input"@,
                ),
            ),
            Stop::NoFingerprintKey => Some(
                failing(9, "storage-failure"@, "Fingerprint key could not be generated"@),
            ),
            Stop::InvalidEndpoint => Some(
                failing(2, "invalid-configuration"@, "The configured endpoint is invalid"@),
            ),
            Stop::UnpairedRerank => Some(
                failing(
                    11,
                    "cache-miss"@,
                    "A cached wide answer cannot be paired with a fresh rerank"@,
                ),
            ),
            Stop::BadWeights => Some(
                failing(2, "invalid-configuration"@, "Ranking weights are out of bounds"@),
            ),
            Stop::Reported => None,
        }
    }

    /// Report a failure; `hook_hint` tells which command reads hook input, and
    /// `sizes` what is wrong with the sizes.
    pub fn report(self, hook_hint: &str, sizes: &str) -> (r: Option<PipelineFailure>)
        ensures
            match r {
                Some(f) => self.report_view(hook_hint@, sizes@) == Some(f@),
                None => self.report_view(hook_hint@, sizes@) is None,
            },
    {
        match self {
            Stop::DeadlineBeforeStart => Some(
                failure(6, "timeout", "Invocation deadline exceeded before ranking start"),
            ),
            Stop::InvalidSizes => Some(
                failure_with(2, "invalid-configuration", "Invalid ranking sizes: ", sizes),
            ),
            Stop::InvalidWorkspace => Some(
                failure(2, "invalid-configuration", "Invalid workspace root path"),
            ),
            Stop::AmbiguousSession => Some(
                failure(2, "ambiguous-session", "Multiple sessions available; selection required"),
            ),
            Stop::HookSource => Some(
                failure(2, "unsupported-source-mode", hook_hint),
            ),
            Stop::ArchiveSource => Some(
                failure(
                    7,
                    "unsupported-source-mode",
                    "Cass session mode unavailable in this execution lane",
                ),
            ),
            Stop::MissingTask => Some(
                input_failure(
                    "insufficient-context",
                    "The request continues a task whose instruction is not in the context",
                ),
            ),
            Stop::OversizedRequest => Some(
                input_failure("oversized-input", "The request is too large to inspect"),
            ),
            Stop::ConflictingDirectives => Some(
                input_failure(
                    "unresolved-explicit",
                    "The context both requires and excludes the same skill",
                ),
            ),
            Stop::RenderUnsupported => Some(
                input_failure(
                    "insufficient-context",
                    "The request depends on content that is not in the context",
                ),
            ),
            Stop::RenderUnsafe => Some(
                input_failure("unsupported-input", "The context could not be made safe to send"),
            ),
            Stop::RenderUnserializable => Some(
                input_failure(
                    "oversized-input",
                    "The context could not be rendered within its bounds",
                ),
            ),
            Stop::ContextDoesNotFit => Some(
                input_failure(
                    "insufficient-context",
                    "The request or its essential context does not fit the admitted input",
                ),
            ),
            Stop::NoFingerprintKey => Some(
                failure(9, "storage-failure", "Fingerprint key could not be generated"),
            ),
            Stop::InvalidEndpoint => Some(
                failure(2, "invalid-configuration", "The configured endpoint is invalid"),
            ),
            Stop::UnpairedRerank => Some(
                failure(
                    11,
                    "cache-miss",
                    "A cached wide answer cannot be paired with a fresh rerank",
                ),
            ),
            Stop::BadWeights => Some(
                failure(2, "invalid-configuration", "Ranking weights are out of bounds"),
            ),
            Stop::Reported => None,
        }
    }
}

/// The start of a ranking.
pub open spec fn started(dry_run: bool) -> Flow {
    Flow {
        phase: Phase::Start,
        dry_run,
        required: false,
        admitted: false,
        persistent: false,
        leases: false,
        lease_held: false,
        wide: WideOrigin::Unanswered,
        roster_valid: false,
        policy_current: false,
    }
}

/// Is this what the phase waits for?
pub open spec fn is_awaited(phase: Phase, event: Event) -> bool {
    match phase {
        Phase::Start => event is Clock,
        Phase::Config => event is Config,
        Phase::Source => event is Source,
        Phase::Context => event is Context,
        Phase::Anchor => event is Anchor,
        Phase::Roster => event is Roster,
        Phase::Explicit => event is Explicit,
        Phase::ExplicitPolicy => event is Policy,
        Phase::Admission => event is Admission,
        Phase::Retrieval => event is Retrieval,
        Phase::Capture => event is Capture,
        Phase::Render => event is Render,
        Phase::Store => event is Store,
        Phase::WideRequest => event is WideRequest,
        Phase::Preview => event is Preview,
        Phase::Endpoint => event is Endpoint,
        Phase::Lookup => event is Lookup,
        Phase::Lease => event is Lease,
        Phase::Waiting => event is Waited,
        Phase::SecondLookup => event is Lookup,
        Phase::WideAnswer => event is WideAnswer,
        Phase::WideOutcome => event is WideOutcome,
        Phase::LowNeedPolicy => event is Policy,
        Phase::RerankRequest => event is RerankRequest,
        Phase::RerankAnswer => event is RerankAnswer,
        Phase::RerankOutcome => event is RerankOutcome,
        Phase::Scores => event is Scores,
        Phase::RosterCheck => event is RosterCheck,
        Phase::RankedPolicy => event is Policy,
        Phase::Publication => event is Publication,
        Phase::Ended => false,
    }
}

/// Sizes that a ranking can work with.
pub open spec fn are_sizes(top: usize, shortlist: usize) -> bool {
    1 <= top <= shortlist <= MAX_SHORTLIST
}

impl Flow {
    pub open spec fn at(self, phase: Phase) -> Flow {
        Flow { phase, ..self }
    }

    pub open spec fn ended(self, ending: Ending) -> (Flow, Action) {
        (self.at(Phase::Ended), Action::Finish(ending))
    }

    pub open spec fn stopped(self, stop: Stop) -> (Flow, Action) {
        self.ended(Ending::Failed(stop))
    }

    /// With candidates to rank, or without.
    pub open spec fn with_candidates(self, n: usize) -> (Flow, Action) {
        if n == 0 {
            self.ended(Ending::NoShortlistMatch)
        } else {
            (self.at(Phase::Capture), Action::CaptureDependencies)
        }
    }

    /// Once the cache was looked up for the last time.
    pub open spec fn after_lookup(self, found: LookupReading) -> (Flow, Action) {
        match found {
            LookupReading::Hit { with_rerank } => (
                Flow { wide: WideOrigin::Cached { with_rerank }, ..self.at(Phase::WideOutcome) },
                Action::EvaluateWide,
            ),
            LookupReading::Miss => (self.at(Phase::WideAnswer), Action::SendWide),
        }
    }

    /// The next state and action.
    pub open spec fn stepped(self, event: Event) -> (Flow, Action) {
        match event {
            Event::Clock { open } => if open {
                (self.at(Phase::Config), Action::LoadConfig)
            } else {
                self.stopped(Stop::DeadlineBeforeStart)
            },
            Event::Config(reading) => match reading {
                ConfigReading::Failed => self.stopped(Stop::Reported),
                ConfigReading::Loaded { top, shortlist, workspace_valid } => if !are_sizes(
                    top,
                    shortlist,
                ) {
                    self.stopped(Stop::InvalidSizes)
                } else if !workspace_valid {
                    self.stopped(Stop::InvalidWorkspace)
                } else {
                    (self.at(Phase::Source), Action::SelectSource)
                },
            },
            Event::Source(reading) => match reading {
                SourceReading::Failed => self.stopped(Stop::Reported),
                SourceReading::NeedsChoice => self.stopped(Stop::AmbiguousSession),
                SourceReading::HookStdin => self.stopped(Stop::HookSource),
                SourceReading::Archive => self.stopped(Stop::ArchiveSource),
                _ => (self.at(Phase::Context), Action::ReadContext),
            },
            Event::Context { read } => if read {
                (self.at(Phase::Anchor), Action::ResolveAnchor)
            } else {
                self.stopped(Stop::Reported)
            },
            Event::Anchor(reading) => match reading {
                AnchorReading::Established { required } => (
                    Flow { required, ..self.at(Phase::Roster) },
                    Action::LoadRoster,
                ),
                AnchorReading::MissingTask => self.stopped(Stop::MissingTask),
                AnchorReading::Oversized => self.stopped(Stop::OversizedRequest),
                AnchorReading::Conflicting => self.stopped(Stop::ConflictingDirectives),
            },
            Event::Roster { loaded } => if !loaded {
                self.stopped(Stop::Reported)
            } else if self.required {
                (Flow { admitted: true, ..self.at(Phase::Explicit) }, Action::ResolveExplicit)
            } else {
                (Flow { admitted: true, ..self.at(Phase::Admission) }, Action::AdmitCandidates)
            },
            Event::Explicit(reading) => match reading {
                ExplicitReading::Failed => self.stopped(Stop::Reported),
                ExplicitReading::Resolved => (
                    self.at(Phase::ExplicitPolicy),
                    Action::RefreshPolicy,
                ),
                ExplicitReading::Unresolved => self.ended(Ending::Unresolved),
                ExplicitReading::NoneSpecified => (
                    self.at(Phase::Admission),
                    Action::AdmitCandidates,
                ),
            },
            Event::Policy(reading) => if reading != PolicyReading::Current {
                self.stopped(Stop::Reported)
            } else if self.phase == Phase::ExplicitPolicy {
                self.ended(Ending::Explicit)
            } else if self.phase == Phase::LowNeedPolicy {
                self.ended(Ending::LowNeed)
            } else {
                (
                    Flow { policy_current: true, ..self.at(Phase::Publication) },
                    Action::CheckPublication,
                )
            },
            Event::Admission(reading) => match reading {
                AdmissionReading::NoAdvisory => self.ended(Ending::EmptyRoster),
                AdmissionReading::Abstain => self.ended(Ending::AdmissionAbstains),
                AdmissionReading::Unavailable => self.ended(Ending::AdmissionUnavailable),
                AdmissionReading::Candidates(n) => if n > MAX_REAL_OPTIONS {
                    (self.at(Phase::Retrieval), Action::Retrieve)
                } else {
                    self.with_candidates(n)
                },
            },
            Event::Retrieval(reading) => match reading {
                RetrievalReading::Failed => self.stopped(Stop::Reported),
                RetrievalReading::Candidates(n) => self.with_candidates(n),
            },
            Event::Capture { captured } => if captured {
                (self.at(Phase::Render), Action::RenderContext)
            } else {
                self.stopped(Stop::Reported)
            },
            Event::Render(reading) => match reading {
                RenderReading::Unsupported => self.stopped(Stop::RenderUnsupported),
                RenderReading::Unsafe => self.stopped(Stop::RenderUnsafe),
                RenderReading::Unserializable => self.stopped(Stop::RenderUnserializable),
                RenderReading::Rendered { unsupported, request_truncated } => if unsupported
                    || request_truncated {
                    self.stopped(Stop::ContextDoesNotFit)
                } else {
                    (self.at(Phase::Store), Action::OpenStore)
                },
            },
            Event::Store(reading) => match reading {
                StoreReading::NoKey => self.stopped(Stop::NoFingerprintKey),
                StoreReading::Ready { persistent, leases } => (
                    Flow {
                        persistent,
                        leases: persistent && leases,
                        ..self.at(Phase::WideRequest)
                    },
                    Action::BuildWide,
                ),
            },
            Event::WideRequest { built } => if !built {
                self.stopped(Stop::Reported)
            } else if self.dry_run {
                (self.at(Phase::Preview), Action::BuildPreview)
            } else {
                (self.at(Phase::Endpoint), Action::ResolveEndpoint)
            },
            Event::Preview { built } => if built {
                self.ended(Ending::Preview)
            } else {
                self.stopped(Stop::Reported)
            },
            Event::Endpoint { valid } => if valid {
                (self.at(Phase::Lookup), Action::LookUp)
            } else {
                self.stopped(Stop::InvalidEndpoint)
            },
            Event::Lookup(found) => if self.phase == Phase::Lookup && found is Miss && self.leases {
                (self.at(Phase::Lease), Action::AcquireLease)
            } else {
                self.after_lookup(found)
            },
            Event::Lease(reading) => match reading {
                LeaseReading::Unavailable => (self.at(Phase::WideAnswer), Action::SendWide),
                LeaseReading::Leading => (
                    Flow { lease_held: true, ..self.at(Phase::WideAnswer) },
                    Action::SendWide,
                ),
                LeaseReading::Following => (self.at(Phase::Waiting), Action::WaitForLeader),
                LeaseReading::AlreadyCompleted => (
                    self.at(Phase::SecondLookup),
                    Action::LookUp,
                ),
            },
            Event::Waited => (self.at(Phase::SecondLookup), Action::LookUp),
            Event::WideAnswer { answered } => if answered {
                (
                    Flow { wide: WideOrigin::Fresh, ..self.at(Phase::WideOutcome) },
                    Action::EvaluateWide,
                )
            } else {
                self.stopped(Stop::Reported)
            },
            Event::WideOutcome(reading) => match reading {
                WideReading::Invalid => self.stopped(Stop::Reported),
                WideReading::LowNeed => (self.at(Phase::LowNeedPolicy), Action::RefreshPolicy),
                WideReading::Shortlist => (self.at(Phase::RerankRequest), Action::BuildRerank),
            },
            Event::RerankRequest { built } => if !built {
                self.stopped(Stop::Reported)
            } else {
                match self.wide {
                    WideOrigin::Cached { with_rerank } => if with_rerank {
                        (self.at(Phase::RerankOutcome), Action::EvaluateRerank)
                    } else {
                        self.stopped(Stop::UnpairedRerank)
                    },
                    WideOrigin::Fresh => (self.at(Phase::RerankAnswer), Action::SendRerank),
                    WideOrigin::Unanswered => self.stopped(Stop::UnpairedRerank),
                }
            },
            Event::RerankAnswer { answered } => if answered {
                (self.at(Phase::RerankOutcome), Action::EvaluateRerank)
            } else {
                self.stopped(Stop::Reported)
            },
            Event::RerankOutcome(reading) => match reading {
                RerankReading::Invalid => self.stopped(Stop::Reported),
                RerankReading::Abstain => self.ended(Ending::RerankAbstains),
                RerankReading::Unavailable => self.ended(Ending::RerankUnavailable),
                RerankReading::Eligible => (self.at(Phase::Scores), Action::Score),
            },
            Event::Scores(reading) => match reading {
                ScoreReading::BadWeights => self.stopped(Stop::BadWeights),
                ScoreReading::Failed => self.stopped(Stop::Reported),
                ScoreReading::Ranked => (self.at(Phase::RosterCheck), Action::ValidateRoster),
            },
            Event::RosterCheck { valid } => if valid {
                (
                    Flow { roster_valid: true, ..self.at(Phase::RankedPolicy) },
                    Action::RefreshPolicy,
                )
            } else {
                self.stopped(Stop::Reported)
            },
            Event::Publication { late } => if late {
                self.stopped(Stop::Reported)
            } else {
                self.ended(Ending::Ranked)
            },
        }
    }

    pub fn start(dry_run: bool) -> (flow: Flow)
        ensures
            flow == started(dry_run),
    {
        Flow {
            phase: Phase::Start,
            dry_run,
            required: false,
            admitted: false,
            persistent: false,
            leases: false,
            lease_held: false,
            wide: WideOrigin::Unanswered,
            roster_valid: false,
            policy_current: false,
        }
    }

    fn end(&mut self, ending: Ending) -> (action: Action)
        ensures
            *final(self) == old(self).at(Phase::Ended),
            action == Action::Finish(ending),
    {
        self.phase = Phase::Ended;
        Action::Finish(ending)
    }

    fn stop(&mut self, stop: Stop) -> (action: Action)
        ensures
            *final(self) == old(self).at(Phase::Ended),
            action == Action::Finish(Ending::Failed(stop)),
    {
        self.end(Ending::Failed(stop))
    }

    fn go(&mut self, phase: Phase, action: Action) -> (next: Action)
        ensures
            *final(self) == old(self).at(phase),
            next == action,
    {
        self.phase = phase;
        action
    }

    fn go_with_candidates(&mut self, n: usize) -> (action: Action)
        ensures
            (*final(self), action) == old(self).with_candidates(n),
    {
        if n == 0 {
            self.end(Ending::NoShortlistMatch)
        } else {
            self.go(Phase::Capture, Action::CaptureDependencies)
        }
    }

    fn go_after_lookup(&mut self, found: LookupReading) -> (action: Action)
        ensures
            (*final(self), action) == old(self).after_lookup(found),
    {
        match found {
            LookupReading::Hit { with_rerank } => {
                self.wide = WideOrigin::Cached { with_rerank };
                self.go(Phase::WideOutcome, Action::EvaluateWide)
            },
            LookupReading::Miss => self.go(Phase::WideAnswer, Action::SendWide),
        }
    }

    /// Take what the last action found, and say what to do next.
    pub fn step(&mut self, event: Event) -> (action: Action)
        requires
            is_awaited(old(self).phase, event),
        ensures
            (*final(self), action) == old(self).stepped(event),
    {
        match event {
            Event::Clock { open } => if open {
                self.go(Phase::Config, Action::LoadConfig)
            } else {
                self.stop(Stop::DeadlineBeforeStart)
            },
            Event::Config(reading) => match reading {
                ConfigReading::Failed => self.stop(Stop::Reported),
                ConfigReading::Loaded { top, shortlist, workspace_valid } => if top < 1 || top
                    > shortlist || shortlist > MAX_SHORTLIST {
                    self.stop(Stop::InvalidSizes)
                } else if !workspace_valid {
                    self.stop(Stop::InvalidWorkspace)
                } else {
                    self.go(Phase::Source, Action::SelectSource)
                },
            },
            Event::Source(reading) => match reading {
                SourceReading::Failed => self.stop(Stop::Reported),
                SourceReading::NeedsChoice => self.stop(Stop::AmbiguousSession),
                SourceReading::HookStdin => self.stop(Stop::HookSource),
                SourceReading::Archive => self.stop(Stop::ArchiveSource),
                _ => self.go(Phase::Context, Action::ReadContext),
            },
            Event::Context { read } => if read {
                self.go(Phase::Anchor, Action::ResolveAnchor)
            } else {
                self.stop(Stop::Reported)
            },
            Event::Anchor(reading) => match reading {
                AnchorReading::Established { required } => {
                    self.required = required;
                    self.go(Phase::Roster, Action::LoadRoster)
                },
                AnchorReading::MissingTask => self.stop(Stop::MissingTask),
                AnchorReading::Oversized => self.stop(Stop::OversizedRequest),
                AnchorReading::Conflicting => self.stop(Stop::ConflictingDirectives),
            },
            Event::Roster { loaded } => if !loaded {
                self.stop(Stop::Reported)
            } else {
                self.admitted = true;
                if self.required {
                    self.go(Phase::Explicit, Action::ResolveExplicit)
                } else {
                    self.go(Phase::Admission, Action::AdmitCandidates)
                }
            },
            Event::Explicit(reading) => match reading {
                ExplicitReading::Failed => self.stop(Stop::Reported),
                ExplicitReading::Resolved => self.go(Phase::ExplicitPolicy, Action::RefreshPolicy),
                ExplicitReading::Unresolved => self.end(Ending::Unresolved),
                ExplicitReading::NoneSpecified => self.go(
                    Phase::Admission,
                    Action::AdmitCandidates,
                ),
            },
            Event::Policy(reading) => if reading != PolicyReading::Current {
                self.stop(Stop::Reported)
            } else if self.phase == Phase::ExplicitPolicy {
                self.end(Ending::Explicit)
            } else if self.phase == Phase::LowNeedPolicy {
                self.end(Ending::LowNeed)
            } else {
                self.policy_current = true;
                self.go(Phase::Publication, Action::CheckPublication)
            },
            Event::Admission(reading) => match reading {
                AdmissionReading::NoAdvisory => self.end(Ending::EmptyRoster),
                AdmissionReading::Abstain => self.end(Ending::AdmissionAbstains),
                AdmissionReading::Unavailable => self.end(Ending::AdmissionUnavailable),
                AdmissionReading::Candidates(n) => if n > MAX_REAL_OPTIONS {
                    self.go(Phase::Retrieval, Action::Retrieve)
                } else {
                    self.go_with_candidates(n)
                },
            },
            Event::Retrieval(reading) => match reading {
                RetrievalReading::Failed => self.stop(Stop::Reported),
                RetrievalReading::Candidates(n) => self.go_with_candidates(n),
            },
            Event::Capture { captured } => if captured {
                self.go(Phase::Render, Action::RenderContext)
            } else {
                self.stop(Stop::Reported)
            },
            Event::Render(reading) => match reading {
                RenderReading::Unsupported => self.stop(Stop::RenderUnsupported),
                RenderReading::Unsafe => self.stop(Stop::RenderUnsafe),
                RenderReading::Unserializable => self.stop(Stop::RenderUnserializable),
                RenderReading::Rendered { unsupported, request_truncated } => if unsupported
                    || request_truncated {
                    self.stop(Stop::ContextDoesNotFit)
                } else {
                    self.go(Phase::Store, Action::OpenStore)
                },
            },
            Event::Store(reading) => match reading {
                StoreReading::NoKey => self.stop(Stop::NoFingerprintKey),
                StoreReading::Ready { persistent, leases } => {
                    self.persistent = persistent;
                    self.leases = persistent && leases;
                    self.go(Phase::WideRequest, Action::BuildWide)
                },
            },
            Event::WideRequest { built } => if !built {
                self.stop(Stop::Reported)
            } else if self.dry_run {
                self.go(Phase::Preview, Action::BuildPreview)
            } else {
                self.go(Phase::Endpoint, Action::ResolveEndpoint)
            },
            Event::Preview { built } => if built {
                self.end(Ending::Preview)
            } else {
                self.stop(Stop::Reported)
            },
            Event::Endpoint { valid } => if valid {
                self.go(Phase::Lookup, Action::LookUp)
            } else {
                self.stop(Stop::InvalidEndpoint)
            },
            Event::Lookup(found) => if self.phase == Phase::Lookup && found == LookupReading::Miss
                && self.leases {
                self.go(Phase::Lease, Action::AcquireLease)
            } else {
                self.go_after_lookup(found)
            },
            Event::Lease(reading) => match reading {
                LeaseReading::Unavailable => self.go(Phase::WideAnswer, Action::SendWide),
                LeaseReading::Leading => {
                    self.lease_held = true;
                    self.go(Phase::WideAnswer, Action::SendWide)
                },
                LeaseReading::Following => self.go(Phase::Waiting, Action::WaitForLeader),
                LeaseReading::AlreadyCompleted => self.go(Phase::SecondLookup, Action::LookUp),
            },
            Event::Waited => self.go(Phase::SecondLookup, Action::LookUp),
            Event::WideAnswer { answered } => if answered {
                self.wide = WideOrigin::Fresh;
                self.go(Phase::WideOutcome, Action::EvaluateWide)
            } else {
                self.stop(Stop::Reported)
            },
            Event::WideOutcome(reading) => match reading {
                WideReading::Invalid => self.stop(Stop::Reported),
                WideReading::LowNeed => self.go(Phase::LowNeedPolicy, Action::RefreshPolicy),
                WideReading::Shortlist => self.go(Phase::RerankRequest, Action::BuildRerank),
            },
            Event::RerankRequest { built } => if !built {
                self.stop(Stop::Reported)
            } else {
                match self.wide {
                    WideOrigin::Cached { with_rerank } => if with_rerank {
                        self.go(Phase::RerankOutcome, Action::EvaluateRerank)
                    } else {
                        self.stop(Stop::UnpairedRerank)
                    },
                    WideOrigin::Fresh => self.go(Phase::RerankAnswer, Action::SendRerank),
                    WideOrigin::Unanswered => self.stop(Stop::UnpairedRerank),
                }
            },
            Event::RerankAnswer { answered } => if answered {
                self.go(Phase::RerankOutcome, Action::EvaluateRerank)
            } else {
                self.stop(Stop::Reported)
            },
            Event::RerankOutcome(reading) => match reading {
                RerankReading::Invalid => self.stop(Stop::Reported),
                RerankReading::Abstain => self.end(Ending::RerankAbstains),
                RerankReading::Unavailable => self.end(Ending::RerankUnavailable),
                RerankReading::Eligible => self.go(Phase::Scores, Action::Score),
            },
            Event::Scores(reading) => match reading {
                ScoreReading::BadWeights => self.stop(Stop::BadWeights),
                ScoreReading::Failed => self.stop(Stop::Reported),
                ScoreReading::Ranked => self.go(Phase::RosterCheck, Action::ValidateRoster),
            },
            Event::RosterCheck { valid } => if valid {
                self.roster_valid = true;
                self.go(Phase::RankedPolicy, Action::RefreshPolicy)
            } else {
                self.stop(Stop::Reported)
            },
            Event::Publication { late } => if late {
                self.stop(Stop::Reported)
            } else {
                self.end(Ending::Ranked)
            },
        }
    }
}

/// Where a run stands after these events, each of which was awaited.
pub open spec fn ran(dry_run: bool, events: Seq<Event>) -> Option<Flow>
    decreases events.len(),
{
    if events.len() == 0 {
        Some(started(dry_run))
    } else {
        match ran(dry_run, events.drop_last()) {
            Some(flow) => if is_awaited(flow.phase, events.last()) {
                Some(flow.stepped(events.last()).0)
            } else {
                None
            },
            None => None,
        }
    }
}

/// Is a request built by now, or its answer known?
pub open spec fn is_past_preview(phase: Phase) -> bool {
    phase == Phase::Endpoint || phase == Phase::Lookup || phase == Phase::Lease || phase
        == Phase::Waiting || phase == Phase::SecondLookup || phase == Phase::WideAnswer || phase
        == Phase::WideOutcome || phase == Phase::LowNeedPolicy || phase == Phase::RerankRequest
        || phase == Phase::RerankAnswer || phase == Phase::RerankOutcome || phase == Phase::Scores
        || phase == Phase::RosterCheck || phase == Phase::RankedPolicy || phase
        == Phase::Publication
}

pub open spec fn is_before_admission(phase: Phase) -> bool {
    phase == Phase::Start || phase == Phase::Config || phase == Phase::Source || phase
        == Phase::Context || phase == Phase::Anchor || phase == Phase::Roster
}

pub open spec fn is_before_sending(phase: Phase) -> bool {
    is_before_admission(phase) || phase == Phase::Explicit || phase == Phase::ExplicitPolicy
        || phase == Phase::Admission || phase == Phase::Retrieval || phase == Phase::Capture
        || phase == Phase::Render || phase == Phase::Store || phase == Phase::WideRequest || phase
        == Phase::Preview || phase == Phase::Endpoint || phase == Phase::Lookup || phase
        == Phase::Lease || phase == Phase::Waiting || phase == Phase::SecondLookup
}

/// What holds between any two steps.
pub open spec fn is_sound(flow: Flow) -> bool {
    &&& is_past_preview(flow.phase) ==> !flow.dry_run
    &&& flow.phase == Phase::Preview ==> flow.dry_run
    &&& flow.wide != WideOrigin::Unanswered || flow.lease_held ==> !flow.dry_run && flow.admitted
    &&& flow.lease_held ==> flow.leases && flow.persistent
    &&& flow.leases ==> flow.persistent
    &&& is_before_admission(flow.phase) ==> !flow.admitted
    &&& flow.phase != Phase::Ended && !is_before_admission(flow.phase) ==> flow.admitted
    &&& flow.phase == Phase::RerankAnswer ==> flow.wide == WideOrigin::Fresh
    &&& flow.phase == Phase::RankedPolicy ==> flow.roster_valid
    &&& flow.phase == Phase::Publication ==> flow.roster_valid && flow.policy_current
    &&& flow.phase == Phase::Explicit ==> flow.required
    &&& flow.phase == Phase::ExplicitPolicy ==> flow.required && flow.wide
        == WideOrigin::Unanswered
    &&& flow.phase == Phase::Lease ==> flow.leases
    &&& flow.phase == Phase::WideAnswer ==> flow.wide == WideOrigin::Unanswered
    &&& is_before_sending(flow.phase) ==> flow.wide == WideOrigin::Unanswered && !flow.lease_held
}

/// Every run is sound between any two steps.
pub proof fn runs_are_sound(dry_run: bool, events: Seq<Event>)
    requires
        ran(dry_run, events) is Some,
    ensures
        is_sound(ran(dry_run, events)->0),
        ran(dry_run, events)->0.dry_run == dry_run,
    decreases events.len(),
{
    if events.len() > 0 {
        runs_are_sound(dry_run, events.drop_last());
        let flow = ran(dry_run, events.drop_last())->0;
        soundness_is_kept(flow, events.last());
    }
}

#[verifier::rlimit(60)]
proof fn soundness_is_kept(flow: Flow, event: Event)
    requires
        is_sound(flow),
        is_awaited(flow.phase, event),
    ensures
        is_sound(flow.stepped(event).0),
        flow.stepped(event).0.dry_run == flow.dry_run,
{
    let next = flow.stepped(event).0;
    match event {
        Event::Clock { .. } => {
            assert(is_sound(next));
        },
        Event::Config(_) => {
            assert(is_sound(next));
        },
        Event::Source(_) => {
            assert(is_sound(next));
        },
        Event::Context { .. } => {
            assert(is_sound(next));
        },
        Event::Anchor(_) => {
            assert(is_sound(next));
        },
        Event::Roster { .. } => {
            assert(is_sound(next));
        },
        Event::Explicit(_) => {
            assert(is_sound(next));
        },
        Event::Policy(_) => {
            assert(is_sound(next));
        },
        Event::Admission(_) => {
            assert(is_sound(next));
        },
        Event::Retrieval(_) => {
            assert(is_sound(next));
        },
        Event::Capture { .. } => {
            assert(is_sound(next));
        },
        Event::Render(_) => {
            assert(is_sound(next));
        },
        Event::Store(_) => {
            assert(is_sound(next));
        },
        Event::WideRequest { .. } => {
            assert(is_sound(next));
        },
        Event::Preview { .. } => {
            assert(is_sound(next));
        },
        Event::Endpoint { .. } => {
            assert(is_sound(next));
        },
        Event::Lookup(_) => {
            assert(is_sound(next));
        },
        Event::Lease(_) => {
            assert(is_sound(next));
        },
        Event::Waited => {
            assert(is_sound(next));
        },
        Event::WideAnswer { .. } => {
            assert(is_sound(next));
        },
        Event::WideOutcome(_) => {
            assert(is_sound(next));
        },
        Event::RerankRequest { .. } => {
            assert(is_sound(next));
        },
        Event::RerankAnswer { .. } => {
            assert(is_sound(next));
        },
        Event::RerankOutcome(_) => {
            assert(is_sound(next));
        },
        Event::Scores(_) => {
            assert(is_sound(next));
        },
        Event::RosterCheck { .. } => {
            assert(is_sound(next));
        },
        Event::Publication { .. } => {
            assert(is_sound(next));
        },
    }
}

/// A dry run sends nothing and takes no lease: it ends in a preview, in a
/// result that local policy settles, or in a failure.
pub proof fn dry_runs_send_nothing(events: Seq<Event>, event: Event)
    requires
        ran(true, events) is Some,
        is_awaited(ran(true, events)->0.phase, event),
    ensures
        ({
            let (next, action) = ran(true, events)->0.stepped(event);
            &&& action != Action::SendWide
            &&& action != Action::SendRerank
            &&& action != Action::AcquireLease
            &&& !next.lease_held
            &&& action != Action::Finish(Ending::Ranked)
            &&& action != Action::Finish(Ending::LowNeed)
        }),
{
    runs_are_sound(true, events);
    soundness_is_kept(ran(true, events)->0, event);
}

/// A cached wide answer is never paired with a fresh rerank: a rerank is sent
/// only behind a wide answer of the same session.
pub proof fn reranks_follow_their_own_wide_answer(dry_run: bool, events: Seq<Event>, event: Event)
    requires
        ran(dry_run, events) is Some,
        is_awaited(ran(dry_run, events)->0.phase, event),
        ran(dry_run, events)->0.stepped(event).1 == Action::SendRerank,
    ensures
        ran(dry_run, events)->0.wide == WideOrigin::Fresh,
{
    runs_are_sound(dry_run, events);
}

/// A ranked result is published only once the roster and the policy were found
/// unchanged and the deadline was kept.
pub proof fn ranked_results_are_revalidated(dry_run: bool, events: Seq<Event>, event: Event)
    requires
        ran(dry_run, events) is Some,
        is_awaited(ran(dry_run, events)->0.phase, event),
        ran(dry_run, events)->0.stepped(event).1 == Action::Finish(Ending::Ranked),
    ensures
        ran(dry_run, events)->0.roster_valid,
        ran(dry_run, events)->0.policy_current,
        event == (Event::Publication { late: false }),
{
    runs_are_sound(dry_run, events);
}

/// Explicit requirements that resolve are published without a request: no wide
/// answer, cached or fresh, was looked at.
pub proof fn explicit_results_need_no_request(dry_run: bool, events: Seq<Event>, event: Event)
    requires
        ran(dry_run, events) is Some,
        is_awaited(ran(dry_run, events)->0.phase, event),
        ran(dry_run, events)->0.stepped(event).1 == Action::Finish(Ending::Explicit),
    ensures
        ran(dry_run, events)->0.required,
        ran(dry_run, events)->0.wide == WideOrigin::Unanswered,
        event == Event::Policy(PolicyReading::Current),
{
    runs_are_sound(dry_run, events);
}

/// Every run goes on until it ends: short of the end something is awaited,
/// and what is awaited always gives a next action.
pub proof fn runs_never_get_stuck(flow: Flow)
    requires
        flow.phase != Phase::Ended,
    ensures
        exists|event: Event| is_awaited(flow.phase, event),
{
    let event = match flow.phase {
        Phase::Start => Event::Clock { open: true },
        Phase::Config => Event::Config(ConfigReading::Failed),
        Phase::Source => Event::Source(SourceReading::Failed),
        Phase::Context => Event::Context { read: true },
        Phase::Anchor => Event::Anchor(AnchorReading::MissingTask),
        Phase::Roster => Event::Roster { loaded: true },
        Phase::Explicit => Event::Explicit(ExplicitReading::Failed),
        Phase::ExplicitPolicy => Event::Policy(PolicyReading::Current),
        Phase::Admission => Event::Admission(AdmissionReading::Abstain),
        Phase::Retrieval => Event::Retrieval(RetrievalReading::Failed),
        Phase::Capture => Event::Capture { captured: true },
        Phase::Render => Event::Render(RenderReading::Unsafe),
        Phase::Store => Event::Store(StoreReading::NoKey),
        Phase::WideRequest => Event::WideRequest { built: true },
        Phase::Preview => Event::Preview { built: true },
        Phase::Endpoint => Event::Endpoint { valid: true },
        Phase::Lookup => Event::Lookup(LookupReading::Miss),
        Phase::Lease => Event::Lease(LeaseReading::Leading),
        Phase::Waiting => Event::Waited,
        Phase::SecondLookup => Event::Lookup(LookupReading::Miss),
        Phase::WideAnswer => Event::WideAnswer { answered: true },
        Phase::WideOutcome => Event::WideOutcome(WideReading::LowNeed),
        Phase::LowNeedPolicy => Event::Policy(PolicyReading::Current),
        Phase::RerankRequest => Event::RerankRequest { built: true },
        Phase::RerankAnswer => Event::RerankAnswer { answered: true },
        Phase::RerankOutcome => Event::RerankOutcome(RerankReading::Invalid),
        Phase::Scores => Event::Scores(ScoreReading::Ranked),
        Phase::RosterCheck => Event::RosterCheck { valid: true },
        Phase::RankedPolicy => Event::Policy(PolicyReading::Current),
        Phase::Publication => Event::Publication { late: false },
        Phase::Ended => Event::Waited,
    };
    assert(is_awaited(flow.phase, event));
}

/// What an entry point makes of how a ranking ended.
#[derive(Clone, Copy, Debug, PartialEq, Eq, Structural)]
pub enum Settlement {
    /// Publish the document as it is.
    Publish,
    /// Report a local decision inside a preview.
    PreviewDecision,
    /// Publish a full unavailable decision, where the failure has a public
    /// form.
    Unavailable,
    /// Report the bare failure.
    BareFailure,
}

pub open spec fn is_decision(ending: Ending) -> bool {
    match ending {
        Ending::Failed(_) => false,
        Ending::Preview => false,
        _ => true,
    }
}

pub open spec fn settled(flow: Flow, ending: Ending) -> Settlement {
    if ending is Failed {
        if flow.admitted {
            Settlement::Unavailable
        } else {
            Settlement::BareFailure
        }
    } else if flow.dry_run && is_decision(ending) {
        Settlement::PreviewDecision
    } else {
        Settlement::Publish
    }
}

impl Flow {
    /// Decide what becomes of an ending. A dry run never publishes an
    /// actionable decision, and a failure after admission keeps its usage.
    pub fn settle(&self, ending: Ending) -> (s: Settlement)
        ensures
            s == settled(*self, ending),
    {
        match ending {
            Ending::Failed(_) => if self.admitted {
                Settlement::Unavailable
            } else {
                Settlement::BareFailure
            },
            Ending::Preview => Settlement::Publish,
            _ => if self.dry_run {
                Settlement::PreviewDecision
            } else {
                Settlement::Publish
            },
        }
    }

    /// Must a lease be given back?
    pub fn owes_lease(&self) -> (r: bool)
        ensures
            r == self.lease_held,
    {
        self.lease_held
    }
}

/// Why a ranking may not start.
#[derive(Clone, Copy, Debug, PartialEq, Eq, Structural)]
pub enum StartRefusal {
    /// The dry run conflicts with another effect flag.
    ConflictingFlags,
    ShortlistWithoutPreview,
}

pub open spec fn start_refusal(
    gate_dry_run: bool,
    asked_dry_run: bool,
    flags_conflict: bool,
    shortlist_given: bool,
) -> Option<StartRefusal> {
    if asked_dry_run && !gate_dry_run && flags_conflict {
        Some(StartRefusal::ConflictingFlags)
    } else if !(gate_dry_run || asked_dry_run) && shortlist_given {
        Some(StartRefusal::ShortlistWithoutPreview)
    } else {
        None
    }
}

/// Enter a ranking. A dry run can only be added to the restrictions that
/// already hold, and shortlist identities are evidence for a preview alone.
/// `flags_conflict` tells whether adding it conflicts with another flag.
pub fn enter(
    gate_dry_run: bool,
    asked_dry_run: bool,
    flags_conflict: bool,
    shortlist_given: bool,
) -> (r: Result<Flow, StartRefusal>)
    ensures
        match r {
            Ok(flow) => start_refusal(gate_dry_run, asked_dry_run, flags_conflict, shortlist_given)
                is None && flow == started(gate_dry_run || asked_dry_run),
            Err(refusal) => start_refusal(
                gate_dry_run,
                asked_dry_run,
                flags_conflict,
                shortlist_given,
            ) == Some(refusal),
        },
{
    if asked_dry_run && !gate_dry_run && flags_conflict {
        return Err(StartRefusal::ConflictingFlags);
    }
    let preview: bool = gate_dry_run || asked_dry_run;
    if !preview && shortlist_given {
        return Err(StartRefusal::ShortlistWithoutPreview);
    }
    Ok(Flow::start(preview))
}

/// How long a follower waits on: while the leader's lease holds, nothing has
/// settled it, the run was not cancelled and a second of its own time is left.
pub open spec fn keeps_waiting(
    cancelled: bool,
    remaining_ms: u64,
    now_unix_ms: u64,
    expires_at_unix_ms: u64,
    settled: bool,
) -> bool {
    !cancelled && remaining_ms >= 1_000 && now_unix_ms < expires_at_unix_ms && !settled
}

pub fn wait_for_leader(
    cancelled: bool,
    remaining_ms: u64,
    now_unix_ms: u64,
    expires_at_unix_ms: u64,
    settled: bool,
) -> (r: bool)
    ensures
        r == keeps_waiting(cancelled, remaining_ms, now_unix_ms, expires_at_unix_ms, settled),
{
    !cancelled && remaining_ms >= 1_000 && now_unix_ms < expires_at_unix_ms && !settled
}

/// Is a lease settled: gone, completed or expired? A lease that cannot be read
/// is.
pub fn lease_settled(lease: Option<(bool, u64)>, now_unix_ms: u64) -> (r: bool)
    ensures
        r == (match lease {
            None => true,
            Some((completed, expires_at)) => completed || now_unix_ms >= expires_at,
        }),
{
    match lease {
        None => true,
        Some((completed, expires_at)) => completed || now_unix_ms >= expires_at,
    }
}

} // verus!
