//! What the course of a ranking shows: what leads to each action and to each
//! ending, and what a run went through before it.
use crate::pipeline::flow::{
    is_awaited, keeps_waiting, ran, settled, start_refusal, started, Action, AdmissionReading,
    AnchorReading, ConfigReading, Ending, Event, ExplicitReading, Flow, LeaseReading, LookupReading,
    Phase, PolicyReading, RenderReading, RerankReading, RetrievalReading, ScoreReading, Settlement,
    SourceReading, Stop, StoreReading, WideOrigin, WideReading,
};
use vstd::prelude::*;

verus! {

/// Is this the action on the way of the answers for the event, and for no other?
pub open spec fn answer_fits(flow: Flow, event: Event, action: Action) -> bool {
    &&& action == Action::LookUp <==> event == (Event::Endpoint { valid: true }) || event
        == Event::Waited || event == Event::Lease(LeaseReading::AlreadyCompleted)
    &&& action == Action::AcquireLease <==> event == Event::Lookup(LookupReading::Miss)
        && flow.phase == Phase::Lookup && flow.leases
    &&& action == Action::WaitForLeader <==> event == Event::Lease(LeaseReading::Following)
    &&& action == Action::SendWide <==> (event == Event::Lookup(LookupReading::Miss) && !(
    flow.phase == Phase::Lookup && flow.leases)) || event == Event::Lease(
        LeaseReading::Leading,
    ) || event == Event::Lease(LeaseReading::Unavailable)
    &&& action == Action::EvaluateWide <==> (event matches Event::Lookup(
        LookupReading::Hit { with_rerank },
    )) || event == (Event::WideAnswer { answered: true })
    &&& action == Action::BuildRerank <==> event == Event::WideOutcome(
        WideReading::Shortlist,
    )
    &&& action == Action::SendRerank <==> event == (Event::RerankRequest { built: true })
        && flow.wide == WideOrigin::Fresh
    &&& action == Action::EvaluateRerank <==> event == (Event::RerankAnswer {
        answered: true,
    }) || (event == (Event::RerankRequest { built: true }) && flow.wide == (
    WideOrigin::Cached { with_rerank: true }))
    &&& action == Action::Score <==> event == Event::RerankOutcome(RerankReading::Eligible)
    &&& action == Action::ValidateRoster <==> event == Event::Scores(ScoreReading::Ranked)
    &&& action == Action::CheckPublication <==> event == Event::Policy(
        PolicyReading::Current,
    ) && flow.phase == Phase::RankedPolicy
}

/// Is this the local action for the event, and for no other?
pub open spec fn action_fits(flow: Flow, event: Event, action: Action) -> bool {
    &&& action == Action::LoadConfig <==> event == (Event::Clock { open: true })
    &&& action == Action::SelectSource <==> (event matches Event::Config(
        ConfigReading::Loaded { top, shortlist, workspace_valid },
    ) && 1 <= top <= shortlist <= 32 && workspace_valid)
    &&& action == Action::ReadContext <==> event == Event::Source(
        SourceReading::NormalizedFile,
    ) || event == Event::Source(SourceReading::NormalizedStdin) || event == Event::Source(
        SourceReading::Transcript,
    )
    &&& action == Action::ResolveAnchor <==> event == (Event::Context { read: true })
    &&& action == Action::LoadRoster <==> (event matches Event::Anchor(
        AnchorReading::Established { required },
    ))
    &&& action == Action::ResolveExplicit <==> event == (Event::Roster { loaded: true })
        && flow.required
    &&& action == Action::AdmitCandidates <==> (event == (Event::Roster { loaded: true })
        && !flow.required) || event == Event::Explicit(ExplicitReading::NoneSpecified)
    &&& action == Action::RefreshPolicy <==> event == Event::Explicit(
        ExplicitReading::Resolved,
    ) || event == Event::WideOutcome(WideReading::LowNeed) || event == (
    Event::RosterCheck { valid: true })
    &&& action == Action::Retrieve <==> (event matches Event::Admission(
        AdmissionReading::Candidates(n),
    ) && n > 254)
    &&& action == Action::CaptureDependencies <==> (event matches Event::Admission(
        AdmissionReading::Candidates(n),
    ) && 0 < n <= 254) || (event matches Event::Retrieval(RetrievalReading::Candidates(n))
        && n > 0)
    &&& action == Action::RenderContext <==> event == (Event::Capture { captured: true })
    &&& action == Action::OpenStore <==> event == Event::Render(
        RenderReading::Rendered { unsupported: false, request_truncated: false },
    )
    &&& action == Action::BuildWide <==> (event matches Event::Store(
        StoreReading::Ready { persistent, leases },
    ))
    &&& action == Action::BuildPreview <==> event == (Event::WideRequest { built: true })
        && flow.dry_run
    &&& action == Action::ResolveEndpoint <==> event == (Event::WideRequest { built: true })
        && !flow.dry_run
}

/// Is this a reported failure exactly where a step failed or was refused?
pub open spec fn report_fits(flow: Flow, event: Event, action: Action) -> bool {
    action == Action::Finish(Ending::Failed(Stop::Reported)) <==> ({
            ||| event == Event::Config(ConfigReading::Failed)
            ||| event == Event::Source(SourceReading::Failed)
            ||| event == (Event::Context { read: false })
            ||| event == (Event::Roster { loaded: false })
            ||| event == Event::Explicit(ExplicitReading::Failed)
            ||| event == Event::Policy(PolicyReading::Failed)
            ||| event == Event::Policy(PolicyReading::Refused)
            ||| event == Event::Retrieval(RetrievalReading::Failed)
            ||| event == (Event::Capture { captured: false })
            ||| event == (Event::WideRequest { built: false })
            ||| event == (Event::Preview { built: false })
            ||| event == (Event::WideAnswer { answered: false })
            ||| event == Event::WideOutcome(WideReading::Invalid)
            ||| event == (Event::RerankRequest { built: false })
            ||| event == (Event::RerankAnswer { answered: false })
            ||| event == Event::RerankOutcome(RerankReading::Invalid)
            ||| event == Event::Scores(ScoreReading::Failed)
            ||| event == (Event::RosterCheck { valid: false })
            ||| event == (Event::Publication { late: true })
        })
}

/// Is this the failure for the event, and for no other?
pub open spec fn failure_fits(flow: Flow, event: Event, action: Action) -> bool {
    &&& action == Action::Finish(Ending::Failed(Stop::DeadlineBeforeStart)) <==> event == (
    Event::Clock { open: false })
    &&& action == Action::Finish(Ending::Failed(Stop::AmbiguousSession)) <==> event
        == Event::Source(SourceReading::NeedsChoice)
    &&& action == Action::Finish(Ending::Failed(Stop::HookSource)) <==> event == Event::Source(
        SourceReading::HookStdin,
    )
    &&& action == Action::Finish(Ending::Failed(Stop::ArchiveSource)) <==> event
        == Event::Source(SourceReading::Archive)
    &&& action == Action::Finish(Ending::Failed(Stop::MissingTask)) <==> event
        == Event::Anchor(AnchorReading::MissingTask)
    &&& action == Action::Finish(Ending::Failed(Stop::OversizedRequest)) <==> event
        == Event::Anchor(AnchorReading::Oversized)
    &&& action == Action::Finish(Ending::Failed(Stop::ConflictingDirectives)) <==> event
        == Event::Anchor(AnchorReading::Conflicting)
    &&& action == Action::Finish(Ending::Failed(Stop::RenderUnsupported)) <==> event
        == Event::Render(RenderReading::Unsupported)
    &&& action == Action::Finish(Ending::Failed(Stop::RenderUnsafe)) <==> event
        == Event::Render(RenderReading::Unsafe)
    &&& action == Action::Finish(Ending::Failed(Stop::RenderUnserializable)) <==> event
        == Event::Render(RenderReading::Unserializable)
    &&& action == Action::Finish(Ending::Failed(Stop::ContextDoesNotFit)) <==> (
    event matches Event::Render(RenderReading::Rendered { unsupported, request_truncated })
        && (unsupported || request_truncated))
    &&& action == Action::Finish(Ending::Failed(Stop::NoFingerprintKey)) <==> event
        == Event::Store(StoreReading::NoKey)
    &&& action == Action::Finish(Ending::Failed(Stop::InvalidEndpoint)) <==> event == (
    Event::Endpoint { valid: false })
    &&& action == Action::Finish(Ending::Failed(Stop::BadWeights)) <==> event == Event::Scores(
        ScoreReading::BadWeights,
    )
    &&& action == Action::Finish(Ending::Failed(Stop::InvalidSizes)) <==> (
    event matches Event::Config(ConfigReading::Loaded { top, shortlist, workspace_valid })
        && !(1 <= top <= shortlist <= 32))
    &&& action == Action::Finish(Ending::Failed(Stop::InvalidWorkspace)) <==> (
    event matches Event::Config(ConfigReading::Loaded { top, shortlist, workspace_valid })
        && 1 <= top <= shortlist <= 32 && !workspace_valid)
    &&& action == Action::Finish(Ending::Failed(Stop::UnpairedRerank)) <==> event == (
    Event::RerankRequest { built: true }) && flow.wide != WideOrigin::Fresh && flow.wide
        != (WideOrigin::Cached { with_rerank: true })
}

/// Is this the ending for the event, and for no other?
pub open spec fn ending_fits(flow: Flow, event: Event, action: Action) -> bool {
    &&& action == Action::Finish(Ending::RerankAbstains) <==> event == Event::RerankOutcome(
        RerankReading::Abstain,
    )
    &&& action == Action::Finish(Ending::RerankUnavailable) <==> event == Event::RerankOutcome(
        RerankReading::Unavailable,
    )
    &&& action == Action::Finish(Ending::EmptyRoster) <==> event == Event::Admission(
        AdmissionReading::NoAdvisory,
    )
    &&& action == Action::Finish(Ending::AdmissionAbstains) <==> event == Event::Admission(
        AdmissionReading::Abstain,
    )
    &&& action == Action::Finish(Ending::AdmissionUnavailable) <==> event == Event::Admission(
        AdmissionReading::Unavailable,
    )
    &&& action == Action::Finish(Ending::NoShortlistMatch) <==> event == Event::Admission(
        AdmissionReading::Candidates(0),
    ) || event == Event::Retrieval(RetrievalReading::Candidates(0))
    &&& action == Action::Finish(Ending::Unresolved) <==> event == Event::Explicit(
        ExplicitReading::Unresolved,
    )
    &&& action == Action::Finish(Ending::Preview) <==> event == (Event::Preview {
        built: true,
    })
    &&& action == Action::Finish(Ending::LowNeed) <==> event == Event::Policy(
        PolicyReading::Current,
    ) && flow.phase == Phase::LowNeedPolicy
    &&& action == Action::Finish(Ending::Explicit) <==> event == Event::Policy(
        PolicyReading::Current,
    ) && flow.phase == Phase::ExplicitPolicy
    &&& action == Action::Finish(Ending::Ranked) <==> event == (Event::Publication {
        late: false,
    })
}

/// Every ending has its own cause, and the cause always leads to it: an
/// abstention is published as an abstention, whatever was decided before.
#[verifier::rlimit(60)]
#[verifier::spinoff_prover]
pub proof fn endings_have_their_cause(flow: Flow, event: Event)
    requires
        is_awaited(flow.phase, event),
    ensures
        ending_fits(flow, event, flow.stepped(event).1),
{
    let action = flow.stepped(event).1;
    match event {
        Event::Clock { .. } => {
            assert(ending_fits(flow, event, action));
        },
        Event::Config(_) => {
            assert(ending_fits(flow, event, action));
        },
        Event::Source(_) => {
            assert(ending_fits(flow, event, action));
        },
        Event::Context { .. } => {
            assert(ending_fits(flow, event, action));
        },
        Event::Anchor(_) => {
            assert(ending_fits(flow, event, action));
        },
        Event::Roster { .. } => {
            assert(ending_fits(flow, event, action));
        },
        Event::Explicit(_) => {
            assert(ending_fits(flow, event, action));
        },
        Event::Policy(_) => {
            assert(ending_fits(flow, event, action));
        },
        Event::Admission(_) => {
            assert(ending_fits(flow, event, action));
        },
        Event::Retrieval(_) => {
            assert(ending_fits(flow, event, action));
        },
        Event::Capture { .. } => {
            assert(ending_fits(flow, event, action));
        },
        Event::Render(_) => {
            assert(ending_fits(flow, event, action));
        },
        Event::Store(_) => {
            assert(ending_fits(flow, event, action));
        },
        Event::WideRequest { .. } => {
            assert(ending_fits(flow, event, action));
        },
        Event::Preview { .. } => {
            assert(ending_fits(flow, event, action));
        },
        Event::Endpoint { .. } => {
            assert(ending_fits(flow, event, action));
        },
        Event::Lookup(_) => {
            assert(ending_fits(flow, event, action));
        },
        Event::Lease(_) => {
            assert(ending_fits(flow, event, action));
        },
        Event::Waited => {
            assert(ending_fits(flow, event, action));
        },
        Event::WideAnswer { .. } => {
            assert(ending_fits(flow, event, action));
        },
        Event::WideOutcome(_) => {
            assert(ending_fits(flow, event, action));
        },
        Event::RerankRequest { .. } => {
            assert(ending_fits(flow, event, action));
        },
        Event::RerankAnswer { .. } => {
            assert(ending_fits(flow, event, action));
        },
        Event::RerankOutcome(_) => {
            assert(ending_fits(flow, event, action));
        },
        Event::Scores(_) => {
            assert(ending_fits(flow, event, action));
        },
        Event::RosterCheck { .. } => {
            assert(ending_fits(flow, event, action));
        },
        Event::Publication { .. } => {
            assert(ending_fits(flow, event, action));
        },
    }
}

/// Every failure that a ranking words itself has its own cause, and the cause
/// always leads to it.
#[verifier::rlimit(60)]
#[verifier::spinoff_prover]
pub proof fn failures_have_their_cause(flow: Flow, event: Event)
    requires
        is_awaited(flow.phase, event),
    ensures
        failure_fits(flow, event, flow.stepped(event).1),
{
    let action = flow.stepped(event).1;
    match event {
        Event::Clock { .. } => {
            assert(failure_fits(flow, event, action));
        },
        Event::Config(_) => {
            assert(failure_fits(flow, event, action));
        },
        Event::Source(_) => {
            assert(failure_fits(flow, event, action));
        },
        Event::Context { .. } => {
            assert(failure_fits(flow, event, action));
        },
        Event::Anchor(_) => {
            assert(failure_fits(flow, event, action));
        },
        Event::Roster { .. } => {
            assert(failure_fits(flow, event, action));
        },
        Event::Explicit(_) => {
            assert(failure_fits(flow, event, action));
        },
        Event::Policy(_) => {
            assert(failure_fits(flow, event, action));
        },
        Event::Admission(_) => {
            assert(failure_fits(flow, event, action));
        },
        Event::Retrieval(_) => {
            assert(failure_fits(flow, event, action));
        },
        Event::Capture { .. } => {
            assert(failure_fits(flow, event, action));
        },
        Event::Render(_) => {
            assert(failure_fits(flow, event, action));
        },
        Event::Store(_) => {
            assert(failure_fits(flow, event, action));
        },
        Event::WideRequest { .. } => {
            assert(failure_fits(flow, event, action));
        },
        Event::Preview { .. } => {
            assert(failure_fits(flow, event, action));
        },
        Event::Endpoint { .. } => {
            assert(failure_fits(flow, event, action));
        },
        Event::Lookup(_) => {
            assert(failure_fits(flow, event, action));
        },
        Event::Lease(_) => {
            assert(failure_fits(flow, event, action));
        },
        Event::Waited => {
            assert(failure_fits(flow, event, action));
        },
        Event::WideAnswer { .. } => {
            assert(failure_fits(flow, event, action));
        },
        Event::WideOutcome(_) => {
            assert(failure_fits(flow, event, action));
        },
        Event::RerankRequest { .. } => {
            assert(failure_fits(flow, event, action));
        },
        Event::RerankAnswer { .. } => {
            assert(failure_fits(flow, event, action));
        },
        Event::RerankOutcome(_) => {
            assert(failure_fits(flow, event, action));
        },
        Event::Scores(_) => {
            assert(failure_fits(flow, event, action));
        },
        Event::RosterCheck { .. } => {
            assert(failure_fits(flow, event, action));
        },
        Event::Publication { .. } => {
            assert(failure_fits(flow, event, action));
        },
    }
}

/// A failure that is reported in another's words follows a step that failed or
/// was refused.
#[verifier::rlimit(60)]
#[verifier::spinoff_prover]
pub proof fn reported_failures_follow_failed_steps(flow: Flow, event: Event)
    requires
        is_awaited(flow.phase, event),
    ensures
        report_fits(flow, event, flow.stepped(event).1),
{
    let action = flow.stepped(event).1;
    match event {
        Event::Clock { .. } => {
            assert(report_fits(flow, event, action));
        },
        Event::Config(_) => {
            assert(report_fits(flow, event, action));
        },
        Event::Source(_) => {
            assert(report_fits(flow, event, action));
        },
        Event::Context { .. } => {
            assert(report_fits(flow, event, action));
        },
        Event::Anchor(_) => {
            assert(report_fits(flow, event, action));
        },
        Event::Roster { .. } => {
            assert(report_fits(flow, event, action));
        },
        Event::Explicit(_) => {
            assert(report_fits(flow, event, action));
        },
        Event::Policy(_) => {
            assert(report_fits(flow, event, action));
        },
        Event::Admission(_) => {
            assert(report_fits(flow, event, action));
        },
        Event::Retrieval(_) => {
            assert(report_fits(flow, event, action));
        },
        Event::Capture { .. } => {
            assert(report_fits(flow, event, action));
        },
        Event::Render(_) => {
            assert(report_fits(flow, event, action));
        },
        Event::Store(_) => {
            assert(report_fits(flow, event, action));
        },
        Event::WideRequest { .. } => {
            assert(report_fits(flow, event, action));
        },
        Event::Preview { .. } => {
            assert(report_fits(flow, event, action));
        },
        Event::Endpoint { .. } => {
            assert(report_fits(flow, event, action));
        },
        Event::Lookup(_) => {
            assert(report_fits(flow, event, action));
        },
        Event::Lease(_) => {
            assert(report_fits(flow, event, action));
        },
        Event::Waited => {
            assert(report_fits(flow, event, action));
        },
        Event::WideAnswer { .. } => {
            assert(report_fits(flow, event, action));
        },
        Event::WideOutcome(_) => {
            assert(report_fits(flow, event, action));
        },
        Event::RerankRequest { .. } => {
            assert(report_fits(flow, event, action));
        },
        Event::RerankAnswer { .. } => {
            assert(report_fits(flow, event, action));
        },
        Event::RerankOutcome(_) => {
            assert(report_fits(flow, event, action));
        },
        Event::Scores(_) => {
            assert(report_fits(flow, event, action));
        },
        Event::RosterCheck { .. } => {
            assert(report_fits(flow, event, action));
        },
        Event::Publication { .. } => {
            assert(report_fits(flow, event, action));
        },
    }
}

/// Every local action has its cause, and the cause always leads to it.
#[verifier::rlimit(60)]
#[verifier::spinoff_prover]
pub proof fn actions_have_their_cause(flow: Flow, event: Event)
    requires
        is_awaited(flow.phase, event),
    ensures
        action_fits(flow, event, flow.stepped(event).1),
{
    let action = flow.stepped(event).1;
    match event {
        Event::Clock { .. } => {
            assert(action_fits(flow, event, action));
        },
        Event::Config(_) => {
            assert(action_fits(flow, event, action));
        },
        Event::Source(_) => {
            assert(action_fits(flow, event, action));
        },
        Event::Context { .. } => {
            assert(action_fits(flow, event, action));
        },
        Event::Anchor(_) => {
            assert(action_fits(flow, event, action));
        },
        Event::Roster { .. } => {
            assert(action_fits(flow, event, action));
        },
        Event::Explicit(_) => {
            assert(action_fits(flow, event, action));
        },
        Event::Policy(_) => {
            assert(action_fits(flow, event, action));
        },
        Event::Admission(_) => {
            assert(action_fits(flow, event, action));
        },
        Event::Retrieval(_) => {
            assert(action_fits(flow, event, action));
        },
        Event::Capture { .. } => {
            assert(action_fits(flow, event, action));
        },
        Event::Render(_) => {
            assert(action_fits(flow, event, action));
        },
        Event::Store(_) => {
            assert(action_fits(flow, event, action));
        },
        Event::WideRequest { .. } => {
            assert(action_fits(flow, event, action));
        },
        Event::Preview { .. } => {
            assert(action_fits(flow, event, action));
        },
        Event::Endpoint { .. } => {
            assert(action_fits(flow, event, action));
        },
        Event::Lookup(_) => {
            assert(action_fits(flow, event, action));
        },
        Event::Lease(_) => {
            assert(action_fits(flow, event, action));
        },
        Event::Waited => {
            assert(action_fits(flow, event, action));
        },
        Event::WideAnswer { .. } => {
            assert(action_fits(flow, event, action));
        },
        Event::WideOutcome(_) => {
            assert(action_fits(flow, event, action));
        },
        Event::RerankRequest { .. } => {
            assert(action_fits(flow, event, action));
        },
        Event::RerankAnswer { .. } => {
            assert(action_fits(flow, event, action));
        },
        Event::RerankOutcome(_) => {
            assert(action_fits(flow, event, action));
        },
        Event::Scores(_) => {
            assert(action_fits(flow, event, action));
        },
        Event::RosterCheck { .. } => {
            assert(action_fits(flow, event, action));
        },
        Event::Publication { .. } => {
            assert(action_fits(flow, event, action));
        },
    }
}

/// Every action on the way of the answers has its cause, and the cause always
/// leads to it: what is sent, what is looked up and what is scored.
#[verifier::rlimit(60)]
#[verifier::spinoff_prover]
pub proof fn answers_have_their_course(flow: Flow, event: Event)
    requires
        is_awaited(flow.phase, event),
    ensures
        answer_fits(flow, event, flow.stepped(event).1),
{
    let action = flow.stepped(event).1;
    match event {
        Event::Clock { .. } => {
            assert(answer_fits(flow, event, action));
        },
        Event::Config(_) => {
            assert(answer_fits(flow, event, action));
        },
        Event::Source(_) => {
            assert(answer_fits(flow, event, action));
        },
        Event::Context { .. } => {
            assert(answer_fits(flow, event, action));
        },
        Event::Anchor(_) => {
            assert(answer_fits(flow, event, action));
        },
        Event::Roster { .. } => {
            assert(answer_fits(flow, event, action));
        },
        Event::Explicit(_) => {
            assert(answer_fits(flow, event, action));
        },
        Event::Policy(_) => {
            assert(answer_fits(flow, event, action));
        },
        Event::Admission(_) => {
            assert(answer_fits(flow, event, action));
        },
        Event::Retrieval(_) => {
            assert(answer_fits(flow, event, action));
        },
        Event::Capture { .. } => {
            assert(answer_fits(flow, event, action));
        },
        Event::Render(_) => {
            assert(answer_fits(flow, event, action));
        },
        Event::Store(_) => {
            assert(answer_fits(flow, event, action));
        },
        Event::WideRequest { .. } => {
            assert(answer_fits(flow, event, action));
        },
        Event::Preview { .. } => {
            assert(answer_fits(flow, event, action));
        },
        Event::Endpoint { .. } => {
            assert(answer_fits(flow, event, action));
        },
        Event::Lookup(_) => {
            assert(answer_fits(flow, event, action));
        },
        Event::Lease(_) => {
            assert(answer_fits(flow, event, action));
        },
        Event::Waited => {
            assert(answer_fits(flow, event, action));
        },
        Event::WideAnswer { .. } => {
            assert(answer_fits(flow, event, action));
        },
        Event::WideOutcome(_) => {
            assert(answer_fits(flow, event, action));
        },
        Event::RerankRequest { .. } => {
            assert(answer_fits(flow, event, action));
        },
        Event::RerankAnswer { .. } => {
            assert(answer_fits(flow, event, action));
        },
        Event::RerankOutcome(_) => {
            assert(answer_fits(flow, event, action));
        },
        Event::Scores(_) => {
            assert(answer_fits(flow, event, action));
        },
        Event::RosterCheck { .. } => {
            assert(answer_fits(flow, event, action));
        },
        Event::Publication { .. } => {
            assert(answer_fits(flow, event, action));
        },
    }
}

/// A lease that was taken is kept until the run ends, and only its leader holds
/// one.
pub proof fn leases_are_kept(flow: Flow, event: Event)
    requires
        is_awaited(flow.phase, event),
    ensures
        flow.stepped(event).0.lease_held <==> flow.lease_held || event == Event::Lease(
            LeaseReading::Leading,
        ),
        flow.stepped(event).0.dry_run == flow.dry_run,
{
}

/// Does a run wait for the answer to what it was told to do?
pub open spec fn waits_for_the_answer(event: Event, next: Flow, action: Action) -> bool {
    match action {
        Action::LoadConfig => next.phase == Phase::Config,
        Action::SelectSource => next.phase == Phase::Source,
        Action::ReadContext => next.phase == Phase::Context,
        Action::ResolveAnchor => next.phase == Phase::Anchor,
        Action::LoadRoster => next.phase == Phase::Roster,
        Action::ResolveExplicit => next.phase == Phase::Explicit,
        Action::AdmitCandidates => next.phase == Phase::Admission,
        Action::Retrieve => next.phase == Phase::Retrieval,
        Action::CaptureDependencies => next.phase == Phase::Capture,
        Action::RenderContext => next.phase == Phase::Render,
        Action::OpenStore => next.phase == Phase::Store,
        Action::BuildWide => next.phase == Phase::WideRequest,
        Action::BuildPreview => next.phase == Phase::Preview,
        Action::ResolveEndpoint => next.phase == Phase::Endpoint,
        Action::AcquireLease => next.phase == Phase::Lease,
        Action::WaitForLeader => next.phase == Phase::Waiting,
        Action::SendWide => next.phase == Phase::WideAnswer,
        Action::EvaluateWide => next.phase == Phase::WideOutcome,
        Action::BuildRerank => next.phase == Phase::RerankRequest,
        Action::SendRerank => next.phase == Phase::RerankAnswer,
        Action::EvaluateRerank => next.phase == Phase::RerankOutcome,
        Action::Score => next.phase == Phase::Scores,
        Action::ValidateRoster => next.phase == Phase::RosterCheck,
        Action::CheckPublication => next.phase == Phase::Publication,
        Action::LookUp => if event is Endpoint {
            next.phase == Phase::Lookup
        } else {
            next.phase == Phase::SecondLookup
        },
        Action::RefreshPolicy => if event is Explicit {
            next.phase == Phase::ExplicitPolicy
        } else if event is WideOutcome {
            next.phase == Phase::LowNeedPolicy
        } else {
            next.phase == Phase::RankedPolicy
        },
        Action::Finish(_) => next.phase == Phase::Ended,
    }
}

#[verifier::rlimit(40)]
#[verifier::spinoff_prover]
proof fn opening_steps_wait(flow: Flow, event: Event)
    requires
        is_awaited(flow.phase, event),
        event is Clock || event is Config || event is Source || event is Context || event is Anchor
            || event is Roster || event is Explicit,
    ensures
        waits_for_the_answer(event, flow.stepped(event).0, flow.stepped(event).1),
{
    let (next, action) = flow.stepped(event);
    match event {
        Event::Clock { .. } => {
            assert(waits_for_the_answer(event, next, action));
        },
        Event::Config(_) => {
            assert(waits_for_the_answer(event, next, action));
        },
        Event::Source(_) => {
            assert(waits_for_the_answer(event, next, action));
        },
        Event::Context { .. } => {
            assert(waits_for_the_answer(event, next, action));
        },
        Event::Anchor(_) => {
            assert(waits_for_the_answer(event, next, action));
        },
        Event::Roster { .. } => {
            assert(waits_for_the_answer(event, next, action));
        },
        Event::Explicit(_) => {
            assert(waits_for_the_answer(event, next, action));
        },
        _ => {},
    }
}

#[verifier::rlimit(40)]
#[verifier::spinoff_prover]
proof fn preparing_steps_wait(flow: Flow, event: Event)
    requires
        is_awaited(flow.phase, event),
        event is Policy || event is Admission || event is Retrieval || event is Capture
            || event is Render || event is Store || event is WideRequest,
    ensures
        waits_for_the_answer(event, flow.stepped(event).0, flow.stepped(event).1),
{
    let (next, action) = flow.stepped(event);
    match event {
        Event::Policy(_) => {
            assert(waits_for_the_answer(event, next, action));
        },
        Event::Admission(_) => {
            assert(waits_for_the_answer(event, next, action));
        },
        Event::Retrieval(_) => {
            assert(waits_for_the_answer(event, next, action));
        },
        Event::Capture { .. } => {
            assert(waits_for_the_answer(event, next, action));
        },
        Event::Render(_) => {
            assert(waits_for_the_answer(event, next, action));
        },
        Event::Store(_) => {
            assert(waits_for_the_answer(event, next, action));
        },
        Event::WideRequest { .. } => {
            assert(waits_for_the_answer(event, next, action));
        },
        _ => {},
    }
}

#[verifier::rlimit(40)]
#[verifier::spinoff_prover]
proof fn answering_steps_wait(flow: Flow, event: Event)
    requires
        is_awaited(flow.phase, event),
        event is Preview || event is Endpoint || event is Lookup || event is Lease
            || event is Waited || event is WideAnswer || event is WideOutcome,
    ensures
        waits_for_the_answer(event, flow.stepped(event).0, flow.stepped(event).1),
{
    let (next, action) = flow.stepped(event);
    match event {
        Event::Preview { .. } => {
            assert(waits_for_the_answer(event, next, action));
        },
        Event::Endpoint { .. } => {
            assert(waits_for_the_answer(event, next, action));
        },
        Event::Lookup(_) => {
            assert(waits_for_the_answer(event, next, action));
        },
        Event::Lease(_) => {
            assert(waits_for_the_answer(event, next, action));
        },
        Event::Waited => {
            assert(waits_for_the_answer(event, next, action));
        },
        Event::WideAnswer { .. } => {
            assert(waits_for_the_answer(event, next, action));
        },
        Event::WideOutcome(_) => {
            assert(waits_for_the_answer(event, next, action));
        },
        _ => {},
    }
}

#[verifier::rlimit(40)]
#[verifier::spinoff_prover]
proof fn closing_steps_wait(flow: Flow, event: Event)
    requires
        is_awaited(flow.phase, event),
        event is RerankRequest || event is RerankAnswer || event is RerankOutcome
            || event is Scores || event is RosterCheck || event is Publication,
    ensures
        waits_for_the_answer(event, flow.stepped(event).0, flow.stepped(event).1),
{
    let (next, action) = flow.stepped(event);
    match event {
        Event::RerankRequest { .. } => {
            assert(waits_for_the_answer(event, next, action));
        },
        Event::RerankAnswer { .. } => {
            assert(waits_for_the_answer(event, next, action));
        },
        Event::RerankOutcome(_) => {
            assert(waits_for_the_answer(event, next, action));
        },
        Event::Scores(_) => {
            assert(waits_for_the_answer(event, next, action));
        },
        Event::RosterCheck { .. } => {
            assert(waits_for_the_answer(event, next, action));
        },
        Event::Publication { .. } => {
            assert(waits_for_the_answer(event, next, action));
        },
        _ => {},
    }
}

/// Whatever a run is told to do, it waits for the answer to that; and once it
/// has finished, it is over.
pub proof fn runs_wait_for_their_answers(flow: Flow, event: Event)
    requires
        is_awaited(flow.phase, event),
    ensures
        waits_for_the_answer(event, flow.stepped(event).0, flow.stepped(event).1),
{
    match event {
        Event::Clock { .. }
        | Event::Config(_)
        | Event::Source(_)
        | Event::Context { .. }
        | Event::Anchor(_)
        | Event::Roster { .. }
        | Event::Explicit(_) => {
            opening_steps_wait(flow, event);
        },
        Event::Policy(_)
        | Event::Admission(_)
        | Event::Retrieval(_)
        | Event::Capture { .. }
        | Event::Render(_)
        | Event::Store(_)
        | Event::WideRequest { .. } => {
            preparing_steps_wait(flow, event);
        },
        Event::Preview { .. }
        | Event::Endpoint { .. }
        | Event::Lookup(_)
        | Event::Lease(_)
        | Event::Waited
        | Event::WideAnswer { .. }
        | Event::WideOutcome(_) => {
            answering_steps_wait(flow, event);
        },
        Event::RerankRequest { .. }
        | Event::RerankAnswer { .. }
        | Event::RerankOutcome(_)
        | Event::Scores(_)
        | Event::RosterCheck { .. }
        | Event::Publication { .. } => {
            closing_steps_wait(flow, event);
        },
    }
}

/// Does a run remember what it learned, and nothing else?
pub open spec fn remembers(flow: Flow, event: Event, next: Flow) -> bool {
    &&& next.required == (match event {
        Event::Anchor(AnchorReading::Established { required }) => required,
        _ => flow.required,
    })
    &&& next.admitted <==> flow.admitted || event == (Event::Roster { loaded: true })
    &&& next.persistent == (match event {
        Event::Store(StoreReading::Ready { persistent, .. }) => persistent,
        _ => flow.persistent,
    })
    &&& next.leases == (match event {
        Event::Store(StoreReading::Ready { persistent, leases }) => persistent && leases,
        _ => flow.leases,
    })
    &&& next.wide == (match event {
        Event::WideAnswer { answered: true } => WideOrigin::Fresh,
        Event::Lookup(LookupReading::Hit { with_rerank }) => WideOrigin::Cached { with_rerank },
        _ => flow.wide,
    })
    &&& next.roster_valid <==> flow.roster_valid || event == (Event::RosterCheck { valid: true })
}

/// A run remembers whether skills are required, whether its input was admitted,
/// where its wide answer came from and whether leases may be taken, from the
/// event that told it and until another one does.
#[verifier::rlimit(60)]
#[verifier::spinoff_prover]
pub proof fn runs_remember_what_they_learned(flow: Flow, event: Event)
    requires
        is_awaited(flow.phase, event),
    ensures
        remembers(flow, event, flow.stepped(event).0),
{
    let next = flow.stepped(event).0;
    match event {
        Event::Clock { .. } => {
            assert(remembers(flow, event, next));
        },
        Event::Config(_) => {
            assert(remembers(flow, event, next));
        },
        Event::Source(_) => {
            assert(remembers(flow, event, next));
        },
        Event::Context { .. } => {
            assert(remembers(flow, event, next));
        },
        Event::Anchor(_) => {
            assert(remembers(flow, event, next));
        },
        Event::Roster { .. } => {
            assert(remembers(flow, event, next));
        },
        Event::Explicit(_) => {
            assert(remembers(flow, event, next));
        },
        Event::Policy(_) => {
            assert(remembers(flow, event, next));
        },
        Event::Admission(_) => {
            assert(remembers(flow, event, next));
        },
        Event::Retrieval(_) => {
            assert(remembers(flow, event, next));
        },
        Event::Capture { .. } => {
            assert(remembers(flow, event, next));
        },
        Event::Render(_) => {
            assert(remembers(flow, event, next));
        },
        Event::Store(_) => {
            assert(remembers(flow, event, next));
        },
        Event::WideRequest { .. } => {
            assert(remembers(flow, event, next));
        },
        Event::Preview { .. } => {
            assert(remembers(flow, event, next));
        },
        Event::Endpoint { .. } => {
            assert(remembers(flow, event, next));
        },
        Event::Lookup(_) => {
            assert(remembers(flow, event, next));
        },
        Event::Lease(_) => {
            assert(remembers(flow, event, next));
        },
        Event::Waited => {
            assert(remembers(flow, event, next));
        },
        Event::WideAnswer { .. } => {
            assert(remembers(flow, event, next));
        },
        Event::WideOutcome(_) => {
            assert(remembers(flow, event, next));
        },
        Event::RerankRequest { .. } => {
            assert(remembers(flow, event, next));
        },
        Event::RerankAnswer { .. } => {
            assert(remembers(flow, event, next));
        },
        Event::RerankOutcome(_) => {
            assert(remembers(flow, event, next));
        },
        Event::Scores(_) => {
            assert(remembers(flow, event, next));
        },
        Event::RosterCheck { .. } => {
            assert(remembers(flow, event, next));
        },
        Event::Publication { .. } => {
            assert(remembers(flow, event, next));
        },
    }
}

/// A ranking starts unless a dry run that is asked for conflicts with another
/// flag, or a shortlist is given without a preview. A dry run stays one.
pub proof fn starts_are_refused_for_cause(
    gate_dry_run: bool,
    asked_dry_run: bool,
    flags_conflict: bool,
    shortlist_given: bool,
)
    ensures
        ({
            let refusal = start_refusal(
                gate_dry_run,
                asked_dry_run,
                flags_conflict,
                shortlist_given,
            );
            &&& !flags_conflict && !shortlist_given ==> refusal is None
            &&& gate_dry_run ==> refusal is None
            &&& asked_dry_run && !flags_conflict ==> refusal is None
            &&& shortlist_given && !gate_dry_run && !asked_dry_run ==> refusal is Some
            &&& flags_conflict && asked_dry_run && !gate_dry_run ==> refusal is Some
        }),
        started(gate_dry_run).dry_run == gate_dry_run,
        started(gate_dry_run).phase == Phase::Start,
        !started(gate_dry_run).admitted,
        !started(gate_dry_run).lease_held,
{
}

/// A follower waits on only while there is something to wait for and time to
/// wait: not once it is cancelled, out of time, past the lease or settled.
pub proof fn followers_wait_while_it_helps(
    remaining_ms: u64,
    now_unix_ms: u64,
    expires_at_unix_ms: u64,
)
    ensures
        !keeps_waiting(true, remaining_ms, now_unix_ms, expires_at_unix_ms, false),
        !keeps_waiting(false, remaining_ms, now_unix_ms, expires_at_unix_ms, true),
        keeps_waiting(false, remaining_ms, now_unix_ms, expires_at_unix_ms, false) <==>
            remaining_ms >= 1_000 && now_unix_ms < expires_at_unix_ms,
{
}

/// Was there such an event?
pub open spec fn happened(events: Seq<Event>, key: spec_fn(Event) -> bool) -> bool {
    exists|i: int| 0 <= i < events.len() && key(#[trigger] events[i])
}

/// What leads into each phase.
pub open spec fn is_led_into(flow: Flow, event: Event, next: Flow) -> bool {
    &&& next.wide == (WideOrigin::Cached { with_rerank: true }) ==> flow.wide == next.wide || event
        == Event::Lookup(LookupReading::Hit { with_rerank: true })
    &&& match next.phase {
        Phase::Start => false,
        Phase::Config => flow.phase == Phase::Start && event == (Event::Clock { open: true }),
        Phase::Source => flow.phase == Phase::Config,
        Phase::Context => flow.phase == Phase::Source,
        Phase::Anchor => flow.phase == Phase::Context && event == (Event::Context { read: true }),
        Phase::Roster => flow.phase == Phase::Anchor,
        Phase::Explicit => flow.phase == Phase::Roster && event == (Event::Roster { loaded: true }),
        Phase::ExplicitPolicy => flow.phase == Phase::Explicit,
        Phase::Admission => flow.phase == Phase::Explicit || (flow.phase == Phase::Roster && event
            == (Event::Roster { loaded: true })),
        Phase::Retrieval => flow.phase == Phase::Admission && (event matches Event::Admission(
            AdmissionReading::Candidates(n),
        ) && n > 254),
        Phase::Capture => flow.phase == Phase::Retrieval || (flow.phase == Phase::Admission && (
        event matches Event::Admission(AdmissionReading::Candidates(n)) && 0 < n <= 254)),
        Phase::Render => flow.phase == Phase::Capture && event == (Event::Capture {
            captured: true,
        }),
        Phase::Store => flow.phase == Phase::Render && event == Event::Render(
            RenderReading::Rendered { unsupported: false, request_truncated: false },
        ),
        Phase::WideRequest => flow.phase == Phase::Store,
        Phase::Preview => flow.phase == Phase::WideRequest && event == (Event::WideRequest {
            built: true,
        }),
        Phase::Endpoint => flow.phase == Phase::WideRequest && event == (Event::WideRequest {
            built: true,
        }),
        Phase::Lookup => flow.phase == Phase::Endpoint && event == (Event::Endpoint { valid: true }),
        Phase::Lease => flow.phase == Phase::Lookup,
        Phase::Waiting => flow.phase == Phase::Lease,
        Phase::SecondLookup => flow.phase == Phase::Lease || flow.phase == Phase::Waiting,
        Phase::WideAnswer => flow.phase == Phase::Lookup || flow.phase == Phase::SecondLookup
            || flow.phase == Phase::Lease,
        Phase::WideOutcome => (flow.phase == Phase::WideAnswer && event == (Event::WideAnswer {
            answered: true,
        })) || ((flow.phase == Phase::Lookup || flow.phase == Phase::SecondLookup) && (event
            == Event::Lookup(LookupReading::Hit { with_rerank: true }) || event == Event::Lookup(
            LookupReading::Hit { with_rerank: false },
        ))),
        Phase::LowNeedPolicy => flow.phase == Phase::WideOutcome && event == Event::WideOutcome(
            WideReading::LowNeed,
        ),
        Phase::RerankRequest => flow.phase == Phase::WideOutcome && event == Event::WideOutcome(
            WideReading::Shortlist,
        ),
        Phase::RerankAnswer => flow.phase == Phase::RerankRequest && event == (
        Event::RerankRequest { built: true }),
        Phase::RerankOutcome => (flow.phase == Phase::RerankAnswer && event == (
        Event::RerankAnswer { answered: true })) || (flow.phase == Phase::RerankRequest && event
            == (Event::RerankRequest { built: true }) && flow.wide == (WideOrigin::Cached {
            with_rerank: true,
        })),
        Phase::Scores => flow.phase == Phase::RerankOutcome && event == Event::RerankOutcome(
            RerankReading::Eligible,
        ),
        Phase::RosterCheck => flow.phase == Phase::Scores && event == Event::Scores(
            ScoreReading::Ranked,
        ),
        Phase::RankedPolicy => flow.phase == Phase::RosterCheck && event == (Event::RosterCheck {
            valid: true,
        }),
        Phase::Publication => flow.phase == Phase::RankedPolicy && event == Event::Policy(
            PolicyReading::Current,
        ),
        Phase::Ended => true,
    }
}

#[verifier::rlimit(40)]
#[verifier::spinoff_prover]
proof fn opening_phases_are_led_into(flow: Flow, event: Event)
    requires
        is_awaited(flow.phase, event),
        event is Clock || event is Config || event is Source || event is Context || event is Anchor
            || event is Roster || event is Explicit,
    ensures
        is_led_into(flow, event, flow.stepped(event).0),
{
    let next = flow.stepped(event).0;
    match event {
        Event::Clock { .. } => {
            assert(is_led_into(flow, event, next));
        },
        Event::Config(_) => {
            assert(is_led_into(flow, event, next));
        },
        Event::Source(_) => {
            assert(is_led_into(flow, event, next));
        },
        Event::Context { .. } => {
            assert(is_led_into(flow, event, next));
        },
        Event::Anchor(_) => {
            assert(is_led_into(flow, event, next));
        },
        Event::Roster { .. } => {
            assert(is_led_into(flow, event, next));
        },
        Event::Explicit(_) => {
            assert(is_led_into(flow, event, next));
        },
        _ => {},
    }
}

#[verifier::rlimit(40)]
#[verifier::spinoff_prover]
proof fn preparing_phases_are_led_into(flow: Flow, event: Event)
    requires
        is_awaited(flow.phase, event),
        event is Policy || event is Admission || event is Retrieval || event is Capture
            || event is Render || event is Store || event is WideRequest,
    ensures
        is_led_into(flow, event, flow.stepped(event).0),
{
    let next = flow.stepped(event).0;
    match event {
        Event::Policy(_) => {
            assert(is_led_into(flow, event, next));
        },
        Event::Admission(_) => {
            assert(is_led_into(flow, event, next));
        },
        Event::Retrieval(_) => {
            assert(is_led_into(flow, event, next));
        },
        Event::Capture { .. } => {
            assert(is_led_into(flow, event, next));
        },
        Event::Render(_) => {
            assert(is_led_into(flow, event, next));
        },
        Event::Store(_) => {
            assert(is_led_into(flow, event, next));
        },
        Event::WideRequest { .. } => {
            assert(is_led_into(flow, event, next));
        },
        _ => {},
    }
}

#[verifier::rlimit(40)]
#[verifier::spinoff_prover]
proof fn answering_phases_are_led_into(flow: Flow, event: Event)
    requires
        is_awaited(flow.phase, event),
        event is Preview || event is Endpoint || event is Lookup || event is Lease
            || event is Waited || event is WideAnswer || event is WideOutcome,
    ensures
        is_led_into(flow, event, flow.stepped(event).0),
{
    let next = flow.stepped(event).0;
    match event {
        Event::Preview { .. } => {
            assert(is_led_into(flow, event, next));
        },
        Event::Endpoint { .. } => {
            assert(is_led_into(flow, event, next));
        },
        Event::Lookup(_) => {
            assert(is_led_into(flow, event, next));
        },
        Event::Lease(_) => {
            assert(is_led_into(flow, event, next));
        },
        Event::Waited => {
            assert(is_led_into(flow, event, next));
        },
        Event::WideAnswer { .. } => {
            assert(is_led_into(flow, event, next));
        },
        Event::WideOutcome(_) => {
            assert(is_led_into(flow, event, next));
        },
        _ => {},
    }
}

#[verifier::rlimit(40)]
#[verifier::spinoff_prover]
proof fn closing_phases_are_led_into(flow: Flow, event: Event)
    requires
        is_awaited(flow.phase, event),
        event is RerankRequest || event is RerankAnswer || event is RerankOutcome
            || event is Scores || event is RosterCheck || event is Publication,
    ensures
        is_led_into(flow, event, flow.stepped(event).0),
{
    let next = flow.stepped(event).0;
    match event {
        Event::RerankRequest { .. } => {
            assert(is_led_into(flow, event, next));
        },
        Event::RerankAnswer { .. } => {
            assert(is_led_into(flow, event, next));
        },
        Event::RerankOutcome(_) => {
            assert(is_led_into(flow, event, next));
        },
        Event::Scores(_) => {
            assert(is_led_into(flow, event, next));
        },
        Event::RosterCheck { .. } => {
            assert(is_led_into(flow, event, next));
        },
        Event::Publication { .. } => {
            assert(is_led_into(flow, event, next));
        },
        _ => {},
    }
}

proof fn phases_are_led_into(flow: Flow, event: Event)
    requires
        is_awaited(flow.phase, event),
    ensures
        is_led_into(flow, event, flow.stepped(event).0),
{
    match event {
        Event::Clock { .. }
        | Event::Config(_)
        | Event::Source(_)
        | Event::Context { .. }
        | Event::Anchor(_)
        | Event::Roster { .. }
        | Event::Explicit(_) => {
            opening_phases_are_led_into(flow, event);
        },
        Event::Policy(_)
        | Event::Admission(_)
        | Event::Retrieval(_)
        | Event::Capture { .. }
        | Event::Render(_)
        | Event::Store(_)
        | Event::WideRequest { .. } => {
            preparing_phases_are_led_into(flow, event);
        },
        Event::Preview { .. }
        | Event::Endpoint { .. }
        | Event::Lookup(_)
        | Event::Lease(_)
        | Event::Waited
        | Event::WideAnswer { .. }
        | Event::WideOutcome(_) => {
            answering_phases_are_led_into(flow, event);
        },
        Event::RerankRequest { .. }
        | Event::RerankAnswer { .. }
        | Event::RerankOutcome(_)
        | Event::Scores(_)
        | Event::RosterCheck { .. }
        | Event::Publication { .. } => {
            closing_phases_are_led_into(flow, event);
        },
    }
}

/// Where a run stood, what came, and where it went.
proof fn last_step(dry_run: bool, events: Seq<Event>) -> (before: Flow)
    requires
        ran(dry_run, events) is Some,
        events.len() > 0,
    ensures
        ran(dry_run, events.drop_last()) == Some(before),
        is_led_into(before, events[events.len() - 1], ran(dry_run, events)->0),
{
    let before = ran(dry_run, events.drop_last())->0;
    phases_are_led_into(before, events.last());
    before
}

/// Is this a part of the course that only one kind of event leads into?
pub open spec fn is_entered_by(
    inside: spec_fn(Flow) -> bool,
    key: spec_fn(Event) -> bool,
) -> bool {
    &&& forall|flow: Flow|
        flow.phase == Phase::Start && flow.wide == WideOrigin::Unanswered ==> !#[trigger] inside(
            flow,
        )
    &&& forall|flow: Flow, event: Event, next: Flow|
        #[trigger] is_led_into(flow, event, next) && !inside(flow) && inside(next) ==> key(event)
}

/// What only one kind of event leads into was led into by one.
proof fn entered_by(
    dry_run: bool,
    events: Seq<Event>,
    inside: spec_fn(Flow) -> bool,
    key: spec_fn(Event) -> bool,
)
    requires
        is_entered_by(inside, key),
        ran(dry_run, events) is Some,
        inside(ran(dry_run, events)->0),
    ensures
        happened(events, key),
    decreases events.len(),
{
    if events.len() > 0 {
        let before = last_step(dry_run, events);
        if inside(before) {
            entered_by(dry_run, events.drop_last(), inside, key);
            let i = choose|i: int|
                0 <= i < events.drop_last().len() && key(#[trigger] events.drop_last()[i]);
            assert(key(events[i]));
        } else {
            assert(key(events[events.len() - 1]));
        }
    }
}

/// The phases from the rerank's verdict on.
pub open spec fn is_past_verdict(phase: Phase) -> bool {
    phase == Phase::Scores || phase == Phase::RosterCheck || phase == Phase::RankedPolicy || phase
        == Phase::Publication
}

/// The phases from the shortlist on.
pub open spec fn is_past_shortlist(phase: Phase) -> bool {
    phase == Phase::RerankRequest || phase == Phase::RerankAnswer || phase == Phase::RerankOutcome
        || is_past_verdict(phase)
}

/// The phases from the wide answer on.
pub open spec fn is_past_answer(phase: Phase) -> bool {
    phase == Phase::WideOutcome || phase == Phase::LowNeedPolicy || is_past_shortlist(phase)
}

/// The phases from the look-up on.
pub open spec fn is_past_endpoint(phase: Phase) -> bool {
    phase == Phase::Lookup || phase == Phase::Lease || phase == Phase::Waiting || phase
        == Phase::SecondLookup || phase == Phase::WideAnswer || is_past_answer(phase)
}

/// The phases from the rendered context on.
pub open spec fn is_past_rendering(phase: Phase) -> bool {
    phase == Phase::Store || phase == Phase::WideRequest || phase == Phase::Preview || phase
        == Phase::Endpoint || is_past_endpoint(phase)
}

/// The phases from the admitted candidates on.
pub open spec fn is_past_candidates(phase: Phase) -> bool {
    phase == Phase::Retrieval || phase == Phase::Capture || phase == Phase::Render
        || is_past_rendering(phase)
}

/// A run that scores, or publishes a ranking, had a rerank verdict that found
/// eligible skills, behind a wide answer with a shortlist.
pub proof fn rankings_follow_an_eligible_verdict(dry_run: bool, events: Seq<Event>)
    requires
        ran(dry_run, events) is Some,
        is_past_verdict(ran(dry_run, events)->0.phase),
    ensures
        events.contains(Event::RerankOutcome(RerankReading::Eligible)),
        events.contains(Event::WideOutcome(WideReading::Shortlist)),
        events.contains(Event::RerankRequest { built: true }),
        events.contains(Event::RerankAnswer { answered: true }) || events.contains(
            Event::Lookup(LookupReading::Hit { with_rerank: true }),
        ),
{
    let key = |e: Event| e == Event::RerankOutcome(RerankReading::Eligible);
    entered_by(dry_run, events, |f: Flow| is_past_verdict(f.phase), key);
    let key = |e: Event| e == Event::WideOutcome(WideReading::Shortlist);
    entered_by(dry_run, events, |f: Flow| is_past_shortlist(f.phase), key);
    let key = |e: Event| e == (Event::RerankRequest { built: true });
    entered_by(
        dry_run,
        events,
        |f: Flow|
            f.phase == Phase::RerankAnswer || f.phase == Phase::RerankOutcome || is_past_verdict(
                f.phase,
            ),
        key,
    );
    reranks_were_answered(dry_run, events);
}

proof fn reranks_were_answered(dry_run: bool, events: Seq<Event>)
    requires
        ran(dry_run, events) is Some,
        ran(dry_run, events)->0.phase == Phase::RerankOutcome || is_past_verdict(
            ran(dry_run, events)->0.phase,
        ),
    ensures
        events.contains(Event::RerankAnswer { answered: true }) || events.contains(
            Event::Lookup(LookupReading::Hit { with_rerank: true }),
        ),
    decreases events.len(),
{
    if events.len() > 0 {
        let before = last_step(dry_run, events);
        if before.phase == Phase::RerankOutcome || is_past_verdict(before.phase) {
            reranks_were_answered(dry_run, events.drop_last());
            let shorter = events.drop_last();
            if shorter.contains(Event::RerankAnswer { answered: true }) {
                let i = shorter.index_of(Event::RerankAnswer { answered: true });
                assert(events[i] == shorter[i]);
            } else {
                let hit = Event::Lookup(LookupReading::Hit { with_rerank: true });
                let i = shorter.index_of(hit);
                assert(events[i] == shorter[i]);
            }
        } else if events.last() == (Event::RerankAnswer { answered: true }) {
            assert(events[events.len() - 1] == events.last());
        } else {
            assert(before.wide == (WideOrigin::Cached { with_rerank: true }));
            let key = |e: Event| e == Event::Lookup(LookupReading::Hit { with_rerank: true });
            entered_by(
                dry_run,
                events.drop_last(),
                |f: Flow| f.wide == (WideOrigin::Cached { with_rerank: true }),
                key,
            );
            let i = choose|i: int|
                0 <= i < events.drop_last().len() && key(#[trigger] events.drop_last()[i]);
            assert(events[i] == events.drop_last()[i]);
        }
    }
}

/// A run that publishes a ranking was scored, found its roster and its policy
/// unchanged, and was in time.
pub proof fn rankings_were_checked(dry_run: bool, events: Seq<Event>)
    requires
        ran(dry_run, events) is Some,
        ran(dry_run, events)->0.phase == Phase::Publication,
    ensures
        events.contains(Event::Scores(ScoreReading::Ranked)),
        events.contains(Event::RosterCheck { valid: true }),
        events.contains(Event::Policy(PolicyReading::Current)),
{
    let key = |e: Event| e == Event::Scores(ScoreReading::Ranked);
    entered_by(
        dry_run,
        events,
        |f: Flow|
            f.phase == Phase::RosterCheck || f.phase == Phase::RankedPolicy || f.phase
                == Phase::Publication,
        key,
    );
    let key = |e: Event| e == (Event::RosterCheck { valid: true });
    entered_by(
        dry_run,
        events,
        |f: Flow| f.phase == Phase::RankedPolicy || f.phase == Phase::Publication,
        key,
    );
    let key = |e: Event| e == Event::Policy(PolicyReading::Current);
    entered_by(dry_run, events, |f: Flow| f.phase == Phase::Publication, key);
}

/// Every run that publishes a ranking, and every one that scores, had a rerank
/// verdict that found eligible skills; what abstained or was unavailable is
/// never scored, and so never ranked.
pub proof fn rankings_had_an_eligible_verdict(dry_run: bool, events: Seq<Event>, event: Event)
    requires
        ran(dry_run, events) is Some,
        is_awaited(ran(dry_run, events)->0.phase, event),
        ({
            let action = ran(dry_run, events)->0.stepped(event).1;
            action == Action::Finish(Ending::Ranked) || action == Action::Score
        }),
    ensures
        events.push(event).contains(Event::RerankOutcome(RerankReading::Eligible)),
        ran(dry_run, events)->0.stepped(event).1 == Action::Finish(Ending::Ranked) ==> {
            &&& events.contains(Event::WideOutcome(WideReading::Shortlist))
            &&& events.contains(Event::Scores(ScoreReading::Ranked))
            &&& events.contains(Event::RosterCheck { valid: true })
            &&& events.contains(Event::Policy(PolicyReading::Current))
            &&& event == (Event::Publication { late: false })
        },
{
    let flow = ran(dry_run, events)->0;
    let eligible = Event::RerankOutcome(RerankReading::Eligible);
    let all = events.push(event);
    if flow.stepped(event).1 == Action::Score {
        answers_have_their_course(flow, event);
        assert(all[events.len() as int] == eligible);
    } else {
        endings_have_their_cause(flow, event);
        assert(flow.phase == Phase::Publication);
        rankings_follow_an_eligible_verdict(dry_run, events);
        rankings_were_checked(dry_run, events);
        let i = events.index_of(eligible);
        assert(all[i] == eligible);
    }
}

/// A run that evaluates a wide answer had one, from the cache or from the
/// provider, and a valid endpoint.
pub proof fn answers_were_given(dry_run: bool, events: Seq<Event>)
    requires
        ran(dry_run, events) is Some,
        is_past_answer(ran(dry_run, events)->0.phase),
    ensures
        happened(
            events,
            |e: Event|
                e == (Event::WideAnswer { answered: true }) || e == Event::Lookup(
                    LookupReading::Hit { with_rerank: true },
                ) || e == Event::Lookup(LookupReading::Hit { with_rerank: false }),
        ),
        events.contains(Event::Endpoint { valid: true }),
        events.contains(Event::WideRequest { built: true }),
{
    let key = |e: Event|
        e == (Event::WideAnswer { answered: true }) || e == Event::Lookup(
            LookupReading::Hit { with_rerank: true },
        ) || e == Event::Lookup(LookupReading::Hit { with_rerank: false });
    entered_by(dry_run, events, |f: Flow| is_past_answer(f.phase), key);
    let key = |e: Event| e == (Event::Endpoint { valid: true });
    entered_by(dry_run, events, |f: Flow| is_past_endpoint(f.phase), key);
    let key = |e: Event| e == (Event::WideRequest { built: true });
    entered_by(
        dry_run,
        events,
        |f: Flow|
            f.phase == Phase::Preview || f.phase == Phase::Endpoint || is_past_endpoint(f.phase),
        key,
    );
}

/// A run that builds a request had a context that was read, anchored, captured
/// and rendered whole, a roster and candidates.
pub proof fn requests_were_prepared(dry_run: bool, events: Seq<Event>)
    requires
        ran(dry_run, events) is Some,
        is_past_rendering(ran(dry_run, events)->0.phase),
    ensures
        events.contains(Event::Clock { open: true }),
        events.contains(Event::Context { read: true }),
        events.contains(Event::Roster { loaded: true }),
        events.contains(Event::Capture { captured: true }),
        events.contains(
            Event::Render(RenderReading::Rendered { unsupported: false, request_truncated: false }),
        ),
        happened(
            events,
            |e: Event| e matches Event::Admission(AdmissionReading::Candidates(n)) && n > 0,
        ),
{
    let key = |e: Event| e == (Event::Clock { open: true });
    entered_by(
        dry_run,
        events,
        |f: Flow| f.phase != Phase::Start && f.phase != Phase::Ended,
        key,
    );
    let key = |e: Event| e == (Event::Context { read: true });
    entered_by(
        dry_run,
        events,
        |f: Flow|
            f.phase != Phase::Start && f.phase != Phase::Ended && f.phase != Phase::Config
                && f.phase != Phase::Source && f.phase != Phase::Context,
        key,
    );
    let key = |e: Event| e == (Event::Roster { loaded: true });
    entered_by(
        dry_run,
        events,
        |f: Flow|
            f.phase == Phase::Explicit || f.phase == Phase::ExplicitPolicy || f.phase
                == Phase::Admission || is_past_candidates(f.phase),
        key,
    );
    let key = |e: Event| e == (Event::Capture { captured: true });
    entered_by(
        dry_run,
        events,
        |f: Flow| f.phase == Phase::Render || is_past_rendering(f.phase),
        key,
    );
    let key = |e: Event|
        e == Event::Render(
            RenderReading::Rendered { unsupported: false, request_truncated: false },
        );
    entered_by(dry_run, events, |f: Flow| is_past_rendering(f.phase), key);
    let key = |e: Event| e matches Event::Admission(AdmissionReading::Candidates(n)) && n > 0;
    entered_by(dry_run, events, |f: Flow| is_past_candidates(f.phase), key);
}

/// An ending is published as it is, except that a dry run shows a decision
/// inside a preview, and that a failure is unavailable once the input was
/// admitted and bare before.
pub proof fn endings_are_settled(flow: Flow, ending: Ending)
    ensures
        ({
            let s = settled(flow, ending);
            &&& ending is Failed && flow.admitted <==> s == Settlement::Unavailable
            &&& ending is Failed && !flow.admitted <==> s == Settlement::BareFailure
            &&& !(ending is Failed) && flow.dry_run && ending != Ending::Preview <==> s
                == Settlement::PreviewDecision
        }),
{
}

} // verus!
