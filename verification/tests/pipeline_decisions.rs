use skillranker::context::{EventKind, NormalizedEvent, Role};
use skillranker::jev::admission::Usage;
use skillranker::json::{json_object, json_text, Json, JsonNumber};
use skillranker::output::trace::{TraceStage, TraceStatus};
use skillranker::output::{fallback_kind, ErrorKind};
use skillranker::pipeline::candidate_set::{candidate_set_message, SetMember};
use skillranker::pipeline::candidates::{
    advisory_bindings, count_unverified, excluded_skills, explicit_directives, has_history,
    transcript_context, valid_shortlist, visibility_label, AnchorDirective, BindingPlace,
    SkillBinding, SkillRecord, Visibility,
};
use skillranker::pipeline::document::{
    account_stage, event_id_of, roster_warnings, Admitted, Evaluated, ExecutionMetrics, Quality,
    StageCost,
};
use skillranker::pipeline::failure::{
    authorize_send, check_policy, import_error, input_file_failure, map_transport_error,
    retrieval_failure, retry_failure, validation_error, Exit, InputReadError, LoadFailure,
    PolicyGate, Refusal, RetrievalError, RetryErrorKind, Revalidation, RevalidationError,
    RosterGate, SendStage, TransportErrorKind,
};
use skillranker::pipeline::flow::{
    enter, lease_settled, wait_for_leader, Action, AdmissionReading, AnchorReading, ConfigReading,
    Ending, Event, ExplicitReading, Flow, LeaseReading, LookupReading, Phase, PolicyReading,
    RenderReading, RerankReading, RetrievalReading, ScoreReading, Settlement, SourceReading,
    StartRefusal, Stop, StoreReading, WideReading,
};
use skillranker::pipeline::publication::{
    build_abstain_document, build_explicit_document, build_ranked_document, dominant_phase,
    input_quality, preview_document, preview_stage, public_reason, rendered_quality,
    unavailable_document, unresolved_message, EligibleSkill, PhaseShare, PublicReason,
    ResolvedExplicitSkill, ReturnedSkill, UnresolvedReason, WideEstimate,
};
use skillranker::pipeline::reports::{
    closing, preview_request, provider_failure, report_action, report_start, ActionFailure, Closing,
    Trimming,
};
use skillranker::pipeline::reuse::{
    account_lookup, account_rerank, cache_entry, candidate_digests, fingerprint_input, look_up,
    lookup_pair, request_namespace, CachedPair, CachedRerank, CachedWide, RequestStage,
};
use skillranker::pipeline::trace::{
    compute_stage_trace, generate_trace, trace_targets, Binding, Estimate, ExactResolution,
    InvocationKind, Lookup, PolicyView, RerankOutcome, RetrievalView, RosterSkill, Scored,
    Shortlisted, TraceInputs, WideDecision, WideOutcome,
};
use skillranker::score::Score;

fn score(value: f64) -> Score {
    Score {
        bits: value.to_bits(),
    }
}

fn drive(flow: &mut Flow, events: &[Event]) -> Action {
    let mut action = Action::LoadConfig;
    for event in events {
        action = flow.step(*event);
    }
    action
}

const LOADED: Event = Event::Config(ConfigReading::Loaded {
    top: 3,
    shortlist: 8,
    workspace_valid: true,
});

fn to_roster(required: bool) -> Vec<Event> {
    vec![
        Event::Clock { open: true },
        LOADED,
        Event::Source(SourceReading::NormalizedFile),
        Event::Context { read: true },
        Event::Anchor(AnchorReading::Established { required }),
        Event::Roster { loaded: true },
    ]
}

fn to_wide(persistent: bool) -> Vec<Event> {
    let mut events = to_roster(false);
    events.extend_from_slice(&[
        Event::Admission(AdmissionReading::Candidates(10)),
        Event::Capture { captured: true },
        Event::Render(RenderReading::Rendered {
            unsupported: false,
            request_truncated: false,
        }),
        Event::Store(StoreReading::Ready {
            persistent,
            leases: true,
        }),
        Event::WideRequest { built: true },
    ]);
    events
}

#[test]
fn a_fresh_run_sends_both_stages_and_is_revalidated() {
    let mut flow = Flow::start(false);
    let mut events = to_wide(false);
    events.extend_from_slice(&[
        Event::Endpoint { valid: true },
        Event::Lookup(LookupReading::Miss),
    ]);
    assert_eq!(drive(&mut flow, &events), Action::SendWide);
    assert_eq!(
        drive(
            &mut flow,
            &[
                Event::WideAnswer { answered: true },
                Event::WideOutcome(WideReading::Shortlist),
                Event::RerankRequest { built: true },
            ]
        ),
        Action::SendRerank
    );
    assert_eq!(
        drive(
            &mut flow,
            &[
                Event::RerankAnswer { answered: true },
                Event::RerankOutcome(RerankReading::Eligible),
                Event::Scores(ScoreReading::Ranked),
                Event::RosterCheck { valid: true },
                Event::Policy(PolicyReading::Current),
                Event::Publication { late: false },
            ]
        ),
        Action::Finish(Ending::Ranked)
    );
    assert_eq!(flow.settle(Ending::Ranked), Settlement::Publish);
    assert!(!flow.owes_lease());
    assert_eq!(flow.phase, Phase::Ended);
}

#[test]
fn a_cached_pair_is_never_mixed_with_a_fresh_rerank() {
    let mut flow = Flow::start(false);
    let mut events = to_wide(true);
    events.extend_from_slice(&[
        Event::Endpoint { valid: true },
        Event::Lookup(LookupReading::Hit { with_rerank: false }),
        Event::WideOutcome(WideReading::Shortlist),
        Event::RerankRequest { built: true },
    ]);
    assert_eq!(
        drive(&mut flow, &events),
        Action::Finish(Ending::Failed(Stop::UnpairedRerank))
    );
    let report = Stop::UnpairedRerank.report("", "").unwrap();
    assert_eq!(report.exit, Exit::Code(11));
    assert_eq!(report.kind, "cache-miss");
}

#[test]
fn leaders_hold_a_lease_and_followers_look_again() {
    let mut flow = Flow::start(false);
    let mut events = to_wide(true);
    events.extend_from_slice(&[
        Event::Endpoint { valid: true },
        Event::Lookup(LookupReading::Miss),
    ]);
    assert_eq!(drive(&mut flow, &events), Action::AcquireLease);
    let mut follower = flow;
    assert_eq!(flow.step(Event::Lease(LeaseReading::Leading)), Action::SendWide);
    assert!(flow.owes_lease());
    assert_eq!(
        follower.step(Event::Lease(LeaseReading::Following)),
        Action::WaitForLeader
    );
    assert_eq!(follower.step(Event::Waited), Action::LookUp);
    assert_eq!(
        follower.step(Event::Lookup(LookupReading::Hit { with_rerank: true })),
        Action::EvaluateWide
    );
    assert!(!follower.owes_lease());
    assert!(wait_for_leader(false, 1_000, 5, 6, false));
    assert!(!wait_for_leader(false, 999, 5, 6, false));
    assert!(!wait_for_leader(false, 1_000, 6, 6, false));
    assert!(!wait_for_leader(true, 1_000, 5, 6, false));
    assert!(lease_settled(None, 0));
    assert!(lease_settled(Some((true, 10)), 0));
    assert!(!lease_settled(Some((false, 10)), 9));
}

#[test]
fn a_dry_run_previews_and_sends_nothing() {
    let mut flow = enter(false, true, false, true).unwrap();
    assert_eq!(drive(&mut flow, &to_wide(true)), Action::BuildPreview);
    assert_eq!(
        flow.step(Event::Preview { built: true }),
        Action::Finish(Ending::Preview)
    );
    assert_eq!(flow.settle(Ending::Preview), Settlement::Publish);
    assert_eq!(flow.settle(Ending::Explicit), Settlement::PreviewDecision);
    assert_eq!(
        enter(false, false, false, true),
        Err(StartRefusal::ShortlistWithoutPreview)
    );
    assert_eq!(enter(false, true, true, false), Err(StartRefusal::ConflictingFlags));
    assert!(enter(true, true, true, false).is_ok());
}

#[test]
fn explicit_requirements_bypass_the_provider() {
    let mut flow = Flow::start(false);
    assert_eq!(drive(&mut flow, &to_roster(true)), Action::ResolveExplicit);
    let mut unresolved = flow;
    assert_eq!(
        unresolved.step(Event::Explicit(ExplicitReading::Unresolved)),
        Action::Finish(Ending::Unresolved)
    );
    let mut none = flow;
    assert_eq!(
        none.step(Event::Explicit(ExplicitReading::NoneSpecified)),
        Action::AdmitCandidates
    );
    assert_eq!(
        flow.step(Event::Explicit(ExplicitReading::Resolved)),
        Action::RefreshPolicy
    );
    let mut changed = flow;
    assert_eq!(
        changed.step(Event::Policy(PolicyReading::Refused)),
        Action::Finish(Ending::Failed(Stop::Reported))
    );
    assert_eq!(
        flow.step(Event::Policy(PolicyReading::Current)),
        Action::Finish(Ending::Explicit)
    );
}

#[test]
fn early_failures_are_bare_and_later_ones_are_unavailable() {
    let mut flow = Flow::start(false);
    let action = flow.step(Event::Clock { open: false });
    assert_eq!(action, Action::Finish(Ending::Failed(Stop::DeadlineBeforeStart)));
    assert_eq!(
        flow.settle(Ending::Failed(Stop::DeadlineBeforeStart)),
        Settlement::BareFailure
    );
    let mut flow = Flow::start(false);
    drive(&mut flow, &to_roster(false));
    let many = flow.step(Event::Admission(AdmissionReading::Candidates(255)));
    assert_eq!(many, Action::Retrieve);
    let none = flow.step(Event::Retrieval(RetrievalReading::Candidates(0)));
    assert_eq!(none, Action::Finish(Ending::NoShortlistMatch));
    assert_eq!(
        flow.settle(Ending::Failed(Stop::Reported)),
        Settlement::Unavailable
    );
    for (reading, stop) in [
        (SourceReading::NeedsChoice, Stop::AmbiguousSession),
        (SourceReading::HookStdin, Stop::HookSource),
        (SourceReading::Archive, Stop::ArchiveSource),
    ] {
        let mut flow = Flow::start(false);
        let events = [Event::Clock { open: true }, LOADED, Event::Source(reading)];
        assert_eq!(
            drive(&mut flow, &events),
            Action::Finish(Ending::Failed(stop))
        );
    }
    for (top, shortlist) in [(0, 5), (6, 5), (5, 33)] {
        let mut flow = Flow::start(false);
        let bad = Event::Config(ConfigReading::Loaded {
            top,
            shortlist,
            workspace_valid: true,
        });
        assert_eq!(
            drive(&mut flow, &[Event::Clock { open: true }, bad]),
            Action::Finish(Ending::Failed(Stop::InvalidSizes))
        );
    }
    assert_eq!(Stop::HookSource.report("use the hook", "").unwrap().message, "use the hook");
    assert!(Stop::Reported.report("", "").is_none());
}

fn refusal() -> Refusal {
    Refusal {
        kind: "network-denied".to_string(),
        message: "no consent".to_string(),
    }
}

#[test]
fn transport_failures_have_their_reports() {
    for (kind, code, name, message) in [
        (TransportErrorKind::Deadline, 6, "timeout", "Jev request exceeded deadline"),
        (TransportErrorKind::Cancelled, 6, "timeout", "Jev request exceeded deadline"),
        (
            TransportErrorKind::Response,
            10,
            "invalid-provider-response",
            "The provider response failed validation",
        ),
        (
            TransportErrorKind::CredentialOriginMismatch,
            4,
            "authentication",
            "Credential origin mismatch",
        ),
        (TransportErrorKind::HttpStatus(401), 4, "authentication", "Invalid credentials"),
        (TransportErrorKind::HttpStatus(403), 4, "authentication", "Invalid credentials"),
        (
            TransportErrorKind::HttpStatus(429),
            4,
            "provider-cooldown",
            "Rate limited by provider",
        ),
        (TransportErrorKind::HttpStatus(503), 4, "provider-failure", "HTTP error 503"),
        (
            TransportErrorKind::Other("Reset".to_string()),
            4,
            "network-failure",
            "Transport error: Reset",
        ),
    ] {
        let f = map_transport_error(&kind);
        assert_eq!(f.exit, Exit::Code(code));
        assert_eq!(f.kind, name);
        assert_eq!(f.message, message);
    }
    let f = map_transport_error(&TransportErrorKind::Admission(refusal()));
    assert_eq!((f.exit, f.kind.as_str()), (Exit::OfKind, "network-denied"));
}

#[test]
fn retries_report_what_stopped_them() {
    let last = Some(TransportErrorKind::HttpStatus(429));
    assert_eq!(
        retry_failure(&RetryErrorKind::RetryStopped, &last).kind,
        "provider-cooldown"
    );
    assert_eq!(
        retry_failure(&RetryErrorKind::RetryStopped, &None).message,
        "The provider request failed"
    );
    assert_eq!(
        retry_failure(&RetryErrorKind::Transport(TransportErrorKind::Deadline), &last).kind,
        "timeout"
    );
    assert_eq!(retry_failure(&RetryErrorKind::Accounting, &None).kind, "budget-state");
    assert_eq!(retry_failure(&RetryErrorKind::PolicyChanged, &None).exit, Exit::Code(3));
    assert_eq!(retry_failure(&RetryErrorKind::ModelPairMismatch, &None).exit, Exit::Code(10));
    assert_eq!(
        retry_failure(&RetryErrorKind::Admission(refusal()), &None).message,
        "no consent"
    );
}

#[test]
fn sends_and_publications_need_a_current_policy() {
    let changed = Revalidation::Superseded("[Model]".to_string());
    assert!(authorize_send(&Revalidation::Current, &None, SendStage::Wide).is_ok());
    assert_eq!(
        authorize_send(&Revalidation::InvalidConfiguration, &Some(refusal()), SendStage::Wide)
            .unwrap_err()
            .message,
        "Configuration invalid before wide send"
    );
    assert_eq!(
        authorize_send(&changed, &Some(refusal()), SendStage::Wide).unwrap_err().kind,
        "network-denied"
    );
    assert_eq!(
        authorize_send(&changed, &None, SendStage::Rerank).unwrap_err().message,
        "Policy changed before rerank send: [Model]"
    );
    assert!(check_policy(&Revalidation::Current, PolicyGate::RankedPublication).is_ok());
    assert_eq!(
        check_policy(&changed, PolicyGate::EarlyPublication).unwrap_err().message,
        "Policy changed during evaluation: [Model]"
    );
    assert_eq!(
        check_policy(&changed, PolicyGate::RankedPublication).unwrap_err().message,
        "Policy superseded before publication: [Model]"
    );
    assert_eq!(
        check_policy(&Revalidation::InvalidConfiguration, PolicyGate::EarlyPublication)
            .unwrap_err()
            .exit,
        Exit::Code(2)
    );
}

#[test]
fn roster_and_input_failures_have_their_reports() {
    assert_eq!(
        validation_error(&RevalidationError::Changed, RosterGate::Run).message,
        "Roster changed during ranking"
    );
    assert_eq!(
        validation_error(&RevalidationError::Changed, RosterGate::Reload).message,
        "Roster changed before publication"
    );
    assert_eq!(
        validation_error(&RevalidationError::Incomplete, RosterGate::Run).kind,
        "incomplete-roster"
    );
    assert_eq!(
        validation_error(&RevalidationError::Other("X".to_string()), RosterGate::Reload).message,
        "Roster validation failed: X"
    );
    assert_eq!(import_error(&LoadFailure::Deadline).exit, Exit::Code(6));
    assert_eq!(import_error(&LoadFailure::Plan).exit, Exit::Code(5));
    assert_eq!(
        import_error(&LoadFailure::Import("bad".to_string())).message,
        "Failed to import roster: bad"
    );
    assert_eq!(
        import_error(&LoadFailure::Resolution("bad".to_string())).message,
        "Failed to resolve roster: bad"
    );
    assert_eq!(input_file_failure(InputReadError::TooLarge).kind, "oversized-input");
    assert_eq!(input_file_failure(InputReadError::Unsupported).kind, "unsupported-input");
    assert_eq!(retrieval_failure(&RetrievalError::Empty).kind, "retrieval-empty");
    assert_eq!(retrieval_failure(&RetrievalError::Deadline).exit, Exit::Code(6));
    assert_eq!(
        retrieval_failure(&RetrievalError::Other("x".to_string())).message,
        "Retrieval error: x"
    );
    assert_eq!(fallback_kind(11), ErrorKind::CacheMiss);
    assert_eq!(fallback_kind(77), ErrorKind::InvalidUsage);
}

const PROVISIONAL: &str = "documented";

fn verified(version: &str) -> Visibility {
    Visibility::Verified {
        contract_version: version.to_string(),
    }
}

fn record(id: &str, name: &str, bindings: Vec<(&str, &str, Visibility)>) -> SkillRecord {
    SkillRecord {
        id: id.to_string(),
        display_name: name.to_string(),
        location: format!("/skills/{id}"),
        content_hash: format!("hash-{id}"),
        visibility: verified("v1"),
        bindings: bindings
            .into_iter()
            .map(|(id, invocation, visibility)| SkillBinding {
                id: id.to_string(),
                invocation: invocation.to_string(),
                visibility,
            })
            .collect(),
    }
}

fn roster() -> Vec<SkillRecord> {
    vec![
        record("r1", "Alpha", vec![("b1", "alpha", verified("v1"))]),
        record(
            "r2",
            "Beta",
            vec![
                ("b2", "beta", Visibility::Unverified),
                ("b3", "beta-2", verified(PROVISIONAL)),
            ],
        ),
    ]
}

#[test]
fn only_evidence_verifies() {
    assert_eq!(visibility_label(&verified("v1"), PROVISIONAL), "verified");
    assert_eq!(visibility_label(&verified(PROVISIONAL), PROVISIONAL), "unverified");
    assert_eq!(visibility_label(&Visibility::Unverified, PROVISIONAL), "unverified");
    assert_eq!(count_unverified(&roster(), PROVISIONAL), 2);
    assert_eq!(
        advisory_bindings(&roster()),
        vec![
            BindingPlace { skill: 0, binding: 0 },
            BindingPlace { skill: 1, binding: 1 },
        ]
    );
}

#[test]
fn exclusions_cover_every_identity_of_a_skill() {
    let names = vec!["beta-2".to_string(), "b9".to_string()];
    let set = excluded_skills(&names, &roster());
    assert_eq!(set.to_list(), vec!["b2", "b3", "b9", "beta-2", "r2"]);
    let by_name = excluded_skills(&vec!["Alpha".to_string()], &roster());
    assert_eq!(by_name.to_list(), vec!["Alpha", "b1", "r1"]);
    assert!(excluded_skills(&vec!["".to_string()], &roster()).is_empty());
}

#[test]
fn directives_are_merged_in_order() {
    let directive = |requires: bool, target: &str| AnchorDirective {
        requires,
        target: target.to_string(),
    };
    let merged = explicit_directives(
        &vec!["a".to_string()],
        &vec!["b".to_string(), "a".to_string()],
        &vec![
            directive(true, "c"),
            directive(false, "d"),
            directive(true, "b"),
            directive(true, ""),
        ],
    );
    assert_eq!(merged, vec!["a", "b", "c"]);
}

fn event(id: Option<&str>, role: Role, text: &str) -> NormalizedEvent {
    NormalizedEvent {
        event_id: id.map(str::to_string),
        parent_id: None,
        turn_id: None,
        agent_id: None,
        branch_id: None,
        role,
        kind: EventKind::Message,
        timestamp_unix_ms: None,
        text: text.to_string(),
        tool: None,
    }
}

#[test]
fn a_transcript_asks_what_the_user_said_last() {
    let events = vec![
        event(Some("1"), Role::User, "first"),
        event(Some("2"), Role::User, "second"),
        event(Some("3"), Role::Assistant, "answer"),
    ];
    let context = transcript_context(events, "/w");
    assert_eq!(context.current_request.text, "second");
    assert_eq!(context.current_request.event_id.as_deref(), Some("req-0"));
    assert_eq!(context.session_id.as_deref(), Some("session-0"));
    assert_eq!(context.workspace_root.as_deref(), Some("/w"));
    assert!(has_history(&context));
    let silent = transcript_context(vec![], "/w");
    assert_eq!(silent.current_request.text, "");
    assert!(!has_history(&silent));
    let own = transcript_context(vec![event(Some("req-0"), Role::User, "x")], "/w");
    assert!(!has_history(&own));
    let nameless = transcript_context(vec![event(None, Role::User, "x")], "/w");
    assert!(has_history(&nameless));
}

#[test]
fn shortlists_are_distinct_candidates_within_the_limit() {
    let list = |ids: &[&str]| ids.iter().map(|s| s.to_string()).collect::<Vec<_>>();
    let candidates = list(&["a", "b", "c"]);
    assert!(valid_shortlist(&list(&["c", "a"]), &candidates, 2));
    assert!(!valid_shortlist(&list(&["c", "a"]), &candidates, 1));
    assert!(!valid_shortlist(&list(&["a", "a"]), &candidates, 3));
    assert!(!valid_shortlist(&list(&["d"]), &candidates, 3));
}

fn member(id: &str, hash: &str) -> SetMember {
    SetMember {
        id: id.to_string(),
        content_hash: hash.to_string(),
    }
}

#[test]
fn candidate_sets_are_identified_whatever_their_order() {
    let a = candidate_set_message("wide", &vec![member("x", "1"), member("b", "2")]);
    let b = candidate_set_message("wide", &vec![member("b", "2"), member("x", "1")]);
    assert_eq!(a, b);
    let mut expected = Vec::new();
    for part in ["wide", "skillranker.candidate-set.v1", "b", "2", "x", "1"] {
        expected.extend_from_slice(&(part.len() as u64).to_le_bytes());
        expected.extend_from_slice(part.as_bytes());
    }
    assert_eq!(a, expected);
    assert_ne!(a, candidate_set_message("rerank", &vec![member("b", "2"), member("x", "1")]));
    assert_ne!(a, candidate_set_message("wide", &vec![member("b", "2x"), member("", "1")]));
}

fn texts(list: &[&str]) -> Vec<String> {
    list.iter().map(|s| s.to_string()).collect()
}

#[test]
fn warnings_count_codes_in_order_behind_the_caveat() {
    let (warnings, omitted) = roster_warnings(
        2,
        "confirm it loads",
        &texts(&["too-large", "bad-yaml", "too-large"]),
        &texts(&["root-missing", "entry-unreadable"]),
        10,
    );
    let seen: Vec<(String, usize)> = warnings.iter().map(|w| (w.kind.clone(), w.count)).collect();
    assert_eq!(
        seen,
        vec![
            ("unverified-visibility".to_string(), 2),
            ("bad-yaml".to_string(), 1),
            ("too-large".to_string(), 2),
            ("entry-unreadable".to_string(), 1),
        ]
    );
    assert_eq!(warnings[0].message, "confirm it loads");
    assert_eq!(omitted, 0);
    let (cut, omitted) = roster_warnings(0, "", &texts(&["b", "a"]), &texts(&["c"]), 2);
    assert_eq!(cut.len(), 2);
    assert_eq!(cut[0].kind, "a");
    assert_eq!(omitted, 1);
}

fn quality() -> Quality {
    input_quality("complete", "prompt-only", true, false, true)
}

fn evaluated() -> Evaluated {
    Evaluated {
        quality: quality(),
        ledger_disabled: true,
        metrics: ExecutionMetrics {
            requests: 2,
            http_attempts: 3,
            input_tokens: 40,
            output_tokens: 5,
            unknown_usage_attempts: 1,
            cache_hit: false,
            wide_hit: false,
            rerank_hit: false,
            cache_age_ms: None,
        },
        eligible: 9,
        wide: 9,
        shortlist: 4,
        quill: false,
        wide_set_id: Some("w".to_string()),
        rerank_set_id: None,
        requested_model: Some("m".to_string()),
        wide_returned: None,
        rerank_returned: None,
        needs_skill: Some(score(0.75)),
        phase: None,
        choice_confidence: None,
        none_probability: Some(score(f64::NAN)),
    }
}

fn admitted() -> Admitted {
    let (warnings, warnings_omitted) =
        roster_warnings(0, "", &texts(&["bad-yaml"]), &texts(&[]), 5);
    Admitted {
        event_id: event_id_of(&None),
        harness: "claude_code".to_string(),
        total: 12,
        partial: false,
        snapshot_id: "snap".to_string(),
        warnings,
        warnings_omitted,
    }
}

fn count(value: &Json, key: &str) -> u64 {
    value.get(key).unwrap().as_u64().unwrap()
}

#[test]
fn ranked_documents_list_skills_with_their_estimates() {
    let eligible = vec![EligibleSkill {
        binding_id: "b1".to_string(),
        invocation: "alpha".to_string(),
        binding_visibility: verified(PROVISIONAL),
        name: "Alpha".to_string(),
        location: "/a".to_string(),
        content_hash: "h".to_string(),
        rerank: score(0.5),
        fit: score(0.25),
    }];
    let returned = vec![ReturnedSkill {
        index: 0,
        rank_score: score(2.0),
    }];
    let wide = vec![WideEstimate {
        id: "b1".to_string(),
        probability: score(0.125),
    }];
    let doc = build_ranked_document(
        &eligible,
        &returned,
        &wide,
        PROVISIONAL,
        score(0.0),
        &admitted(),
        &evaluated(),
        7,
        123,
    );
    assert_eq!(doc.text_at("decision"), Some("ranked"));
    assert_eq!(doc.text_at("phase"), Some("other"));
    assert_eq!(doc.text_at("event_id"), Some("event-0"));
    assert_eq!(count(&doc, "schema_version"), 7);
    assert_eq!(count(&doc, "elapsed_ms"), 123);
    let skill = &doc.array_at("skills").unwrap()[0];
    assert_eq!(count(skill, "rank"), 1);
    assert_eq!(skill.text_at("visibility"), Some("unverified"));
    assert!(matches!(
        skill.get("wide_probability"),
        Some(Json::Number(JsonNumber::Float(s))) if s.bits == 0.125f64.to_bits()
    ));
    assert!(doc.get("none_probability").unwrap().is_null());
    assert!(doc.get("error").is_none());
    let roster = doc.get("roster").unwrap();
    assert_eq!(roster.text_at("retrieval"), Some("full"));
    assert_eq!(count(roster, "total"), 12);
    assert_eq!(
        roster.get("provenance").unwrap().text_at("wide_set_id"),
        Some("w")
    );
    assert_eq!(count(doc.get("usage").unwrap(), "http_attempts"), 3);
    assert_eq!(doc.text_at("persistence"), Some("disabled"));
    let Json::Object(members) = &doc else {
        panic!("a document is an object")
    };
    let keys: Vec<&str> = members.iter().map(|m| m.key.as_str()).collect();
    let mut sorted = keys.clone();
    sorted.sort_unstable();
    assert_eq!(keys, sorted);
}

#[test]
fn explicit_documents_claim_no_evaluation() {
    let skills = vec![
        ResolvedExplicitSkill {
            id: "r1".to_string(),
            invocation: "alpha".to_string(),
        },
        ResolvedExplicitSkill {
            id: "zz".to_string(),
            invocation: "gone".to_string(),
        },
    ];
    let doc = build_explicit_document(
        &skills,
        &roster(),
        PROVISIONAL,
        &admitted(),
        &evaluated(),
        1,
        0,
    );
    assert_eq!(doc.text_at("reason"), Some("user-required"));
    let list = doc.array_at("skills").unwrap();
    assert_eq!(list[0].text_at("name"), Some("Alpha"));
    assert_eq!(list[0].text_at("visibility"), Some("verified"));
    assert_eq!(list[1].text_at("name"), Some("gone"));
    assert_eq!(list[1].text_at("path"), Some(""));
    assert_eq!(count(&list[1], "rank"), 2);
    assert!(doc.get("needs_skill").unwrap().is_null());
    assert_eq!(count(doc.get("usage").unwrap(), "requests"), 0);
    let roster = doc.get("roster").unwrap();
    assert_eq!(roster.text_at("retrieval"), Some("not-evaluated"));
    assert_eq!(count(roster, "eligible"), 12);
}

#[test]
fn abstentions_and_failures_keep_their_usage() {
    let doc = build_abstain_document("low-need", &admitted(), &evaluated(), None, 1, 0);
    assert_eq!(doc.text_at("decision"), Some("abstain"));
    assert_eq!(doc.text_at("reason"), Some("low-need"));
    assert_eq!(doc.array_at("skills").unwrap().len(), 0);
    let dry = build_abstain_document(
        "low-need",
        &admitted(),
        &evaluated(),
        Some(json_text("x")),
        1,
        0,
    );
    assert_eq!(dry.text_at("dry_run"), Some("x"));
    let failure = map_transport_error(&TransportErrorKind::HttpStatus(429));
    let error = || json_object(vec![]);
    let doc = unavailable_document(&failure, Some(4), error(), &admitted(), &evaluated(), 1, 0);
    let doc = doc.unwrap();
    assert_eq!(doc.text_at("decision"), Some("unavailable"));
    assert_eq!(doc.text_at("reason"), Some("provider-cooldown"));
    assert!(doc.get("error").unwrap().is_object());
    assert_eq!(count(doc.get("usage").unwrap(), "unknown_usage_attempts"), 1);
    assert!(
        unavailable_document(&failure, Some(6), error(), &admitted(), &evaluated(), 1, 0).is_none()
    );
    assert!(unavailable_document(&failure, None, error(), &admitted(), &evaluated(), 1, 0).is_none());
}

#[test]
fn previews_hold_exact_requests_and_are_not_actionable() {
    let stage = preview_stage("wide", "{\"é\":1}".as_bytes(), 5).unwrap();
    assert_eq!(stage.text_at("request"), Some("{\"é\":1}"));
    assert_eq!(count(&stage, "request_bytes"), 8);
    assert_eq!(count(&stage, "candidates"), 5);
    let bad = preview_stage("wide", &[0xff], 5).err().unwrap();
    assert_eq!(bad.kind, "output-limit");
    let doc = preview_document(1, json_object(vec![]), Some(stage), None, None);
    assert_eq!(doc.bool_at("actionable"), Some(false));
    assert_eq!(doc.bool_at("stateless"), Some(true));
    assert!(doc.get("local_decision").unwrap().is_null());
}

#[test]
fn qualities_tell_what_was_cut_off() {
    let before = quality();
    assert_eq!(before.summary, "complete");
    let after = rendered_quality(&before, "partial", 1, 0, 2);
    assert_eq!(after.summary, "partial");
    assert!(!after.prompt_complete && after.history_windowed);
    assert!(after.attachments_omitted && after.task_anchor_known);
    let clean = rendered_quality(&before, "complete", 0, 0, 0);
    assert!(clean.prompt_complete && !clean.history_windowed);
    assert_eq!(
        input_quality("complete", "prompt-only", false, true, false).summary,
        "prompt-only"
    );
}

#[test]
fn the_last_of_equal_phases_dominates() {
    let phase = |name: &str, share: f64| PhaseShare {
        name: name.to_string(),
        share: score(share),
    };
    assert_eq!(dominant_phase(&vec![]), None);
    assert_eq!(
        dominant_phase(&vec![phase("a", 0.5), phase("b", 0.5), phase("c", 0.1)]).as_deref(),
        Some("b")
    );
    assert_eq!(
        dominant_phase(&vec![phase("a", -0.0), phase("b", 0.0), phase("c", -1.0)]).as_deref(),
        Some("b")
    );
    assert_eq!(
        dominant_phase(&vec![phase("a", f64::NAN), phase("b", f64::INFINITY)]).as_deref(),
        Some("a")
    );
}

#[test]
fn stages_are_accounted_by_the_allowance() {
    let cost = StageCost {
        sent_attempts: 3,
        input_tokens: 70,
        output_tokens: 8,
        unknown_usage_attempts: 2,
    };
    let after = account_stage(ExecutionMetrics::none(), 1, cost);
    assert_eq!(after.requests, 1);
    assert_eq!(after.http_attempts, 3);
    assert_eq!(after.unknown_usage_attempts, 2);
    assert_eq!(account_stage(after, 3, cost).requests, 1);
}

#[test]
fn unresolved_references_are_published_reduced() {
    assert_eq!(public_reason(UnresolvedReason::Missing), PublicReason::Missing);
    assert_eq!(public_reason(UnresolvedReason::Ambiguous), PublicReason::Ambiguous);
    for reason in [
        UnresolvedReason::Forbidden,
        UnresolvedReason::Shadowed,
        UnresolvedReason::ConflictingDirective,
        UnresolvedReason::Unverified,
        UnresolvedReason::InvalidName,
    ] {
        assert_eq!(public_reason(reason), PublicReason::Restricted);
    }
    assert_eq!(
        unresolved_message(&texts(&["x", "y"])),
        "Unresolved explicit skill: x"
    );
    assert_eq!(unresolved_message(&vec![]), "Unresolved explicit skill");
}

fn trace_inputs() -> TraceInputs {
    TraceInputs {
        roster: vec![RosterSkill {
            record_id: "r1".to_string(),
            bindings: vec![Binding {
                id: "b1".to_string(),
                invocation: "alpha".to_string(),
            }],
        }],
        policy: Some(PolicyView {
            excluded: vec![],
            already_loaded: vec![],
        }),
        retrieval: RetrievalView::NotEvaluated,
        wide: Some(WideOutcome {
            needs_skill: score(0.9),
            decision: WideDecision::Shortlist(vec![Shortlisted {
                id: "b1".to_string(),
                wide_probability: score(0.4),
            }]),
        }),
        gate_threshold: score(0.5),
        rerank: Some(RerankOutcome {
            none_probability: score(0.1),
            estimates: vec![Estimate {
                id: "b1".to_string(),
                fit: score(0.8),
                rerank: score(0.6),
            }],
        }),
        fits_threshold: score(0.3),
        eligible: Some(vec!["b1".to_string()]),
        returned: Some(vec![Scored {
            index: 0,
            rank_score: score(0.7),
        }]),
        publication_passed: true,
    }
}

const AGENT: ExactResolution = ExactResolution::Resolved(InvocationKind::Agent);

#[test]
fn a_trace_covers_every_stage_in_order() {
    let entries = compute_stage_trace("b1", &trace_inputs(), AGENT, AGENT);
    let stages: Vec<TraceStage> = entries.iter().map(|e| e.stage).collect();
    assert_eq!(stages, TraceStage::all());
    assert_eq!(entries[0].status, TraceStatus::Passed);
    assert_eq!(entries[7].status, TraceStatus::Passed);
    let missing = compute_stage_trace(
        "nope",
        &trace_inputs(),
        ExactResolution::Missing,
        ExactResolution::Missing,
    );
    assert_eq!(missing.len(), 8);
    assert_eq!(missing[0].status, TraceStatus::NotInSnapshot);
    assert!(missing[1..].iter().all(|e| e.status == TraceStatus::NotEvaluated));
}

#[test]
fn an_exclusion_ends_a_trace() {
    let mut inputs = trace_inputs();
    inputs.policy = Some(PolicyView {
        excluded: vec!["b1".to_string()],
        already_loaded: vec![],
    });
    let entries = compute_stage_trace("b1", &inputs, AGENT, AGENT);
    let excluded = entries.iter().position(|e| e.status == TraceStatus::Excluded);
    assert_eq!(excluded, Some(2));
    assert!(entries[3..].iter().all(|e| e.status == TraceStatus::NotEvaluated));
}

#[test]
fn traces_are_paged() {
    let inputs = trace_inputs();
    assert_eq!(trace_targets(false, &None, &inputs), None);
    assert_eq!(
        trace_targets(true, &None, &inputs),
        Some(vec!["b1".to_string()])
    );
    assert_eq!(
        trace_targets(false, &Some("x".to_string()), &inputs),
        Some(vec!["x".to_string()])
    );
    let trace = generate_trace(
        &vec!["b1".to_string()],
        &vec![Lookup {
            by_id: AGENT,
            by_name: AGENT,
        }],
        &inputs,
        "snap".to_string(),
        "query".to_string(),
        5,
    );
    assert_eq!(trace.total, 8);
    assert_eq!(trace.entries.len(), 5);
    assert_eq!(trace.next_offset, Some(5));
}

#[test]
fn failed_actions_are_reported_in_their_words() {
    let text = |s: &str| s.to_string();
    let told = |failed: ActionFailure| {
        let f = report_action(&failed);
        (f.exit, f.kind, f.message)
    };
    assert_eq!(
        told(ActionFailure::InvalidContext(text("x"))),
        (Exit::Code(7), text("malformed-input"), text("Invalid normalized context: x"))
    );
    assert_eq!(
        told(ActionFailure::Shortlist { limit: 12 }).2,
        "Shortlist IDs must be distinct wide candidates, at most 12"
    );
    assert_eq!(
        told(ActionFailure::WideBuild { kind: text("k"), details: text("d") }),
        (Exit::OfKind, text("k"), text("Wide build failed: d"))
    );
    assert_eq!(
        told(ActionFailure::Allowance),
        (Exit::OfKind, text("budget-state"), text("The attempt allowance could not be opened"))
    );
    assert_eq!(told(ActionFailure::LateResult(text("e"))).0, Exit::Code(6));
    assert_eq!(
        Stop::InvalidSizes.report("", "TopAboveShortlist").unwrap().message,
        "Invalid ranking sizes: TopAboveShortlist"
    );
    assert_eq!(
        report_start(StartRefusal::ShortlistWithoutPreview, &None).message,
        "Shortlist IDs are stage-2 evidence for --dry-run only"
    );
    assert_eq!(
        report_start(StartRefusal::ConflictingFlags, &Some(text("c"))).message,
        "c"
    );
    let refused = report_action(&ActionFailure::CredentialOrigin);
    assert_eq!(
        provider_failure(&RetryErrorKind::PolicyChanged, &None, Some(refused)).kind,
        "authentication"
    );
    assert_eq!(
        provider_failure(&RetryErrorKind::PolicyChanged, &None, None).kind,
        "superseded"
    );
}

#[test]
fn local_endings_say_why() {
    let targets = vec!["a".to_string(), "b".to_string()];
    assert!(matches!(
        closing(Ending::LowNeed, "k", "r", &targets),
        Closing::Abstains(reason) if reason == "low-need"
    ));
    assert!(matches!(
        closing(Ending::RerankAbstains, "k", "r", &targets),
        Closing::Abstains(reason) if reason == "r"
    ));
    assert!(matches!(
        closing(Ending::RerankUnavailable, "k", "r", &targets),
        Closing::Unavailable { kind, message, .. }
            if kind == "k" && message == "Candidate unavailable after rerank: r"
    ));
    assert!(matches!(
        closing(Ending::Unresolved, "k", "r", &targets),
        Closing::Unavailable { message, .. } if message == "Unresolved explicit skill: a"
    ));
    assert!(matches!(closing(Ending::Ranked, "k", "r", &targets), Closing::Elsewhere));
    let request = preview_request(
        "m",
        vec![],
        Trimming {
            dropped_messages: 1,
            description_cap: 2,
            omitted_description_scalars: 3,
            redactions: 4,
        },
    );
    assert_eq!(request.text_at("model"), Some("m"));
    assert_eq!(
        request.get("trimming").unwrap().get("redactions").unwrap().as_u64(),
        Some(4)
    );
}

#[test]
fn a_cached_shortlist_needs_its_cached_rerank() {
    let shortlist = CachedWide::Shortlist { age_ms: 7 };
    assert_eq!(
        look_up(shortlist, CachedRerank::Answer),
        LookupReading::Hit { with_rerank: true }
    );
    for missing in [
        CachedRerank::NotBuilt,
        CachedRerank::Absent,
        CachedRerank::NotFresh,
        CachedRerank::Undecodable,
    ] {
        assert_eq!(look_up(shortlist, missing), LookupReading::Miss);
        assert_eq!(
            look_up(CachedWide::LowNeed { age_ms: 7 }, missing),
            LookupReading::Hit { with_rerank: false }
        );
    }
    for unusable in [
        CachedWide::Absent,
        CachedWide::NotFresh,
        CachedWide::Undecodable,
        CachedWide::Unevaluable,
    ] {
        assert_eq!(lookup_pair(unusable, CachedRerank::Answer), None);
    }
}

#[test]
fn cached_answers_are_marked_and_free() {
    let pair = CachedPair {
        age_ms: 7,
        with_rerank: true,
    };
    let hit = account_lookup(ExecutionMetrics::none(), Some(pair));
    assert!(hit.cache_hit && hit.wide_hit && !hit.rerank_hit);
    assert_eq!((hit.cache_age_ms, hit.requests), (Some(7), 0));
    assert!(account_rerank(hit, true).rerank_hit);
    assert!(!account_rerank(hit, false).rerank_hit);
    assert_eq!(account_lookup(ExecutionMetrics::none(), None), ExecutionMetrics::none());
}

#[test]
fn requests_are_identified_by_their_exact_bytes() {
    let members = vec![SetMember {
        id: "s".to_string(),
        content_hash: "c".to_string(),
    }];
    let input = fingerprint_input(
        RequestStage::Wide,
        vec![1],
        &members,
        b"request",
        "https://a/v1/systemone",
        "m",
        "p1",
    );
    assert_eq!(&input.questions_digest, blake3::hash(b"request").as_bytes());
    assert_eq!((input.adapter_version, input.excerpt_strategy), ("v1", "default"));
    assert_eq!(candidate_digests(&members)[0].skill_id, "s");
    assert!(input.candidates[0].excerpt_hash.is_none());
    let context = transcript_context(vec![], "/w");
    let scope = request_namespace(&context, "w", None);
    assert_eq!((scope.key_generation, scope.workspace_id.as_deref()), (0, Some("w")));
    assert_eq!(scope.session_id, context.session_id);
    assert_eq!(request_namespace(&context, "w", Some(4)).key_generation, 4);
    let usage = Usage {
        input_tokens: 1,
        output_tokens: 2,
    };
    let entry = cache_entry(RequestStage::Rerank, [3; 32], vec![9], "m", usage, 50);
    assert_eq!((entry.received_at_unix_ms, entry.ttl_seconds), (50, 600));
    assert!(entry.attempt_id.is_none() && entry.model_revision.is_none());
}

#[test]
fn stages_leave_only_what_they_established() {
    let mut progress = evaluated();
    progress.commit_wide(5, 3, true, "set-w", "alias");
    assert_eq!((progress.eligible, progress.wide, progress.quill), (5, 3, true));
    assert_eq!(progress.wide_set_id.as_deref(), Some("set-w"));
    assert_eq!(progress.requested_model.as_deref(), Some("alias"));
    let share = |name: &str, value: f64| PhaseShare {
        name: name.to_string(),
        share: score(value),
    };
    progress.record_wide(
        "m-1",
        score(0.75),
        &vec![share("plan", 0.25), share("build", 0.5), share("ship", 0.5)],
    );
    assert_eq!(progress.phase.as_deref(), Some("ship"));
    assert_eq!(progress.needs_skill, Some(score(0.75)));
    assert!(progress.rerank_set_id.is_none());
    progress.commit_rerank(2, "set-r");
    assert_eq!((progress.shortlist, progress.rerank_set_id.as_deref()), (2, Some("set-r")));
    progress.record_rerank("m-2", score(0.5), score(0.125));
    assert_eq!(progress.rerank_returned.as_deref(), Some("m-2"));
    assert_eq!(progress.none_probability, Some(score(0.125)));
}
