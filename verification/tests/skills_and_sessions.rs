use skillranker::context::anchor::history::{select, HistoryError};
use skillranker::context::branch::{
    resolve_active_branch, BranchResolution, BranchResolutionTarget, UnresolvedBranchReason,
};
use skillranker::context::jsonl::{
    parse_line, parse_window, plan_read, CursorKind, FileIdentity, JsonlError, SkipKind,
    TranscriptLimits, WindowContext,
};
use skillranker::context::overlay::before::{
    apply_claude_prompt_overlay_before, OverlayTimes, TailReading,
};
use skillranker::context::overlay::{
    apply_claude_prompt_overlay, changed_during_read, transcript_access, ClaudeOverlayRequest,
    ClaudeUserPromptSubmit, OpenOutcome, OverlayError, TranscriptTail,
};
use skillranker::context::{
    CurrentRequest, EventKind, NormalizedContext, NormalizedEvent, Role,
};
use skillranker::json::{decode_json, json_score, DecodeError};
use skillranker::output::ContextQuality;
use skillranker::roster::frontmatter::{
    parse_skill_document, parse_skill_metadata, FrontmatterError, ParseWarning, UsageKind,
};
use skillranker::runtime::{DurationMillis, EntryClock, LimitError, RuntimeError};
use skillranker::score::Score;
use skillranker::text::{byte_len, decimal_text, is_blank};

#[test]
fn frontmatter_fields_are_read() {
    let skill = parse_skill_document(
        "---\nname: deploy\ndescription: \"Ship \\u00e9\"\naliases: [a, 'b c']\ndisable-model-invocation: true\ncontext: fork\n---\n# Title\n\nFirst paragraph\nmore.\n\n```\n# not a heading\n```\n",
    )
    .unwrap();
    assert_eq!(skill.name.as_deref(), Some("deploy"));
    assert_eq!(skill.description, "Ship é");
    assert_eq!(skill.aliases, vec!["a", "b c"]);
    assert!(!skill.agent_invocable && skill.user_invocable);
    assert!(skill.forked_context && skill.has_frontmatter);
    assert_eq!(skill.usage_kind, UsageKind::Unknown);
    assert!(skill.parse_warnings.is_empty());
}

#[test]
fn a_missing_frontmatter_falls_back_to_the_body() {
    let skill = parse_skill_document("# Title\n\nFirst paragraph\nmore.\n\nSecond.\n").unwrap();
    assert_eq!(skill.name.as_deref(), Some("Title"));
    assert_eq!(skill.description, "First paragraph more.");
    assert!(!skill.has_frontmatter);
    assert_eq!(skill.parse_warnings, vec![ParseWarning::MissingFrontmatter]);
    assert!(!skill.dynamic_content);
    assert!(parse_skill_document("run $ARGUMENTS").unwrap().dynamic_content);
    assert!(parse_skill_document("pay $5").unwrap().dynamic_content);
}

#[test]
fn marks_and_returns_make_no_difference() {
    let text = "---\nname: x\ntags:\n  - a\n  - b\n---\n# T\n\npara\n";
    let plain = parse_skill_document(text).unwrap();
    let marked = parse_skill_document(&format!("\u{feff}{text}")).unwrap();
    let returned = parse_skill_document(&text.replace('\n', "\r\n")).unwrap();
    assert_eq!(plain.name, marked.name);
    assert_eq!(plain.frontmatter_bytes, marked.frontmatter_bytes);
    assert_eq!(plain.name, returned.name);
    assert_eq!(plain.tags, returned.tags);
    assert_eq!(plain.body_excerpt, returned.body_excerpt);
    assert!(returned.frontmatter_bytes > plain.frontmatter_bytes);
}

#[test]
fn malformed_frontmatter_is_refused() {
    for (text, error) in [
        ("---\nname: x\n", FrontmatterError::UnclosedFrontmatter),
        ("---\nname: x\nname: y\n---\n", FrontmatterError::DuplicateKey),
        ("---\nname: &a x\n---\n", FrontmatterError::AliasForbidden),
        ("---\nname: \"x\n---\n", FrontmatterError::InvalidYamlSyntax),
    ] {
        assert_eq!(parse_skill_document(text).err(), Some(error), "{text}");
    }
    assert_eq!(parse_skill_metadata(&[0xff]).err(), Some(FrontmatterError::InvalidUtf8));
    assert_eq!(
        parse_skill_metadata(&vec![b'a'; 262_145]).err(),
        Some(FrontmatterError::FileTooLarge(262_145))
    );
    let large = format!("---\nname: {}\n---\n", "x".repeat(16_384));
    assert!(matches!(
        parse_skill_document(&large),
        Err(FrontmatterError::FrontmatterTooLarge(_))
    ));
}

#[test]
fn excerpts_are_bounded() {
    let body = "y".repeat(5_000);
    let skill = parse_skill_document(&format!("# T\n\n{body}\n")).unwrap();
    assert_eq!(skill.description_short.chars().count(), 160);
    assert_eq!(skill.description_full, skill.description);
    assert_eq!(skill.description_full.len(), 5_000);
    assert_eq!(skill.body_excerpt.chars().count(), 700);
    assert_eq!(skill.body_window.chars().count(), 1_724);
    assert!(skill.body_window.starts_with(&skill.body_excerpt));
}

fn event(id: &str, parent: Option<&str>) -> NormalizedEvent {
    NormalizedEvent {
        event_id: Some(id.to_string()),
        parent_id: parent.map(str::to_string),
        turn_id: None,
        agent_id: None,
        branch_id: None,
        role: Role::User,
        kind: EventKind::Message,
        timestamp_unix_ms: None,
        text: id.to_string(),
        tool: None,
    }
}

fn target(id: Option<&str>) -> BranchResolutionTarget {
    BranchResolutionTarget {
        target_event_id: id.map(str::to_string),
        target_branch_id: None,
        target_agent_id: None,
    }
}

fn ids(events: &[NormalizedEvent]) -> Vec<&str> {
    events.iter().map(|e| e.event_id.as_deref().unwrap()).collect()
}

#[test]
fn a_branch_is_followed_to_its_root() {
    let log = vec![event("a", None), event("b", Some("a")), event("c", Some("b"))];
    match resolve_active_branch(&log, &target(None)) {
        BranchResolution::Resolved(branch) => {
            assert_eq!(ids(&branch.events), vec!["a", "b", "c"]);
            assert_eq!(branch.leaf_event_id.as_deref(), Some("c"));
            assert!(!branch.ancestor_chain_truncated);
        }
        BranchResolution::Unresolved(_) => panic!("one chain resolves"),
    }
    match resolve_active_branch(&log, &target(Some("b"))) {
        BranchResolution::Resolved(branch) => assert_eq!(ids(&branch.events), vec!["a", "b"]),
        BranchResolution::Unresolved(_) => panic!("a named event resolves"),
    }
}

#[test]
fn unresolvable_branches_say_why() {
    let fork = vec![event("a", None), event("b", Some("a")), event("c", Some("a"))];
    assert!(matches!(
        resolve_active_branch(&fork, &target(None)),
        BranchResolution::Unresolved(UnresolvedBranchReason::AmbiguousSiblingForks {
            candidate_leaves
        }) if candidate_leaves == vec!["b", "c"]
    ));
    assert!(matches!(
        resolve_active_branch(&vec![], &target(None)),
        BranchResolution::Unresolved(UnresolvedBranchReason::EmptyHistory)
    ));
    assert!(matches!(
        resolve_active_branch(&fork, &target(Some("zz"))),
        BranchResolution::Unresolved(UnresolvedBranchReason::TargetEventNotFound { .. })
    ));
    let cycle = vec![event("a", Some("b")), event("b", Some("a"))];
    assert!(matches!(
        resolve_active_branch(&cycle, &target(Some("a"))),
        BranchResolution::Unresolved(UnresolvedBranchReason::CycleDetected { .. })
    ));
    let mut other = event("a", None);
    other.text = "different".to_string();
    assert!(matches!(
        resolve_active_branch(&vec![event("a", None), other], &target(None)),
        BranchResolution::Unresolved(UnresolvedBranchReason::ConflictingEventDefinitions { .. })
    ));
}

fn context(events: Vec<NormalizedEvent>, current: &str) -> NormalizedContext {
    NormalizedContext {
        schema_version: 1,
        harness: "h".to_string(),
        producer_id: None,
        workspace_root: None,
        session_id: None,
        agent_id: None,
        branch_id: None,
        context_epoch: None,
        current_request: CurrentRequest {
            event_id: Some(current.to_string()),
            text: String::new(),
            attachments_omitted: false,
            essential_attachment_missing: false,
        },
        events,
        explicit_skill_references: vec![],
        supplied_loads: vec![],
    }
}

#[test]
fn history_excludes_the_request_by_identity() {
    let mut same_text = event("b", None);
    same_text.text = "c".to_string();
    let log = vec![event("a", None), same_text, event("c", None), event("d", None)];
    let (events, incomplete) = select(&context(log, "c")).unwrap();
    assert_eq!(ids(&events), vec!["a", "b"]);
    assert!(!incomplete);
    let linked = vec![event("a", None), event("b", Some("a")), event("x", Some("a"))];
    let (events, _) = select(&context(linked, "b")).unwrap();
    assert_eq!(ids(&events), vec!["a"]);
    let fork = vec![event("a", None), event("b", Some("a")), event("x", Some("a"))];
    assert_eq!(select(&context(fork, "new")).err(), Some(HistoryError::Ambiguous));
}

const LIMITS: TranscriptLimits = TranscriptLimits {
    tail_bytes: 1_000,
    tail_records: 3,
    observation_bytes: 500,
    record_bytes: 200,
};

fn window(kind: CursorKind) -> WindowContext {
    WindowContext {
        identity: FileIdentity { dev: 1, ino: 2 },
        kind,
        generation: 1,
        last_event_id: None,
        truncated_history: false,
        unread_backlog: false,
        rebuilt: false,
    }
}

fn record(id: &str) -> String {
    format!("{{\"type\":\"user\",\"uuid\":\"{id}\",\"message\":{{\"role\":\"user\",\"content\":\"hi\"}}}}\n")
}

#[test]
fn reading_in_two_steps_is_reading_at_once() {
    let file = format!("{}{}", record("a"), record("b"));
    let cut = record("a").len() + 5;
    let whole = parse_window(file.as_bytes(), 0, false, window(CursorKind::Observation), &LIMITS);
    let first = parse_window(
        &file.as_bytes()[..cut],
        0,
        false,
        window(CursorKind::Observation),
        &LIMITS,
    );
    assert!(first.incomplete_tail);
    let at = first.cursor.byte_offset;
    assert_eq!(at as usize, record("a").len());
    let second = parse_window(
        &file.as_bytes()[at as usize..],
        at,
        false,
        window(CursorKind::Observation),
        &LIMITS,
    );
    let mut both = ids(&first.events);
    both.extend(ids(&second.events));
    assert_eq!(ids(&whole.events), both);
    assert_eq!(whole.cursor.byte_offset, second.cursor.byte_offset);
    assert_eq!(whole.cursor.last_event_id.as_deref(), Some("b"));
}

#[test]
fn windows_skip_and_cap_records() {
    let text = format!("tail\n{}nope\n{}{}{}", record("a"), record("b"), record("c"), record("d"));
    let snapshot = parse_window(text.as_bytes(), 7, true, window(CursorKind::Ranking), &LIMITS);
    assert_eq!(ids(&snapshot.events), vec!["a", "b", "c"]);
    assert_eq!(snapshot.skipped.len(), 1);
    assert_eq!(snapshot.skipped[0].kind, SkipKind::Corrupt);
    assert_eq!(snapshot.skipped[0].byte_offset, 7 + 5 + record("a").len() as u64);
    assert!(snapshot.unread_backlog);
    assert_eq!(parse_line(b"", 10).err(), Some(SkipKind::Corrupt));
    assert_eq!(parse_line(&[b'x'; 11], 10).err(), Some(SkipKind::Oversize));
    assert_eq!(
        parse_line(b"{\"a\":1,\"a\":1}", 50).err(),
        Some(SkipKind::DuplicateKey)
    );
}

#[test]
fn a_replaced_file_is_read_anew() {
    let identity = FileIdentity { dev: 1, ino: 2 };
    let first = plan_read(&None, identity, CursorKind::Ranking, 1_500, &LIMITS);
    assert_eq!((first.start, first.to_read), (500, 1_000));
    assert!(first.align_to_record && first.context.truncated_history);
    let file = record("a");
    let cursor = parse_window(file.as_bytes(), 0, false, window(CursorKind::Ranking), &LIMITS).cursor;
    let len = file.len() as u64;
    let next = plan_read(&Some(cursor.clone()), identity, CursorKind::Ranking, len + 5, &LIMITS);
    assert_eq!((next.start, next.to_read), (len, 5));
    assert!(!next.context.rebuilt);
    let other = FileIdentity { dev: 1, ino: 3 };
    let anew = plan_read(&Some(cursor.clone()), other, CursorKind::Ranking, len + 5, &LIMITS);
    assert_eq!(anew.start, 0);
    assert!(anew.context.rebuilt);
    assert_eq!(anew.context.generation, 2);
    let shrunk = plan_read(&Some(cursor), identity, CursorKind::Ranking, len - 1, &LIMITS);
    assert!(shrunk.context.rebuilt);
}

fn request(prompt: &str, prompt_id: Option<&str>) -> ClaudeOverlayRequest {
    ClaudeOverlayRequest {
        hook_input: ClaudeUserPromptSubmit {
            prompt: prompt.to_string(),
            prompt_id: prompt_id.map(str::to_string),
            session_id: Some("s".to_string()),
            transcript_path: Some("/t.jsonl".to_string()),
        },
        transcript_path: None,
        authorized_root: None,
    }
}

fn tail(text: &str) -> Option<TranscriptTail> {
    Some(TranscriptTail {
        bytes: text.as_bytes().to_vec(),
        start: 0,
    })
}

#[test]
fn a_first_prompt_is_prompt_only() {
    let result = apply_claude_prompt_overlay(&request("do it", None), &None, 10, 500).unwrap();
    assert_eq!(result.context_quality, ContextQuality::PromptOnly);
    assert_eq!(result.events.len(), 1);
    assert_eq!(result.events[0].text, "do it");
    assert!(result.prompt_overlaid);
    assert!(matches!(
        apply_claude_prompt_overlay(&request("  ", None), &None, 10, 500),
        Err(OverlayError::MissingPrompt)
    ));
}

#[test]
fn a_prompt_is_overlaid_once_by_identity() {
    let fresh = apply_claude_prompt_overlay(&request("hi", Some("p")), &tail(&record("a")), 10, 500);
    let fresh = fresh.unwrap();
    assert_eq!(ids(&fresh.events), vec!["a", "p"]);
    assert!(!fresh.deduplicated_by_event_id);
    let written = format!("{}{}", record("a"), record("p"));
    let again = apply_claude_prompt_overlay(&request("hi", Some("p")), &tail(&written), 10, 500);
    let again = again.unwrap();
    assert_eq!(again.events.iter().filter(|e| e.event_id.as_deref() == Some("p")).count(), 1);
    assert!(again.deduplicated_by_event_id);
}

#[test]
fn malformed_or_foreign_transcripts_are_refused() {
    assert!(matches!(
        apply_claude_prompt_overlay(&request("hi", None), &tail("nope\n"), 10, 500),
        Err(OverlayError::MalformedTranscript(_))
    ));
    let foreign = "{\"type\":\"user\",\"uuid\":\"a\",\"sessionId\":\"other\",\"message\":{\"role\":\"user\",\"content\":\"x\"}}\n";
    assert!(matches!(
        apply_claude_prompt_overlay(&request("hi", None), &tail(foreign), 10, 500),
        Err(OverlayError::SessionMismatch { transcript_session, .. }) if transcript_session == "other"
    ));
    let twice = format!("{}{}", record("a"), record("a"));
    assert!(matches!(
        apply_claude_prompt_overlay(&request("hi", None), &tail(&twice), 10, 500),
        Err(OverlayError::MalformedTranscript(_))
    ));
    assert!(matches!(
        transcript_access("/t", OpenOutcome::Directory),
        Err(OverlayError::TranscriptIsDirectory(_))
    ));
    assert!(matches!(transcript_access("/t", OpenOutcome::NotFound), Ok(false)));
    assert!(matches!(transcript_access("/t", OpenOutcome::Opened), Ok(true)));
    assert!(changed_during_read(2, None, 1, None));
    assert!(!changed_during_read(1, None, 2, Some(5)));
    assert!(changed_during_read(1, None, 1, Some(5)));
    assert!(!changed_during_read(1, Some(5), 1, Some(5)));
}

#[test]
fn documents_are_decoded_strictly() {
    let value = decode_json(b"{\"a\":[1,-2,0.5,\"x\\u00e9\",null,true]}", 100).unwrap();
    let items = value.array_at("a").unwrap();
    assert_eq!(items[0].as_u64(), Some(1));
    assert_eq!(items[1].as_i64(), Some(-2));
    assert_eq!(items[1].as_u64(), None);
    assert_eq!(items[3].as_str(), Some("xé"));
    assert!(items[4].is_null());
    assert_eq!(items[5].as_bool(), Some(true));
    assert!(matches!(decode_json(b"{", 100), Err(DecodeError::Malformed)));
    assert!(matches!(decode_json(b"{\"a\":1,\"a\":1}", 100), Err(DecodeError::DuplicateKey)));
    assert!(matches!(decode_json(b"{\"a:b\":\"c:d\"}", 100), Ok(_)));
    assert!(decode_json(b"[1,2,3]", 3).is_err());
    assert!(json_score(Some(Score { bits: f64::INFINITY.to_bits() })).is_null());
}

#[test]
fn scores_compare_as_numbers() {
    let score = |x: f64| Score { bits: x.to_bits() };
    for (a, b) in [(0.5, 0.25), (-1.0, 1.0), (0.0, -0.0), (f64::NAN, 1.0), (1e300, f64::INFINITY)] {
        assert_eq!(score(a).less_than(score(b)), a < b);
        assert_eq!(score(a).at_least(score(b)), a >= b);
        assert_eq!(score(a).same_value(score(b)), a == b);
        assert_eq!(
            score(a).totally_at_least(score(b)),
            a.total_cmp(&b) != std::cmp::Ordering::Less
        );
        assert_eq!(score(a).is_finite(), a.is_finite());
    }
    assert_eq!(decimal_text(65_535), "65535");
    assert_eq!(byte_len("é"), 2);
    assert!(is_blank(" \t\u{3000}\n"));
}

#[test]
fn overlays_keep_to_the_deadline() {
    let clock = EntryClock::capture_with(DurationMillis(100), DurationMillis(20)).unwrap();
    let overlay = |opened: OpenOutcome, reading: TailReading, ms: [u128; 5]| {
        let times = OverlayTimes {
            entered_ms: ms[0],
            opened_ms: ms[1],
            read_ms: ms[2],
            record_ms: vec![ms[3]; 1],
            finished_ms: ms[4],
        };
        apply_claude_prompt_overlay_before(
            &request("hi", Some("p")),
            opened,
            &reading,
            &times,
            &clock,
            10,
            500,
        )
    };
    let one = || TailReading::Read(tail(&record("a")).unwrap());
    let given = overlay(OpenOutcome::Opened, one(), [0, 1, 2, 3, 79]).unwrap();
    assert_eq!(ids(&given.events), vec!["a", "p"]);
    for late in 0..5 {
        let mut ms = [0; 5];
        ms[late] = 80;
        assert!(matches!(
            overlay(OpenOutcome::Opened, one(), ms),
            Err(OverlayError::Deadline)
        ));
    }
    let two = TailReading::Read(tail(&format!("{}{}", record("a"), record("b"))).unwrap());
    assert!(matches!(
        overlay(OpenOutcome::Opened, two, [0; 5]),
        Err(OverlayError::Deadline)
    ));
    let first = overlay(OpenOutcome::NotFound, TailReading::NotInspected, [0, 0, 90, 90, 90]);
    assert_eq!(first.unwrap().context_quality, ContextQuality::PromptOnly);
    assert!(matches!(
        overlay(OpenOutcome::EscapesRoot, one(), [0, 90, 0, 0, 0]),
        Err(OverlayError::CrossSessionReadForbidden)
    ));
    assert!(matches!(
        overlay(OpenOutcome::Opened, TailReading::Changed, [0; 5]),
        Err(OverlayError::MalformedTranscript(why)) if why == "transcript changed during read"
    ));
}

#[test]
fn stopped_reads_say_why() {
    let told = |error| JsonlError::from_runtime(error).as_str();
    assert_eq!(told(RuntimeError::Cancelled), "transcript read cancelled");
    assert_eq!(told(RuntimeError::LateResultSuppressed), "transcript read cancelled");
    assert_eq!(
        told(RuntimeError::Deadline(LimitError::WorkWindowClosed)),
        "transcript read reached the cleanup reserve"
    );
    assert_eq!(told(RuntimeError::RuntimeUnavailable), "transcript could not be read");
}
