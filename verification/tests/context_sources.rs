use skillranker::context::cass::{
    allowed, check_budget, decode_export, decode_listing, export_records, list_sessions, qualify,
    text_only, validate_capabilities, validate_path, ArchiveSelection, CassAdapter, CassConfig,
    CassError, CassProducer, ChildOutcome, RemainingBudget, SourceMode, SubprocessError,
};
use skillranker::context::discovery::{
    attribution, checked_attribution, discover_claude_sessions, modified_unix_ms,
    project_directories, transcript_session, Attribution, DiscoveryEvent, DiscoveryPass,
    FileObservation, HEAD_BYTES, MAX_TRANSCRIPTS,
};
use skillranker::context::jsonl::FileIdentity;
use skillranker::json::{decode_json, Json};

const WORKSPACE: &str = "/data/projects/my_app.v2";

#[test]
fn directory_names_cover_both_claude_encodings() {
    let names = project_directories(WORKSPACE);
    assert!(names.contains(&"-data-projects-my_app.v2".to_owned()));
    assert!(names.contains(&"-data-projects-my-app-v2".to_owned()));
}

#[test]
fn directory_names_are_sorted_and_distinct() {
    assert_eq!(
        project_directories(WORKSPACE),
        vec![
            "-data-projects-my-app-v2",
            "-data-projects-my_app-v2",
            "-data-projects-my_app.v2",
        ]
    );
    assert_eq!(project_directories("/a/b"), vec!["-a-b"]);
}

fn line(text: &str) -> String {
    text.to_string() + "\n"
}

#[test]
fn attribution_needs_this_workspace_first_and_the_file_session() {
    let own = line("{\"type\":\"summary\"}")
        + &line("{\"cwd\":\"/data/projects/my_app.v2\",\"sessionId\":\"s-1\"}");
    assert_eq!(
        attribution(own.as_bytes(), "s-1", WORKSPACE),
        Some("s-1".to_string())
    );
    let other = line("{\"cwd\":\"/data/projects/other\",\"sessionId\":\"s-1\"}");
    assert_eq!(attribution(other.as_bytes(), "s-1", WORKSPACE), None);
    assert_eq!(attribution(own.as_bytes(), "s-2", WORKSPACE), None);
    let partial = own.trim_end_matches('\n');
    assert_eq!(attribution(partial.as_bytes(), "s-1", WORKSPACE), None);
    let moved = own + &line("{\"cwd\":\"/tmp\",\"sessionId\":\"s-1\"}");
    assert!(attribution(moved.as_bytes(), "s-1", WORKSPACE).is_some());
}

#[test]
fn another_workspace_is_told_from_unresolved_evidence() {
    let other = line("{\"cwd\":\"/elsewhere\"}") + "not json\n";
    assert_eq!(
        checked_attribution(other.as_bytes(), "s-1", WORKSPACE),
        Attribution::Other
    );
    for unresolved in [
        line("not json"),
        line("[]"),
        line("{\"cwd\":5}"),
        line("{\"cwd\":\"/data/projects/my_app.v2\"}"),
        line("{\"sessionId\":\"s-1\"}"),
        line("{\"a\":1,\"a\":2}"),
        String::new(),
    ] {
        assert_eq!(
            checked_attribution(unresolved.as_bytes(), "s-1", WORKSPACE),
            Attribution::Unresolved,
            "{unresolved}"
        );
    }
    let huge = vec![b'\n'; HEAD_BYTES + 1];
    assert_eq!(
        checked_attribution(&huge, "s-1", WORKSPACE),
        Attribution::Unresolved
    );
}

#[test]
fn modification_times_saturate() {
    assert_eq!(modified_unix_ms(2, 1_500_000), 2_001);
    assert_eq!(modified_unix_ms(-1, 0), -1_000);
    assert_eq!(modified_unix_ms(0, -1_999_999), -1);
    assert_eq!(modified_unix_ms(i64::MAX, 5_000_000), i64::MAX);
    assert_eq!(modified_unix_ms(i64::MIN, 0), i64::MIN);
}

fn transcript(session: &str, ino: u64) -> FileObservation {
    let head = format!("{{\"cwd\":\"{WORKSPACE}\",\"sessionId\":\"{session}\"}}\n");
    FileObservation::Read {
        head: head.into_bytes(),
        seconds: 10,
        nanoseconds: 0,
        identity: FileIdentity { dev: 1, ino },
    }
}

fn entry(name: &str, file: FileObservation) -> DiscoveryEvent {
    DiscoveryEvent::Entry {
        directory: "/projects/x".to_string(),
        name: name.as_bytes().to_vec(),
        other_kind: false,
        file,
    }
}

#[test]
fn one_file_reached_twice_is_one_session() {
    let events = vec![
        DiscoveryEvent::MissingDirectory,
        entry("s-1.jsonl", transcript("s-1", 4)),
        entry("notes.txt", FileObservation::Failed),
        entry("s-1.jsonl", transcript("s-1", 4)),
        entry("s-2.jsonl", transcript("s-2", 5)),
    ];
    let inventory = discover_claude_sessions(&events, WORKSPACE);
    assert!(inventory.complete);
    let found: Vec<&str> = inventory.candidates.iter().map(|c| c.session.as_str()).collect();
    assert_eq!(found, vec!["s-1", "s-2"]);
    assert_eq!(inventory.candidates[0].last_activity_unix_ms, 10_000);
    assert_eq!(inventory.candidates[0].directory, "/projects/x");
}

#[test]
fn unreadable_evidence_leaves_the_inventory_incomplete() {
    for event in [
        DiscoveryEvent::UnreadableDirectory,
        DiscoveryEvent::UnreadableEntry,
        entry("s-1.jsonl", FileObservation::Failed),
        entry("s-1.jsonl", FileObservation::NotRegular),
        entry("s-3.jsonl", transcript("s-1", 4)),
    ] {
        let inventory = discover_claude_sessions(&vec![event], WORKSPACE);
        assert!(!inventory.complete);
        assert!(inventory.candidates.is_empty());
    }
    assert!(discover_claude_sessions(&vec![], WORKSPACE).complete);
}

#[test]
fn discovery_stops_at_its_bound() {
    let mut pass = DiscoveryPass::new();
    for i in 0..MAX_TRANSCRIPTS {
        assert!(pass.wants_file(b"s-1.jsonl", false));
        pass.step(&entry("s-1.jsonl", transcript("s-1", i as u64)), WORKSPACE);
    }
    assert!(!pass.wants_file(b"s-1.jsonl", false));
    assert!(!pass.wants_file(b"x", false));
    pass.step(&entry("s-1.jsonl", transcript("s-1", 5_000)), WORKSPACE);
    let inventory = pass.finish();
    assert_eq!(inventory.candidates.len(), MAX_TRANSCRIPTS);
    assert!(!inventory.complete);
}

#[test]
fn a_selected_transcript_has_a_session_only_by_its_own_records() {
    assert_eq!(
        transcript_session(b"s-1.jsonl", &transcript("s-1", 1), WORKSPACE),
        Some("s-1".to_string())
    );
    assert_eq!(transcript_session(b"s-1.jsonl", &transcript("s-1", 1), "/other"), None);
    assert_eq!(transcript_session(b"s-1.json", &transcript("s-1", 1), WORKSPACE), None);
    assert_eq!(
        transcript_session(b"\xff.jsonl", &transcript("s-1", 1), WORKSPACE),
        None
    );
}

fn value(text: &str) -> Json {
    decode_json(text.as_bytes(), 1 << 20).unwrap()
}

const CAPABILITIES: &str = "{\"crate_version\":\"0.8.0\",\"api_version\":1,\"contract_version\":\"1\",\"build_commit\":\"abc\",\"features\":[\"json_output\",\"export_command\",\"self_describing_capabilities\"],\"commands\":[{\"name\":\"export\",\"arguments\":[{\"name\":\"path\"},{\"name\":\"source\"},{\"name\":\"format\"},{\"name\":\"include-tools\"}]},{\"name\":\"sessions\",\"arguments\":[{\"name\":\"workspace\"},{\"name\":\"limit\"},{\"name\":\"json\"}]}]}";

fn producer(source: Option<&str>) -> CassProducer {
    let mut p = validate_capabilities(CAPABILITIES.as_bytes(), "digest").unwrap();
    p.source_id = source.map(str::to_string);
    p
}

#[test]
fn only_a_qualified_producer_is_accepted() {
    let p = qualify(&value(CAPABILITIES), "digest").unwrap();
    assert_eq!(p.version, "0.8.0");
    assert_eq!(p.build_commit.as_deref(), Some("abc"));
    assert_eq!(p.binary_digest.as_deref(), Some("digest"));
    assert!(p.source_id.is_none() && !p.remote_source);
    for (from, to) in [
        ("0.8.0", "0.9.0"),
        ("\"api_version\":1", "\"api_version\":2"),
        ("\"contract_version\":\"1\"", "\"contract_version\":1"),
        ("\"json_output\",", ""),
        ("{\"name\":\"format\"},", ""),
        ("{\"name\":\"limit\"},", ""),
        (
            "\"commands\":[",
            "\"commands\":[{\"name\":\"export\",\"arguments\":[]},",
        ),
    ] {
        let changed = CAPABILITIES.replace(from, to);
        assert_eq!(
            qualify(&value(&changed), "d").err(),
            Some(CassError::UnsupportedProducer),
            "{from}"
        );
    }
    assert_eq!(
        validate_capabilities(b"nope", "d").err(),
        Some(CassError::InvalidResponse)
    );
    assert_eq!(
        validate_capabilities(&vec![b' '; 262_145], "d").err(),
        Some(CassError::LimitExceeded)
    );
}

#[test]
fn exports_keep_text_alone_unless_tools_are_asked_for() {
    let bytes = br#"[{"type":"user","uuid":"u1","extra":1,"message":{"role":"user","content":"hi"}},
        {"role":"tool","content":"secret"},
        {"role":"assistant","timestamp":null,"content":[{"type":"text","text":"a","x":1},{"type":"tool_use","name":"t"}]}]"#;
    let export = decode_export(bytes, producer(Some("local")), true, false, 4096).unwrap();
    assert!(!export.tool_content_included);
    assert!(export.skill_load_evidence_unknown);
    assert_eq!(export.provenance().source.as_deref(), Some("local"));
    assert_eq!(export.provenance().version, "0.8.0");
    assert_eq!(export.records.len(), 2);
    let first = export.records[0].native_value();
    assert_eq!(first.text_at("uuid"), Some("u1"));
    assert!(first.get("extra").is_none());
    assert_eq!(first.get("message").unwrap().text_at("content"), Some("hi"));
    let second = export.records[1].native_value();
    assert!(second.get("timestamp").unwrap().is_null());
    let blocks = second.array_at("content").unwrap();
    assert_eq!(blocks.len(), 1);
    assert_eq!(blocks[0].text_at("text"), Some("a"));
    assert!(blocks[0].get("x").is_none());
    let whole = decode_export(bytes, producer(Some("local")), true, true, 4096).unwrap();
    assert_eq!(whole.records.len(), 3);
    assert!(whole.records[0].native_value().get("extra").is_some());
}

#[test]
fn unsupported_exports_are_refused() {
    assert_eq!(
        decode_export(b"[]", producer(Some("local")), false, true, 16).err(),
        Some(CassError::UnsupportedProducer)
    );
    assert_eq!(
        decode_export(b"[]", producer(None), true, true, 16).err(),
        Some(CassError::RemoteSource)
    );
    assert_eq!(
        decode_export(b"[]", producer(Some("local")), true, true, 1).err(),
        Some(CassError::LimitExceeded)
    );
    assert_eq!(export_records(&value("{}"), true).err(), Some(CassError::InvalidResponse));
    assert_eq!(export_records(&value("[1]"), true).err(), Some(CassError::InvalidResponse));
    for bad in [
        "{\"role\":\"oracle\",\"content\":\"x\"}",
        "{\"content\":\"x\"}",
        "{\"role\":\"user\",\"content\":5}",
        "{\"role\":\"user\",\"content\":[{\"type\":\"text\"}]}",
        "{\"role\":\"user\",\"content\":\"x\",\"uuid\":7}",
    ] {
        assert_eq!(
            text_only(&value(bad)).err(),
            Some(CassError::InvalidResponse),
            "{bad}"
        );
    }
    let empty = "{\"role\":\"user\",\"content\":[{\"type\":\"image\"}]}";
    assert!(text_only(&value(empty)).unwrap().is_none());
}

const LISTING: &str = "{\"sessions\":[{\"source_id\":\"local\",\"workspace\":\"/w/./a/\",\"path\":\"/p/1\",\"agent\":\"x\"},{\"source_id\":\"far\"},{\"source_id\":\"local\",\"origin_host\":\"h\"},{\"source_id\":\"local\",\"origin_host\":null,\"workspace\":\"/w/b\"}]}";

#[test]
fn listings_account_for_every_row() {
    let listing = decode_listing(LISTING.as_bytes(), "/w/a", 10, 4096).unwrap();
    assert_eq!(listing.sessions.len(), 1);
    assert_eq!(listing.sessions[0].selection.path(), "/p/1");
    assert_eq!(listing.sessions[0].selection.source(), "local");
    assert_eq!(listing.sessions[0].workspace, "/w/./a/");
    assert_eq!(listing.sessions[0].harness, "x");
    assert_eq!(listing.rejected_remote, 2);
    assert_eq!(listing.rejected_workspace, 1);
    assert!(!listing.complete);
    let one = "{\"sessions\":[{\"source_id\":\"local\",\"workspace\":\"/w/a\",\"path\":\"/p\",\"agent\":\"x\"}]}";
    assert!(list_sessions(&value(one), "/w/a", 2).unwrap().complete);
    assert!(!list_sessions(&value(one), "/w/a", 1).unwrap().complete);
    assert_eq!(
        list_sessions(&value(LISTING), "/w/a", 3).err(),
        Some(CassError::LimitExceeded)
    );
    assert_eq!(
        decode_listing(LISTING.as_bytes(), "w", 10, 4096).err(),
        Some(CassError::InvalidRequest)
    );
    assert_eq!(
        decode_listing(LISTING.as_bytes(), "/w/a", 0, 4096).err(),
        Some(CassError::InvalidRequest)
    );
    let bad_path = one.replace("\"/p\"", "\"p\"");
    assert_eq!(
        list_sessions(&value(&bad_path), "/w/a", 5).err(),
        Some(CassError::InvalidRequest)
    );
    assert_eq!(
        list_sessions(&value("{\"sessions\":[{}]}"), "/w/a", 5).err(),
        Some(CassError::InvalidResponse)
    );
}

#[test]
fn selections_are_local_and_absolute() {
    assert!(ArchiveSelection::local("/a", "local").is_ok());
    assert_eq!(ArchiveSelection::local("/a", "far").err(), Some(CassError::RemoteSource));
    assert_eq!(ArchiveSelection::local("a", "local").err(), Some(CassError::InvalidRequest));
    assert_eq!(validate_path("/a\0b").err(), Some(CassError::InvalidRequest));
    assert_eq!(
        validate_path(&format!("/{}", "a".repeat(16_384))).err(),
        Some(CassError::InvalidRequest)
    );
}

const OPEN: SourceMode = SourceMode {
    cass_allowed: true,
    offline: false,
    allow_network: false,
};

const FREE: RemainingBudget = RemainingBudget {
    cancelled: false,
    deadline_passed: false,
};

fn config() -> CassConfig {
    CassConfig {
        directory: "/d".to_string(),
        database: "/db".to_string(),
        binary_digest: "digest".to_string(),
    }
}

fn finished(text: &str) -> ChildOutcome {
    ChildOutcome::Finished {
        success: true,
        stdout: text.as_bytes().to_vec(),
    }
}

#[test]
fn an_adapter_is_probed_before_it_exports() {
    assert_eq!(
        CassAdapter::probe_request(&config(), OPEN).unwrap(),
        vec!["--db", "/db", "capabilities", "--json"]
    );
    let adapter = CassAdapter::probe(config(), OPEN, finished(CAPABILITIES), FREE).unwrap();
    assert_eq!(adapter.producer().version, "0.8.0");
    let selected = ArchiveSelection::local("/s", "local").unwrap();
    assert_eq!(
        adapter.export_request(&selected, OPEN).unwrap(),
        vec!["--db", "/db", "export", "/s", "--source", "local", "--format", "json", "--include-tools"]
    );
    assert_eq!(
        adapter.sessions_request("/w", 12, OPEN).unwrap(),
        vec!["--db", "/db", "sessions", "--workspace", "/w", "--limit", "12", "--json"]
    );
    let export = adapter
        .export(&selected, true, true, finished("[]"), FREE, 64)
        .unwrap();
    assert_eq!(export.producer.source_id.as_deref(), Some("local"));
    let listing = adapter
        .sessions("/w", 5, finished("{\"sessions\":[]}"), FREE, 64)
        .unwrap();
    assert!(listing.complete);
}

#[test]
fn failed_children_and_late_results_are_reported() {
    let lost = ChildOutcome::Lost(SubprocessError::OutputLimit);
    assert_eq!(
        CassAdapter::probe(config(), OPEN, lost, FREE).err(),
        Some(CassError::LimitExceeded)
    );
    let failed = ChildOutcome::Lost(SubprocessError::Failed);
    assert_eq!(
        CassAdapter::probe(config(), OPEN, failed, FREE).err(),
        Some(CassError::Process(SubprocessError::Failed))
    );
    let bad = ChildOutcome::Finished {
        success: false,
        stdout: vec![],
    };
    assert_eq!(
        CassAdapter::probe(config(), OPEN, bad, FREE).err(),
        Some(CassError::ChildFailed)
    );
    let late = RemainingBudget {
        cancelled: false,
        deadline_passed: true,
    };
    assert_eq!(
        CassAdapter::probe(config(), OPEN, finished(CAPABILITIES), late).err(),
        Some(CassError::Process(SubprocessError::DeadlineExceeded))
    );
    let cancelled = RemainingBudget {
        cancelled: true,
        deadline_passed: true,
    };
    assert_eq!(
        check_budget(cancelled),
        Err(CassError::Process(SubprocessError::Cancelled))
    );
    assert_eq!(allowed(true, true, true), Err(CassError::UnsupportedSourceMode));
    assert_eq!(allowed(false, false, false), Err(CassError::UnsupportedSourceMode));
    assert_eq!(allowed(true, true, false), Ok(()));
    assert_eq!(CassError::ChildFailed.as_str(), "cass command failed");
    assert_eq!(
        CassError::from_subprocess(SubprocessError::OutputLimit),
        CassError::LimitExceeded
    );
}
