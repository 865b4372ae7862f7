use skillranker::cli::command::{
    cli_value, environment_settings, is_stdin_supplied, json_output, page_failure, read_config,
    route, snapshot_failure, user_config_root, wants_json, with_command, ConfigFiles, ConfigRead,
    FlagReading, Layer, PageError, Route, SnapshotError, Subcommand, ValueKind,
};
use skillranker::cli::outcome::{
    export_failure, export_receipt, report_error, roster_failure, unavailable_failure, ErrorReport,
    ExportError, KnownKind, RosterFault,
};
use skillranker::cli::report::{
    check_row, config_report, config_table, readiness_table, roster_check, EffectiveSettings, Rate,
    Reported, RosterCheck, SettingKey, SettingSource,
};
use skillranker::cli::request::{
    doctor_command, parse_count, rank_command, roster_request, DoctorFlags, Named, RankFlags,
    RosterRequest, SettingFlag, Surroundings,
};
use skillranker::cli::settings::{
    decode_config, read_table, ConfigLimits, RawValue, Setting, Toml, TomlMember,
};
use skillranker::json::{decode_json, Json};
use skillranker::output::ErrorKind;
use skillranker::pipeline::failure::Exit;
use skillranker::score::Score;
use skillranker::runtime::{
    admit_publication, blocking_pool, read_stdin_before_cleanup, DurationMillis, EntryClock,
    InputObservation, InvocationDeadline, LimitError, LimitUnit, MonotonicMillis, ReadOutcome, RuntimeError,
    StdinRead, StdinStep,
};

const LIMITS: ConfigLimits = ConfigLimits {
    file_bytes: 400,
    key_bytes: 20,
    list_items: 2,
    layer_entries: 4,
};

fn show(list: &[Setting]) -> Vec<String> {
    list.iter()
        .map(|s| match &s.value {
            RawValue::Bool(b) => format!("{}={b}", s.path),
            RawValue::Integer(n) => format!("{}={n}", s.path),
            RawValue::Float(x) => format!("{}={}", s.path, f64::from_bits(x.bits)),
            RawValue::Text(t) => format!("{}='{t}'", s.path),
            RawValue::TextList(l) => format!("{}={}", s.path, l.join(",")),
        })
        .collect()
}

#[test]
fn tables_become_dotted_settings() {
    let text = "[ranking]\ntop = 3\ngate = 0.5\n[context]\nno_tools = true\nroots = ['a','b']\n";
    assert_eq!(
        show(&decode_config(text, LIMITS).unwrap()),
        vec![
            "context.no_tools=true",
            "context.roots=a,b",
            "ranking.gate=0.5",
            "ranking.top=3",
        ]
    );
    assert_eq!(decode_config("", LIMITS).unwrap().len(), 0);
    assert_eq!(show(&decode_config("name = 'x'", LIMITS).unwrap()), vec!["name='x'"]);
}

#[test]
fn excessive_or_malformed_configuration_is_refused() {
    for bad in [
        "a = ",
        "a = 1\na = 2",
        "'a.b' = 1",
        "a = []\nb = [1]",
        "a = ['1','2','3']",
        "[a]",
        "a = 2020-01-01",
        "aaaaaaaaaaaaaaaaaaaaa = 1",
        "a=1\nb=1\nc=1\nd=1\ne=1",
    ] {
        assert!(decode_config(bad, LIMITS).is_none(), "{bad}");
    }
    let long = format!("# {}\n", "x".repeat(400));
    assert!(decode_config(&long, LIMITS).is_none());
    assert!(decode_config("a = []", LIMITS).is_some());
}

#[test]
fn tables_nest_only_so_deep() {
    let nest = |depth: usize| {
        let mut value = Toml::Integer(1);
        for _ in 0..depth {
            value = Toml::Table(vec![TomlMember {
                key: "a".to_string(),
                value,
            }]);
        }
        value
    };
    let wide = ConfigLimits {
        file_bytes: 0,
        key_bytes: 1_000,
        list_items: 0,
        layer_entries: 1,
    };
    assert_eq!(read_table(&nest(33), wide).unwrap().len(), 1);
    assert!(read_table(&nest(34), wide).is_none());
    assert!(read_table(&Toml::Bool(true), wide).is_none());
}

#[test]
fn layers_report_what_is_wrong_with_them() {
    let failing = |read: ConfigRead| read_config(Layer::Project, &read, LIMITS).err().unwrap();
    assert_eq!(
        failing(ConfigRead::RootUnavailable).message,
        "project: configuration root unavailable"
    );
    assert_eq!(
        failing(ConfigRead::Unreadable).message,
        "project: configuration must be a bounded authorized regular file"
    );
    assert_eq!(
        failing(ConfigRead::Bytes(vec![0xff])).message,
        "project: invalid UTF-8 configuration"
    );
    let malformed = failing(ConfigRead::Bytes(b"a=".to_vec()));
    assert_eq!(malformed.message, "project: malformed or excessive configuration");
    assert_eq!(malformed.exit, Exit::Code(2));
    assert_eq!(failing(ConfigRead::Late).exit, Exit::Code(6));
    assert_eq!(
        read_config(Layer::TrustedUser, &ConfigRead::Missing, LIMITS).unwrap().len(),
        0
    );
}

#[test]
fn configuration_files_are_fixed_and_refreshed() {
    let files = ConfigFiles::new("/w", &Some("/u".to_string()));
    assert_eq!(files.project_file(), "/w/.sr/config.toml");
    assert_eq!(files.user_file().as_deref(), Some("/u/sr/config.toml"));
    let user = ConfigRead::Bytes(b"a = 1".to_vec());
    let project = ConfigRead::Missing;
    let layers = files.load(&user, &project, LIMITS).unwrap();
    assert_eq!(show(&layers.trusted_user), vec!["a=1"]);
    assert!(layers.project.is_empty());
    let (_, generation) = files.refresh(&user, &project, 7, LIMITS).unwrap();
    assert_eq!(generation, 8);
    assert_eq!(
        files.refresh(&user, &project, u64::MAX, LIMITS).err().unwrap().message,
        "Configuration generation exhausted"
    );
    let rootless = ConfigFiles::new("/w/", &None);
    assert_eq!(rootless.project_file(), "/w/.sr/config.toml");
    assert!(rootless.user_file().is_none());
    assert!(rootless.load(&ConfigRead::Unreadable, &project, LIMITS).is_ok());
}

#[test]
fn rank_is_the_command_of_bare_flags() {
    let args = |list: &[&str]| list.iter().map(|s| s.to_string()).collect::<Vec<_>>();
    assert_eq!(with_command(args(&["sr", "--top", "3"])), args(&["sr", "rank", "--top", "3"]));
    for kept in [
        args(&["sr"]),
        args(&["sr", "doctor"]),
        args(&["sr", "--help"]),
        args(&["sr", "-V"]),
        args(&["sr", ""]),
    ] {
        assert_eq!(with_command(kept.clone()), kept);
    }
    assert!(wants_json(&args(&["sr", "--json"]), true));
    assert!(wants_json(&args(&["sr"]), false));
    assert!(!wants_json(&args(&["sr"]), true));
}

#[test]
fn routes_follow_the_arguments() {
    assert_eq!(route(true, false, None, false), Route::Help);
    assert_eq!(route(false, true, None, false), Route::Version);
    assert_eq!(route(false, false, None, false), Route::BareRank);
    assert_eq!(route(true, false, Some(Subcommand::Rank), false), Route::Misplaced);
    assert_eq!(route(false, false, Some(Subcommand::Doctor), true), Route::Help);
    assert_eq!(
        route(false, false, Some(Subcommand::Roster), false),
        Route::Command(Subcommand::Roster)
    );
    assert!(json_output(false, false, false));
    assert!(!json_output(false, true, false));
    assert!(!json_output(false, false, true));
}

#[test]
fn the_users_configuration_root_is_absolute() {
    assert_eq!(user_config_root(Some("/x"), Some("/h")).unwrap().as_deref(), Some("/x"));
    assert_eq!(
        user_config_root(Some(""), Some("/h")).unwrap().as_deref(),
        Some("/h/.config")
    );
    assert_eq!(user_config_root(None, Some("")).unwrap(), None);
    assert_eq!(
        user_config_root(Some("x"), None).err().unwrap().message,
        "User configuration directory must be absolute"
    );
    assert_eq!(
        user_config_root(None, Some("h")).err().unwrap().message,
        "Home directory must be absolute"
    );
}

#[test]
fn standard_input_counts_by_its_kind() {
    assert!(is_stdin_supplied(false, Some(0o010644)));
    assert!(is_stdin_supplied(false, Some(0o100644)));
    assert!(is_stdin_supplied(false, Some(0o140777)));
    assert!(!is_stdin_supplied(false, Some(0o020666)));
    assert!(!is_stdin_supplied(false, None));
    assert!(!is_stdin_supplied(true, Some(0o010644)));
}

#[test]
fn environment_settings_are_bounded() {
    let names: Vec<String> = ["PATH", "SR_TOP", "TYPESAFE_API_KEY", "XSR_", "TYPESAFE_ENDPOINT"]
        .iter()
        .map(|s| s.to_string())
        .collect();
    assert_eq!(environment_settings(&names, 3).unwrap(), vec![1, 2, 4]);
    assert_eq!(
        environment_settings(&names, 2).err().unwrap().message,
        "Too many environment settings"
    );
}

#[test]
fn flags_become_settings() {
    let given = |text: &str, integer: Option<i64>| FlagReading::Given {
        text: text.to_string(),
        integer,
        float: None,
    };
    assert!(matches!(
        cli_value("top", ValueKind::Count, &given("3", Some(3))),
        Ok(Some(RawValue::Integer(3)))
    ));
    assert_eq!(
        cli_value("top", ValueKind::Count, &given("x", None)).err().unwrap().message,
        "CLI count must be an integer"
    );
    assert_eq!(
        cli_value("gate", ValueKind::Unit, &given("x", None)).err().unwrap().message,
        "CLI threshold must be numeric"
    );
    assert!(matches!(
        cli_value("model", ValueKind::Text, &given("m", None)),
        Ok(Some(RawValue::Text(t))) if t == "m"
    ));
    assert!(matches!(
        cli_value("shadow", ValueKind::Text, &FlagReading::Raised),
        Ok(Some(RawValue::Text(t))) if t == "shadow"
    ));
    assert!(matches!(
        cli_value("no-tools", ValueKind::Text, &FlagReading::Raised),
        Ok(Some(RawValue::Bool(true)))
    ));
    assert!(matches!(cli_value("top", ValueKind::Count, &FlagReading::Absent), Ok(None)));
}

#[test]
fn inspection_failures_have_their_reports() {
    assert_eq!(page_failure(PageError::InvalidLimit).exit, Exit::Code(2));
    assert_eq!(page_failure(PageError::InvalidCursor).kind, "invalid-usage");
    assert_eq!(page_failure(PageError::RosterChanged).kind, "roster-changed");
    for error in [
        SnapshotError::Malformed,
        SnapshotError::TooLarge,
        SnapshotError::TooManyRecords,
        SnapshotError::Unreadable,
        SnapshotError::Incompatible,
    ] {
        let f = snapshot_failure(error, "malformed-input");
        assert_eq!(f.exit, Exit::OfKind);
        assert!(!f.message.is_empty());
    }
    assert_eq!(
        snapshot_failure(SnapshotError::TooLarge, "k").message,
        "The saved snapshot exceeds 32 MiB"
    );
}

fn rate(value: f64) -> Rate {
    Rate {
        score: Score {
            bits: value.to_bits(),
        },
        text: format!("{value}"),
    }
}

fn effective(credential: Option<&str>) -> EffectiveSettings {
    EffectiveSettings {
        top: 5,
        shortlist: 12,
        gate: rate(0.5),
        fits: rate(0.25),
        w_fit: rate(0.75),
        w_prior: rate(0.125),
        w_phase: rate(0.125),
        timeout_ms: 3_000,
        messages: 8,
        budget_chars: 9_000,
        context_profile: "standard".to_string(),
        no_tools: false,
        hook_mode: "a\"b\\\u{1}\n".to_string(),
        credential: credential.map(str::to_string),
        endpoint: None,
        redacted_model: None,
        transcript_roots: vec!["/a".to_string(), "/b".to_string()],
        roster_roots: vec![],
        exclude_skills: vec![],
        network_enabled: true,
    }
}

fn source(key: SettingKey, path: &str, sources: &[&str]) -> SettingSource {
    SettingSource {
        key,
        path: path.to_string(),
        sources: sources.iter().map(|s| s.to_string()).collect(),
    }
}

#[test]
fn reports_list_settings_in_order() {
    let list = vec![
        source(SettingKey::RankingTop, "ranking.top", &["cli"]),
        source(SettingKey::NetworkProxy, "network.proxy", &["default"]),
        source(SettingKey::RankingGate, "ranking.gate", &["default"]),
        source(SettingKey::ContextTranscriptRoots, "context.roots", &["project", "user"]),
    ];
    let report = config_report("fp", &list, &effective(None));
    assert_eq!(report.text_at("command"), Some("doctor-config"));
    assert_eq!(report.text_at("policy_fingerprint"), Some("fp"));
    let settings = report.get("settings").unwrap();
    assert!(settings.get("network.proxy").is_none());
    let top = settings.get("ranking.top").unwrap();
    assert_eq!(top.get("value").unwrap().as_u64(), Some(5));
    assert_eq!(top.array_at("sources").unwrap()[0].as_str(), Some("cli"));
    assert_eq!(
        config_table(&list, &effective(None)),
        "SETTING\tVALUE\tSOURCE\ncontext.roots\t{\"count\":2}\t[\"project\",\"user\"]\nranking.gate\t0.5\t[\"default\"]\nranking.top\t5\t[\"cli\"]\n"
    );
}

#[test]
fn private_settings_are_only_counted_or_noted() {
    let list = vec![
        source(SettingKey::TypesafeApiKey, "typesafe.api_key", &["environment"]),
        source(SettingKey::TypesafeEndpoint, "typesafe.endpoint", &["default"]),
        source(SettingKey::ProviderModel, "provider.model", &["default"]),
        source(SettingKey::HookMode, "hook.mode", &["default"]),
    ];
    let one = config_table(&list, &effective(Some("one")));
    assert_eq!(one, config_table(&list, &effective(Some("another"))));
    assert_eq!(
        one,
        "SETTING\tVALUE\tSOURCE\nhook.mode\t\"a\\\"b\\\\\\u0001\\n\"\t[\"default\"]\nprovider.model\t\"[private]\"\t[\"default\"]\ntypesafe.api_key\t{\"present\":true}\t[\"environment\"]\ntypesafe.endpoint\t{\"override_present\":false}\t[\"default\"]\n"
    );
    let quoted = Reported::Word("\u{7f}\t\r\u{8}\u{c}\u{1f}é".to_string()).to_text();
    assert_eq!(quoted, "\"\u{7f}\\t\\r\\b\\f\\u001fé\"");
}

#[test]
fn readiness_rows_name_the_next_step() {
    let row = check_row(&decode_json(b"{\"mode\":\"offline\"}", 64).unwrap());
    assert_eq!((row.state.as_str(), row.next_step.as_str()), ("offline", "-"));
    let checks = match decode_json(b"{\"a\":{\"state\":\"ok\"},\"b\":{\"next_step\":\"n\"}}", 64) {
        Ok(Json::Object(members)) => members,
        _ => panic!("an object"),
    };
    assert_eq!(
        readiness_table(&checks),
        "CHECK\tSTATE\tNEXT STEP\na\tok\t-\nb\t-\tn\n"
    );
    assert_eq!(roster_check(None), RosterCheck::Resolved);
    assert_eq!(roster_check(Some(6)), RosterCheck::Timeout);
    assert_eq!(roster_check(Some(5)), RosterCheck::Unusable);
}

fn seen() -> Surroundings {
    Surroundings {
        terminal: true,
        input_terminal: false,
        input_mode: Some(0o010600),
        variables: vec!["SR_TOP".to_string(), "PATH".to_string()],
        layer_entries: 1,
        workspace: Some("/w".to_string()),
        config_home: None,
        home: Some("/h".to_string()),
    }
}

fn named(text: &str, valid: bool) -> Named {
    Named {
        text: text.to_string(),
        valid,
    }
}

#[test]
fn rank_requests_carry_their_flags() {
    let mut flags = RankFlags::bare();
    flags.dry_run = true;
    flags.harness = Some(named("h", true));
    flags.require_skills = vec![named("s", true)];
    flags.settings = vec![SettingFlag {
        path: "ranking.top".to_string(),
        name: "top".to_string(),
        kind: ValueKind::Count,
        reading: FlagReading::Given {
            text: "4".to_string(),
            integer: Some(4),
            float: None,
        },
    }];
    let request = rank_command(&clock(), &flags, &None, &seen(), 0, 10).ok().unwrap();
    assert_eq!(show(&request.sources.cli), vec!["ranking.top=4"]);
    assert_eq!(request.sources.environment, vec![0]);
    assert_eq!(request.args.workspace, "/w");
    assert_eq!(request.args.user_config_root.as_deref(), Some("/h/.config"));
    assert_eq!(request.args.require_skills, vec!["s"]);
    assert!(request.args.dry_run && request.args.output_table && !request.args.output_json);
    assert!(request.source_options.stdin_supplied && !request.source_options.hook);
    assert_eq!(request.source_options.harness.as_deref(), Some("h"));
}

#[test]
fn rank_requests_are_refused_in_order() {
    let fails = |flags: &RankFlags, conflict: Option<&str>, seen: &Surroundings, ready: u128| {
        let f = rank_command(&clock(), flags, &conflict.map(str::to_string), seen, 0, ready);
        let f = f.err().unwrap();
        (f.exit, f.kind, f.message)
    };
    let mut flags = RankFlags::bare();
    assert_eq!(fails(&flags, None, &seen(), 900).0, Exit::Code(6));
    flags.why_not = Some(named("w", false));
    assert_eq!(fails(&flags, None, &seen(), 0).2, "Invalid skill ID for --why-not: w");
    flags.require_skills = vec![named("a", true), named("b", false), named("c", false)];
    let refused = fails(&flags, None, &seen(), 0);
    assert_eq!((refused.0, refused.2.as_str()), (Exit::Code(5), "Invalid skill ID: b"));
    assert_eq!(refused.1, "unresolved-explicit");
    flags.harness = Some(named("h", false));
    assert_eq!(fails(&flags, None, &seen(), 0).2, "Invalid harness ID");
    let mut lost = seen();
    lost.workspace = None;
    assert_eq!(fails(&flags, None, &lost, 0).2, "Workspace is unavailable");
    lost.layer_entries = 0;
    assert_eq!(fails(&flags, None, &lost, 0).2, "Too many environment settings");
    flags.save_case = true;
    assert!(fails(&flags, None, &lost, 0).2.starts_with("--save-case"));
    assert_eq!(fails(&flags, Some("conflict"), &lost, 0).2, "conflict");
}

#[test]
fn inspections_and_listings_are_requested() {
    let flags = DoctorFlags {
        json: true,
        table: false,
        config: true,
        settings: vec![],
    };
    let request = doctor_command(&clock(), &flags, &None, &seen(), 0).ok().unwrap();
    assert!(request.output_json && request.config);
    assert_eq!(request.user_root.as_deref(), Some("/h/.config"));
    let late = doctor_command(&clock(), &flags, &None, &seen(), 800).err().unwrap();
    assert_eq!(late.message, "Local inspection deadline exceeded");
    let text = |s: &str| Some(s.to_string());
    assert!(matches!(
        roster_request(&None, &text("c"), &None, &None, 128),
        Ok(RosterRequest::Page { limit: 128, cursor: Some(c) }) if c == "c"
    ));
    assert!(matches!(
        roster_request(&text("+7"), &None, &None, &None, 128),
        Ok(RosterRequest::Page { limit: 7, .. })
    ));
    assert!(matches!(
        roster_request(&None, &None, &text("s"), &text("d"), 128),
        Ok(RosterRequest::Snapshot(t)) if t == "s"
    ));
    assert!(matches!(
        roster_request(&None, &None, &None, &text("d"), 128),
        Ok(RosterRequest::Compare(t)) if t == "d"
    ));
    assert!(roster_request(&text("x"), &None, &text("s"), &None, 128).is_err());
    for sample in ["0", "18446744073709551615", "18446744073709551616", "", "+", "-1", "1 ", "007"] {
        assert_eq!(parse_count(sample), sample.parse::<usize>().ok(), "{sample}");
    }
}

#[test]
fn failures_reach_the_user_by_kind() {
    let kinds = vec![KnownKind {
        label: "timeout".to_string(),
        kind: ErrorKind::Timeout,
    }];
    assert!(matches!(
        report_error(2, "timeout", "m", true, false, &kinds),
        ErrorReport::Failure { kind: ErrorKind::Timeout, .. }
    ));
    assert!(matches!(
        report_error(5, "unusable-roster", "m", true, true, &kinds),
        ErrorReport::Failure { kind: ErrorKind::EmptyRoster, .. }
    ));
    assert!(matches!(
        report_error(4, "k", " {}", true, true, &kinds),
        ErrorReport::Document(text) if text == " {}"
    ));
    assert!(matches!(
        report_error(4, "k", "m", false, true, &kinds),
        ErrorReport::Diagnostic(line) if line == "sr: m"
    ));
    let document = decode_json(b"{\"error\":{\"kind\":\"timeout\",\"message\":\"late\"}}", 99).unwrap();
    let known = vec!["timeout".to_string()];
    let plain = unavailable_failure(6, &document, "{}", false, &known);
    assert_eq!((plain.kind.as_str(), plain.message.as_str()), ("timeout", "late"));
    let whole = unavailable_failure(6, &document, "{}", true, &vec![]);
    assert_eq!((whole.kind.as_str(), whole.message.as_str()), ("unavailable", "{}"));
    assert_eq!(roster_failure(RosterFault::Late).exit, Exit::Code(6));
    assert_eq!(roster_failure(RosterFault::Unplanned).kind, "unusable-roster");
    assert_eq!(
        export_failure(ExportError::Permissions, "storage-failure").message,
        "The snapshot directory is missing or not private enough"
    );
    let receipt = export_receipt("s", 3, "id", true);
    assert_eq!(receipt.get("records").unwrap().as_u64(), Some(3));
}

fn clock() -> EntryClock {
    EntryClock::capture_with(DurationMillis(1_000), DurationMillis(200)).unwrap()
}

#[test]
fn work_stops_at_the_cleanup_reserve() {
    let c = clock();
    assert_eq!(c.admit_new_work(799), Ok(MonotonicMillis(799)));
    assert_eq!(
        c.admit_new_work(800),
        Err(RuntimeError::Deadline(LimitError::WorkWindowClosed))
    );
    assert_eq!(c.remaining_before_cleanup(700), DurationMillis(100));
    assert_eq!(c.remaining_until_expiry(700), DurationMillis(300));
    assert_eq!(c.work_budget(750), Ok(DurationMillis(50)));
    assert!(c.work_budget(900).is_err());
    assert_eq!(c.cleanup_budget(900), Some(DurationMillis(100)));
    assert_eq!(c.cleanup_budget(1_000), None);
    assert_eq!(c.shutdown_bound(2_000), DurationMillis(1));
    assert_eq!(c.now(u128::MAX), MonotonicMillis(u64::MAX));
    assert!(EntryClock::capture_with(DurationMillis(1), DurationMillis(2)).is_err());
    assert_eq!(
        InvocationDeadline::new(MonotonicMillis(u64::MAX), DurationMillis(1), DurationMillis(0)),
        Err(LimitError::DeadlineOverflow)
    );
    assert_eq!(blocking_pool(0, 0), (1, 1));
    assert_eq!(blocking_pool(2, 4), (2, 4));
}

#[test]
fn late_results_are_suppressed() {
    let d = clock().deadline();
    let at = MonotonicMillis;
    assert_eq!(admit_publication(d, at(799), at(999)), Ok(()));
    assert_eq!(
        admit_publication(d, at(800), at(801)),
        Err(RuntimeError::LateResultSuppressed)
    );
    assert_eq!(
        admit_publication(d, at(10), at(1_000)),
        Err(RuntimeError::LateResultSuppressed)
    );
    assert_eq!(
        RuntimeError::LateResultSuppressed.as_str(),
        Some("late result suppressed after cleanup reserve or expiry")
    );
    assert_eq!(RuntimeError::Deadline(LimitError::WorkWindowClosed).as_str(), None);
}

fn read(elapsed_ms: u128, outcome: ReadOutcome) -> InputObservation {
    InputObservation { elapsed_ms, outcome }
}

#[test]
fn input_is_bounded_by_time_and_size() {
    let bytes = |text: &str| ReadOutcome::Bytes(text.as_bytes().to_vec());
    let whole = vec![
        read(0, bytes("ab")),
        read(1, ReadOutcome::Interrupted),
        read(2, bytes("c")),
        read(3, bytes("")),
    ];
    assert_eq!(
        read_stdin_before_cleanup(&clock(), whole, 4),
        Some(Ok(b"abc".to_vec()))
    );
    let full = vec![read(0, bytes("abc")), read(1, bytes(""))];
    assert_eq!(
        read_stdin_before_cleanup(&clock(), full, 3),
        Some(Err(RuntimeError::Deadline(LimitError::AboveLimit {
            name: "hook_stdin",
            observed: 4,
            limit: 3,
            unit: LimitUnit::Bytes,
        })))
    );
    let late = vec![read(0, bytes("a")), read(800, bytes(""))];
    assert_eq!(
        read_stdin_before_cleanup(&clock(), late, 4),
        Some(Err(RuntimeError::StdinTimeout))
    );
    let failed = vec![read(0, ReadOutcome::Failed)];
    assert_eq!(
        read_stdin_before_cleanup(&clock(), failed, 4),
        Some(Err(RuntimeError::StdinTimeout))
    );
    assert_eq!(read_stdin_before_cleanup(&clock(), vec![], 4), None);
    let state = StdinRead::new(10_000);
    assert_eq!(state.next(true), StdinStep::Read(8_192));
    assert_eq!(state.next(false), StdinStep::Stop(RuntimeError::StdinTimeout));
}
