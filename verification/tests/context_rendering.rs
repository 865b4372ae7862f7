use skillranker::context::render::labels::{prepare, LabelReading, TOOL_LABEL_SCALARS};
use skillranker::context::render::session::{
    check_input, LoadedReference, RedactedField, SessionDisclosure, SESSION_REFERENCE_RECORDS,
    SESSION_REFERENCE_SUMMARY_SCALARS, SESSION_STATE_SCALARS,
};
use skillranker::context::render::{
    category_counts, project, render_context, render_context_and_receipt, CategoryReceipt,
    DisclosureReceipt, PayloadStage, RenderBound, RenderContextError, RenderedContextPayload,
    SealOutcome, SourceCategory,
};
use skillranker::context::tool::association::{register, take, PendingTable, TakenCall};
use skillranker::context::tool::dispatch::{
    dispatch_tool, resolve_tool, Dispatch, RegisteredSkill, SkillMatch,
};
use skillranker::context::{
    CurrentRequest, EventKind, NormalizedContext, NormalizedEvent, Role, ToolEvent, ToolStatus,
};
use skillranker::output::ContextQuality;

fn event(id: &str, role: Role, kind: EventKind) -> NormalizedEvent {
    NormalizedEvent {
        event_id: Some(id.to_string()),
        parent_id: None,
        turn_id: None,
        agent_id: None,
        branch_id: None,
        role,
        kind,
        timestamp_unix_ms: None,
        text: format!("text of {id}"),
        tool: None,
    }
}

fn tool_event(id: &str, name: &str) -> NormalizedEvent {
    let mut e = event(id, Role::Tool, EventKind::ToolInvocation);
    e.tool = Some(ToolEvent {
        call_id: Some(format!("call-{id}")),
        name: name.to_string(),
        status: ToolStatus::Attempted,
        arguments: Some("{}".to_string()),
        result: None,
    });
    e
}

fn context(events: Vec<NormalizedEvent>) -> NormalizedContext {
    NormalizedContext {
        schema_version: 1,
        harness: "h".to_string(),
        producer_id: None,
        workspace_root: None,
        session_id: Some("s".to_string()),
        agent_id: None,
        branch_id: None,
        context_epoch: None,
        current_request: CurrentRequest {
            event_id: Some("now".to_string()),
            text: "do".to_string(),
            attachments_omitted: false,
            essential_attachment_missing: false,
        },
        events,
        explicit_skill_references: vec!["a".to_string()],
        supplied_loads: vec![],
    }
}

fn history() -> NormalizedContext {
    let mut foreign = event("f", Role::User, EventKind::Message);
    foreign.agent_id = Some("other".to_string());
    let mut foreign_tool = tool_event("ft", "Read");
    foreign_tool.agent_id = Some("other".to_string());
    context(vec![
        event("1", Role::User, EventKind::Message),
        tool_event("2", "Read"),
        foreign,
        foreign_tool,
        event("now", Role::User, EventKind::Message),
    ])
}

#[test]
fn categories_are_counted_apart() {
    let counts = category_counts(&vec![
        event("1", Role::User, EventKind::Message),
        event("2", Role::Tool, EventKind::Message),
        tool_event("3", "x"),
        event("4", Role::System, EventKind::Compaction),
    ]);
    assert_eq!(counts.messages, 1);
    assert_eq!(counts.tools, 2);
}

#[test]
fn projection_selects_history_and_counts_what_it_leaves_out() {
    let c = history();
    let p = project(&c).unwrap();
    let ids: Vec<_> = p.context.events.iter().map(|e| e.event_id.clone().unwrap()).collect();
    assert_eq!(ids, vec!["1", "2"]);
    assert!(!p.incomplete);
    assert_eq!(p.omitted.messages, 1);
    assert_eq!(p.omitted.tools, 1);
    assert_eq!(p.context.session_id.as_deref(), Some("s"));
    assert_eq!(p.context.explicit_skill_references, vec!["a"]);
}

fn category(category: SourceCategory, omitted_count: usize) -> CategoryReceipt {
    CategoryReceipt {
        category,
        included_count: 1,
        omitted_count,
        truncated_count: 0,
        redaction_count: 0,
    }
}

fn stage(sealed: SealOutcome) -> PayloadStage {
    PayloadStage {
        rendered: Ok((
            RenderedContextPayload {
                context_quality: ContextQuality::Complete,
                messages: vec!["m".to_string()],
            },
            DisclosureReceipt {
                context_quality: ContextQuality::Complete,
                disclosed_bytes: 0,
                categories: vec![
                    category(SourceCategory::MessageHistory, 2),
                    category(SourceCategory::ToolEvents, 0),
                    category(SourceCategory::SessionState, 5),
                ],
                total_omitted: 7,
            },
        )),
        sealed,
    }
}

#[test]
fn receipts_account_for_excluded_events() {
    let (payload, receipt) =
        render_context_and_receipt(&history(), stage(SealOutcome::Sealed(99))).unwrap();
    assert_eq!(payload.context_quality, ContextQuality::Complete);
    assert_eq!(payload.messages, vec!["m"]);
    assert_eq!(receipt.disclosed_bytes, 99);
    let omitted: Vec<usize> = receipt.categories.iter().map(|c| c.omitted_count).collect();
    assert_eq!(omitted, vec![3, 1, 5]);
    assert_eq!(receipt.total_omitted, 9);
}

#[test]
fn an_incomplete_history_is_partial() {
    let mut child = event("2", Role::User, EventKind::Message);
    child.parent_id = Some("gone".to_string());
    let mut now = event("now", Role::User, EventKind::Message);
    now.parent_id = Some("2".to_string());
    let c = context(vec![child, now]);
    let payload = render_context(&c, stage(SealOutcome::Sealed(1))).unwrap();
    assert_eq!(payload.context_quality, ContextQuality::Partial);
}

#[test]
fn rendering_fails_in_the_order_of_its_stages() {
    let c = history();
    assert!(matches!(
        render_context(&c, stage(SealOutcome::NotSerialized("x".to_string()))),
        Err(RenderContextError::Serialization(_))
    ));
    assert!(matches!(
        render_context(&c, stage(SealOutcome::Withheld("x".to_string()))),
        Err(RenderContextError::Privacy(_))
    ));
    let failed = PayloadStage {
        rendered: Err(RenderContextError::UnsupportedContext(RenderBound::ToolLabels)),
        sealed: SealOutcome::Sealed(1),
    };
    assert!(matches!(
        render_context(&c, failed),
        Err(RenderContextError::UnsupportedContext(RenderBound::ToolLabels))
    ));
    let mut wrong = history();
    wrong.events.pop();
    let mut alien = event("now", Role::User, EventKind::Message);
    alien.branch_id = Some("b".to_string());
    wrong.events.push(alien);
    assert!(matches!(
        render_context(&wrong, stage(SealOutcome::Sealed(1))),
        Err(RenderContextError::UnresolvedHistory(_))
    ));
    assert_eq!(
        RenderBound::SessionState.as_str(),
        "Session state exceeds its input bound"
    );
}

fn label(text: &str) -> LabelReading {
    LabelReading::Redacted {
        text: text.to_string(),
        redactions: 1,
        excerpt: "cut".to_string(),
    }
}

#[test]
fn labels_are_redacted_cut_and_bounded() {
    let events = vec![
        tool_event("1", "Read"),
        event("2", Role::User, EventKind::Message),
        tool_event("3", "Write"),
    ];
    let long = "x".repeat(TOOL_LABEL_SCALARS + 1);
    let readings = vec![label("[hidden]"), label("unused"), label(&long)];
    let (prepared, receipt) = prepare(&events, &readings, false, 64).unwrap();
    assert_eq!(prepared[0].tool.as_ref().unwrap().name, "[hidden]");
    assert_eq!(prepared[0].tool.as_ref().unwrap().call_id.as_deref(), Some("call-1"));
    assert_eq!(prepared[1].text, "text of 2");
    assert_eq!(prepared[2].tool.as_ref().unwrap().name, "cut");
    assert_eq!(receipt.redactions, 2);
    assert_eq!(receipt.truncated, 1);
    assert!(matches!(
        prepare(&events, &readings, false, 8),
        Err(RenderContextError::UnsupportedContext(RenderBound::ToolLabels))
    ));
    let (kept, receipt) = prepare(&events, &readings, true, 0).unwrap();
    assert_eq!(kept[0].tool.as_ref().unwrap().name, "Read");
    assert_eq!(receipt.redactions, 0);
    let refused = vec![
        LabelReading::Refused("secret".to_string()),
        label(""),
        label(""),
    ];
    assert!(matches!(
        prepare(&events, &refused, false, 64),
        Err(RenderContextError::Privacy(_))
    ));
}

fn field(text: &str) -> RedactedField {
    RedactedField {
        text: text.to_string(),
        redactions: 1,
    }
}

#[test]
fn session_evidence_stays_within_its_allowance() {
    let mut d = SessionDisclosure::start(field("state")).unwrap();
    d.add_exclusion(field("skill-a")).unwrap();
    assert!(d.has_room());
    let allowance = d.offer_name(&field("name")).unwrap();
    assert_eq!(allowance, SESSION_REFERENCE_SUMMARY_SCALARS);
    let long = "s".repeat(allowance + 1);
    d.add_reference("name".to_string(), field(&long), "short".to_string());
    assert!(d.offer_name(&field("")).is_none());
    let filler = "f".repeat(SESSION_STATE_SCALARS - 5 - 7 - 4 - 5 - 10);
    d.add_exclusion(field(&filler)).unwrap();
    assert_eq!(d.offer_name(&field("12345678")), Some(2));
    assert_eq!(d.offer_name(&field("12345678901")), None);
    assert!(matches!(
        d.add_exclusion(field("12345678901")),
        Err(RenderContextError::UnsupportedContext(RenderBound::SessionConstraints))
    ));
    let receipt = d.receipt(3);
    assert_eq!(receipt.category, SourceCategory::SessionState);
    assert_eq!(receipt.included_count, 3);
    assert_eq!(receipt.omitted_count, 2);
    assert_eq!(receipt.truncated_count, 1);
    assert_eq!(d.reference_names(), &vec!["name".to_string()]);
    assert_eq!(d.reference_summaries(), &vec!["short".to_string()]);
    assert_eq!(d.exclusions().len(), 2);
    assert_eq!(d.loaded_state(), "state");
    let huge = "x".repeat(SESSION_STATE_SCALARS + 1);
    assert!(SessionDisclosure::start(field(&huge)).is_err());
}

#[test]
fn session_references_are_counted() {
    let mut d = SessionDisclosure::start(field("")).unwrap();
    for i in 0..SESSION_REFERENCE_RECORDS {
        assert!(d.has_room());
        let name = format!("n{i}");
        assert!(d.offer_name(&field(&name)).is_some());
        d.add_reference(name, field("s"), String::new());
    }
    assert!(!d.has_room());
    assert!(d.offer_name(&field("more")).is_none());
}

#[test]
fn session_input_is_checked_before_it_is_read() {
    let reference = LoadedReference {
        name: "ab".to_string(),
        summary: "cde".to_string(),
    };
    let references = vec![reference];
    let exclusions = vec!["fg".to_string()];
    assert!(check_input("h", &exclusions, &references, 2, 8).is_ok());
    assert!(check_input("h", &exclusions, &references, 1, 8).is_err());
    assert!(check_input("h", &exclusions, &references, 2, 7).is_err());
    assert!(check_input("é", &vec![], &vec![], 0, 1).is_err());
}

fn key(text: &str) -> Vec<String> {
    vec![text.to_string()]
}

#[test]
fn a_key_designates_one_invocation_and_one_result() {
    let mut table = PendingTable::new();
    let mut statuses = vec![ToolStatus::Succeeded, ToolStatus::Succeeded];
    register(&mut table, key("k"), 0, &mut statuses, false, false);
    let first = take(&mut table, &key("k"), &mut statuses);
    assert_eq!(first, TakenCall { invocation: Some(0), ambiguous: false });
    let second = take(&mut table, &key("k"), &mut statuses);
    assert_eq!(second, TakenCall { invocation: None, ambiguous: true });
    assert_eq!(statuses[0], ToolStatus::Unknown);
    register(&mut table, key("k"), 1, &mut statuses, true, false);
    assert_eq!(statuses[1], ToolStatus::Unknown);
    assert_eq!(
        take(&mut table, &key("k"), &mut statuses),
        TakenCall { invocation: None, ambiguous: true }
    );
    assert_eq!(
        take(&mut table, &key("other"), &mut statuses),
        TakenCall { invocation: None, ambiguous: false }
    );
}

#[test]
fn names_may_come_back_in_sequence_but_identities_may_not() {
    let mut table = PendingTable::new();
    let mut statuses = vec![ToolStatus::Succeeded; 4];
    register(&mut table, key("turn"), 0, &mut statuses, true, true);
    register(&mut table, key("turn"), 1, &mut statuses, true, false);
    assert_eq!(statuses[0], ToolStatus::Succeeded);
    assert_eq!(
        take(&mut table, &key("turn"), &mut statuses).invocation,
        Some(1)
    );
    register(&mut table, key("id"), 2, &mut statuses, false, false);
    register(&mut table, key("id"), 3, &mut statuses, false, false);
    assert_eq!(statuses[2], ToolStatus::Unknown);
    assert_eq!(statuses[3], ToolStatus::Unknown);
    assert!(take(&mut table, &key("id"), &mut statuses).ambiguous);
}

fn registered(name: &str) -> RegisteredSkill {
    RegisteredSkill {
        name: name.to_string(),
        skill: SkillMatch {
            skill_id: format!("id-{name}"),
            has_dynamic_arguments: false,
            rendered_content: Some("body".to_string()),
        },
    }
}

fn resolve(tool: &str, arguments: Option<&str>, skills: &Vec<RegisteredSkill>) -> Option<SkillMatch> {
    let dispatch = dispatch_tool(tool, arguments, 4096);
    resolve_tool(&dispatch, tool, skills, None)
}

#[test]
fn reserved_tools_come_before_registered_names() {
    let skills = vec![registered("Read"), registered("Skill"), registered("deploy")];
    assert!(resolve("Read", Some("{\"path\":\"/x\"}"), &skills).is_none());
    assert!(resolve("READ", None, &skills).is_none());
    let own = resolve("Skill", Some("{\"skill\":\"Skill\"}"), &skills).unwrap();
    assert_eq!(own.skill_id, "id-Skill");
    assert_eq!(own.rendered_content.as_deref(), Some("body"));
    let args = resolve("run_skill", Some("{\"name\":\"deploy\",\"args\":\"x\"}"), &skills).unwrap();
    assert!(args.has_dynamic_arguments);
    assert!(args.rendered_content.is_none());
    let plain = resolve("run_skill", Some("{\"name\":\"deploy\",\"args\":\"\"}"), &skills).unwrap();
    assert!(!plain.has_dynamic_arguments);
    assert_eq!(resolve("deploy", None, &skills).unwrap().skill_id, "id-deploy");
    assert!(resolve("unknown", None, &skills).is_none());
}

#[test]
fn ambiguous_arguments_are_no_load() {
    for bad in [
        "{\"skill\":\"a\",\"name\":\"b\"}",
        "{\"skill\":\"\"}",
        "{\"skill\":5}",
        "{}",
        "[]",
        "{\"skill\":\"a\",\"skill\":\"a\"}",
        "nope",
    ] {
        assert!(
            matches!(dispatch_tool("skill", Some(bad), 4096), Dispatch::Refused),
            "{bad}"
        );
    }
    let long = format!("{{\"skill\":\"{}\"}}", "a".repeat(100));
    assert!(matches!(dispatch_tool("skill", Some(&long), 50), Dispatch::Refused));
    assert!(matches!(
        dispatch_tool("view_file", Some("{\"path\":\"/a\",\"target\":\"/a\"}"), 4096),
        Dispatch::Read { target } if target == "/a"
    ));
}

#[test]
fn reads_resolve_by_their_path() {
    let at_path = SkillMatch {
        skill_id: "file".to_string(),
        has_dynamic_arguments: false,
        rendered_content: None,
    };
    let dispatch = dispatch_tool("cat", Some("{\"path\":\"/a\"}"), 4096);
    let found = resolve_tool(&dispatch, "cat", &vec![registered("cat")], Some(at_path));
    assert_eq!(found.unwrap().skill_id, "file");
}
