use xharness::models::{
    AgentResumeReport, ModelDescriptor, ModelRegistry, ModelRegistryError, ModelRoute,
};
use xharness::restore::{web_turn, HostRestoreIssue, HostRestoreReport, ResumeMismatch, ResumeStep};
use xharness::sessions::{
    HistoryWindow, SearchQueryError, SessionProcessor, SessionSearchRecord, MAX_SEARCH_RESULTS,
};
use xharness::sessions::{fork_child, fork_keep, truncate_chars, ForkSource, ForkUnavailable};
use xharness::state::{ModelSelection, PermissionPreset};
use xharness::subagents::{ChildAuthorizationError, SubagentProcessor, SubagentRecord, SubagentSnapshot};
use xharness::titles::{excerpt, is_meaningful_lowered, meaningful, validate_title};
use xharness::wire::{
    fingerprint_hex, hex_lower, nonempty, permission_command_input, plan_command_input, stream_id,
    valid_directory_name, WireError,
};
use xharness::workspaces::{
    attach_workspace, list_fork, ControlEvent, HostEvent, WorkspaceError, WorkspaceProcessor,
    WorkspaceResponse, WorkspaceStateView,
};
use xharness::state::WorkspaceRecord;

// ---------------------------------------------------------------------------
// Titles
// ---------------------------------------------------------------------------

#[test]
fn title_validation_and_unicode_excerpt_are_bounded() {
    for bad in ["", "  ", "\" \"", "# Title", "{\"title\":1}", "a\nb", "```title```"] {
        assert!(validate_title(bad).is_none(), "{bad:?}");
    }
    assert_eq!(validate_title(" “ 修复标题 ” ").as_deref(), Some("修复标题"));
    assert!(validate_title(&"字".repeat(81)).is_none());
    assert_eq!(excerpt("中中文", 4), "中");
}

#[test]
fn titles_keep_inner_quotes_and_accept_eighty_characters() {
    assert_eq!(validate_title("'Fix the \"build\" now'").as_deref(), Some("Fix the \"build\" now"));
    assert_eq!(validate_title("'Fix the \"build\"'").as_deref(), Some("Fix the \"build"));
    assert_eq!(validate_title(&"字".repeat(80)).as_deref(), Some("字".repeat(80).as_str()));
    assert!(validate_title("[draft] title").is_none());
    assert!(validate_title("`code`").is_none());
    assert!(validate_title("tab\tinside").is_none());
}

#[test]
fn excerpts_squash_whitespace_and_respect_byte_budgets() {
    assert_eq!(excerpt("  a \n\t b  c ", 100), "a b c");
    assert_eq!(excerpt("abcdef", 3), "abc");
    assert_eq!(excerpt("é", 1), "");
    assert_eq!(excerpt("ab cd", 3), "ab");
    assert_eq!(excerpt("", 10), "");
}

#[test]
fn greetings_are_not_meaningful() {
    for trivial in ["hi", " Hello! ", "OK.", "thanks", "Continue", "你好。", "好的！", "谢谢", "...", "  "] {
        assert!(!meaningful(trivial), "{trivial:?}");
    }
    for useful in ["fix the build", "hi there", "继续修复测试"] {
        assert!(meaningful(useful), "{useful:?}");
    }
    assert!(!is_meaningful_lowered(""));
    assert!(!is_meaningful_lowered("ok"));
    assert!(is_meaningful_lowered("okay"));
}

// ---------------------------------------------------------------------------
// Sessions
// ---------------------------------------------------------------------------

#[test]
fn list_is_newest_first_and_missing_time_is_oldest() {
    // updatedAt of "old", "missing" (counts as 0) and "new".
    let order = SessionProcessor::list_order(&vec![1, 0, 9]);
    let ids = ["old", "missing", "new"];
    assert_eq!(ids[order[0]], "new");
    assert_eq!(ids[order[2]], "missing");
}

#[test]
fn listing_order_is_stable_for_equal_times() {
    assert_eq!(SessionProcessor::list_order(&vec![5, 7, 5, 7, 1]), vec![1, 3, 0, 2, 4]);
    assert_eq!(SessionProcessor::list_order(&vec![]), Vec::<usize>::new());
}

#[test]
fn search_is_bounded_case_insensitive_and_unicode_safe() {
    let records: Vec<SessionSearchRecord> = (0..22)
        .map(|index| SessionSearchRecord {
            id: format!("s{index}"),
            event_texts: vec![format!("PREFIX {}", "界".repeat(300))],
        })
        .collect();
    let value = SessionProcessor::search("prefix", records);
    assert_eq!(value.items.len(), MAX_SEARCH_RESULTS);
    assert!(value.has_more);
    assert!(value.items[0].snippet.ends_with('…'));
    assert_eq!(SessionProcessor::normalize_query(" \0 "), Err(SearchQueryError::Invalid));
}

#[test]
fn search_uses_the_first_matching_text_and_skips_other_sessions() {
    let records = vec![
        SessionSearchRecord { id: "a".into(), event_texts: vec!["nothing".into(), "Deploy Now".into(), "deploy later".into()] },
        SessionSearchRecord { id: "b".into(), event_texts: vec!["unrelated".into()] },
        SessionSearchRecord { id: "c".into(), event_texts: vec![] },
    ];
    let out = SessionProcessor::search("deploy", records);
    assert_eq!(out.items.len(), 1);
    assert_eq!(out.items[0].session_id, "a");
    assert_eq!(out.items[0].snippet, "Deploy Now");
    assert!(!out.has_more);
}

#[test]
fn queries_are_trimmed_lowercased_and_bounded() {
    assert_eq!(SessionProcessor::normalize_query("  HeLLo ").unwrap(), "hello");
    assert_eq!(SessionProcessor::normalize_query("   "), Err(SearchQueryError::Invalid));
    assert!(SessionProcessor::normalize_query(&"a".repeat(500)).is_ok());
    assert_eq!(SessionProcessor::normalize_query(&"a".repeat(501)), Err(SearchQueryError::Invalid));
    assert_eq!(SessionProcessor::normalize_query("a\0b"), Err(SearchQueryError::Invalid));
}

#[test]
fn snippets_are_cut_by_characters() {
    assert_eq!(truncate_chars("héllo", 5), "héllo");
    assert_eq!(truncate_chars("héllo", 2), "hé…");
    assert_eq!(truncate_chars("", 0), "");
    assert_eq!(truncate_chars("x", 0), "…");
}

#[test]
fn history_window_counts_only_visible_message_events() {
    let types = [
        Some("session/started"),
        Some("user/message"),
        Some("tool/call"),
        Some("tool/result"),
        Some("assistant/message"),
    ];
    let window = SessionProcessor::history_window(&types, 4, 9, None, 2);
    assert_eq!(window.start, 3);
    assert_eq!(window.end, 5);
    assert!(window.has_more);

    let first = SessionProcessor::history_window(&types, 0, 5, Some(2), 50);
    assert_eq!(first.start, 0);
    assert_eq!(first.end, 2);
    assert!(!first.has_more);
}

#[test]
fn history_window_edges() {
    let types = [Some("user/message"), None, Some("assistant/message")];
    assert_eq!(
        SessionProcessor::history_window(&types, 0, 3, None, 0),
        HistoryWindow { start: 3, end: 3, has_more: true }
    );
    assert_eq!(
        SessionProcessor::history_window(&types, 10, 3, None, 5),
        HistoryWindow { start: 0, end: 0, has_more: true }
    );
    assert_eq!(
        SessionProcessor::history_window(&types, 0, 100, Some(200), 1),
        HistoryWindow { start: 2, end: 3, has_more: true }
    );
}

// ---------------------------------------------------------------------------
// Subagents
// ---------------------------------------------------------------------------

fn snapshot() -> SubagentSnapshot {
    let mut sessions: Vec<SubagentRecord> = [
        ("parent", None, None, false),
        ("child", Some("parent"), Some("Worker"), true),
        ("grandchild", Some("child"), None, false),
        ("other", None, None, false),
    ]
    .into_iter()
    .map(|(id, parent, title, running): (&str, Option<&str>, Option<&str>, bool)| SubagentRecord {
        id: id.to_owned(),
        parent_id: parent.map(str::to_owned),
        title: title.map(str::to_owned),
        running,
    })
    .collect();
    sessions.sort_by(|a, b| a.id.cmp(&b.id));
    SubagentSnapshot { sessions }
}

#[test]
fn list_projects_only_direct_children_and_nested_status() {
    let value = SubagentProcessor::list(&snapshot(), "parent");
    assert!(value.parent_available);
    assert_eq!(value.entries.len(), 1);
    assert_eq!(value.entries[0].id, "child");
    assert!(value.entries[0].running);
    assert!(value.entries[0].has_children);
    assert_eq!(value.entries[0].label, "Worker");
}

#[test]
fn authorization_distinguishes_all_failure_classes() {
    let snapshot = snapshot();
    assert_eq!(
        SubagentProcessor::authorize(&snapshot, "missing", "child"),
        Err(ChildAuthorizationError::ParentUnavailable)
    );
    assert_eq!(
        SubagentProcessor::authorize(&snapshot, "parent", "missing"),
        Err(ChildAuthorizationError::ChildNotFound)
    );
    assert_eq!(
        SubagentProcessor::authorize(&snapshot, "parent", "other"),
        Err(ChildAuthorizationError::Unauthorized)
    );
    assert_eq!(SubagentProcessor::authorize(&snapshot, "parent", "child"), Ok(()));
}

#[test]
fn missing_parent_list_is_a_valid_empty_view() {
    let value = SubagentProcessor::list(&snapshot(), "missing");
    assert!(!value.parent_available);
    assert!(value.entries.is_empty());
}

#[test]
fn untitled_child_is_labelled_by_id() {
    let value = SubagentProcessor::list(&snapshot(), "child");
    assert_eq!(value.entries.len(), 1);
    assert_eq!(value.entries[0].label, "grandchild");
    assert!(!value.entries[0].has_children);
    assert!(!value.entries[0].running);
}

// ---------------------------------------------------------------------------
// Workspaces
// ---------------------------------------------------------------------------

fn workspace(id: &str, sessions: &[&str]) -> WorkspaceRecord {
    WorkspaceRecord {
        workspace_id: id.to_owned(),
        path: format!("/tmp/{id}"),
        title: id.to_owned(),
        session_ids: sessions.iter().map(|id| (*id).to_owned()).collect(),
        created_at: "created".to_owned(),
        updated_at: "updated".to_owned(),
    }
}

fn processor() -> WorkspaceProcessor {
    WorkspaceProcessor::new(WorkspaceStateView {
        workspaces: vec![workspace("a", &["s1", "s2"]), workspace("b", &[])],
        workspace_order: vec!["a".to_owned(), "b".to_owned()],
        archived_sessions: Vec::new(),
        session_ids: vec!["s1".to_owned(), "s2".to_owned()],
    })
}

#[test]
fn create_duplicate_is_a_receipted_noop_without_consuming_identity_or_time() {
    let mutation = processor().create(
        "/tmp/a".to_owned(),
        || panic!("duplicate create must not mint an id"),
        || panic!("duplicate create must not read the clock"),
    );
    assert!(mutation.control_events.is_empty());
    assert!(mutation.host_events.is_empty());
    match mutation.response {
        WorkspaceResponse::Workspace { workspace, created } => {
            assert_eq!(created, Some(false));
            assert_eq!(workspace.workspace_id, "a");
        }
        other => panic!("unexpected {other:?}"),
    }
}

#[test]
fn create_titles_by_directory_name_and_appends_to_order() {
    let mutation = processor().create("/srv/project/".to_owned(), || "w3".to_owned(), || "t".to_owned());
    match &mutation.response {
        WorkspaceResponse::Workspace { workspace, created } => {
            assert_eq!(*created, Some(true));
            assert_eq!(workspace.workspace_id, "w3");
            assert_eq!(workspace.title, "project");
            assert_eq!(workspace.created_at, "t");
            assert_eq!(workspace.updated_at, "t");
        }
        other => panic!("unexpected {other:?}"),
    }
    match &mutation.control_events[1] {
        ControlEvent::WorkspaceOrderSet { workspace_ids } => assert_eq!(workspace_ids, &["a", "b", "w3"]),
        other => panic!("unexpected {other:?}"),
    }
    assert_eq!(mutation.host_events.len(), 1);
    let root = processor().create("/".to_owned(), || "r".to_owned(), || "t".to_owned());
    match root.response {
        WorkspaceResponse::Workspace { workspace, .. } => assert_eq!(workspace.title, "/"),
        other => panic!("unexpected {other:?}"),
    }
}

#[test]
fn reorder_plan_is_deterministic_and_does_not_mutate_the_input_snapshot() {
    let processor = processor();
    let mutation = processor.insert_before("b", Some("a")).unwrap();
    match &mutation.response {
        WorkspaceResponse::WorkspaceIds { workspace_ids } => assert_eq!(workspace_ids, &["b", "a"]),
        other => panic!("unexpected {other:?}"),
    }
    assert_eq!(processor.state.workspace_order, ["a", "b"]);
    assert_eq!(mutation.host_events.len(), 1);
}

#[test]
fn reorder_rejects_bad_anchors() {
    let p = processor();
    assert_eq!(
        p.insert_before("a", Some("a")).unwrap_err(),
        WorkspaceError::WorkspaceMoveInvalid { workspace_id: "a".into(), before_workspace_id: "a".into() }
    );
    assert!(matches!(p.insert_before("a", Some("zzz")), Err(WorkspaceError::WorkspaceMoveInvalid { .. })));
    assert!(matches!(p.insert_before("zzz", None), Err(WorkspaceError::WorkspaceNotFound { .. })));
    match p.insert_before("a", None).unwrap().response {
        WorkspaceResponse::WorkspaceIds { workspace_ids } => assert_eq!(workspace_ids, ["b", "a"]),
        other => panic!("unexpected {other:?}"),
    }
}

#[test]
fn session_move_validates_before_producing_durable_or_host_events() {
    let error = processor()
        .insert_session_before("a", "missing", None, || "now".to_owned())
        .unwrap_err();
    assert!(matches!(error, WorkspaceError::SessionNotFound { .. }));

    let error = processor()
        .insert_session_before("a", "s1", Some("missing"), || "now".to_owned())
        .unwrap_err();
    assert!(matches!(error, WorkspaceError::SessionMoveInvalid { .. }));
}

#[test]
fn session_move_reorders_and_stamps_the_workspace() {
    let m = processor().insert_session_before("a", "s2", Some("s1"), || "now".to_owned()).unwrap();
    match m.response {
        WorkspaceResponse::Workspace { workspace, created } => {
            assert_eq!(created, None);
            assert_eq!(workspace.session_ids, ["s2", "s1"]);
            assert_eq!(workspace.updated_at, "now");
        }
        other => panic!("unexpected {other:?}"),
    }
}

#[test]
fn delete_rename_and_archive() {
    let p = processor();
    let m = p.delete("a").unwrap();
    match &m.host_events[1] {
        HostEvent::WorkspaceOrderChanged { workspace_ids } => assert_eq!(workspace_ids, &["b"]),
        other => panic!("unexpected {other:?}"),
    }
    assert!(matches!(p.delete("x"), Err(WorkspaceError::WorkspaceNotFound { .. })));

    let r = p.rename("b", "Bee".to_owned(), || "later".to_owned()).unwrap();
    match r.response {
        WorkspaceResponse::Workspace { workspace, .. } => {
            assert_eq!(workspace.title, "Bee");
            assert_eq!(workspace.updated_at, "later");
        }
        other => panic!("unexpected {other:?}"),
    }

    let a = p.archive_session("s2").unwrap();
    match a.response {
        WorkspaceResponse::ArchivedSessionIds { session_ids } => assert_eq!(session_ids, ["s2"]),
        other => panic!("unexpected {other:?}"),
    }
    let mut state = p.state.clone();
    state.archived_sessions = vec!["s2".to_owned()];
    let p2 = WorkspaceProcessor::new(state);
    match p2.archive_session("s1").unwrap().response {
        WorkspaceResponse::ArchivedSessionIds { session_ids } => assert_eq!(session_ids, ["s1", "s2"]),
        other => panic!("unexpected {other:?}"),
    }
    assert!(matches!(p2.archive_session("nope"), Err(WorkspaceError::SessionNotFound { .. })));
    let (items, archived) = p2.list();
    assert_eq!(items.len(), 2);
    assert_eq!(archived, ["s2"]);
}

// ---------------------------------------------------------------------------
// Presets, models, wire helpers, restore
// ---------------------------------------------------------------------------

#[test]
fn permission_presets_round_trip_and_describe_their_policy() {
    for preset in PermissionPreset::all() {
        assert_eq!(PermissionPreset::parse(preset.as_str()), Some(preset));
        assert_eq!(preset.sandbox_mode(), preset.as_str());
    }
    assert_eq!(PermissionPreset::default(), PermissionPreset::WorkspaceWrite);
    assert!(PermissionPreset::WorkspaceWrite.sandbox_enabled());
    assert!(!PermissionPreset::DangerFullAccess.sandbox_enabled());
    assert_eq!(PermissionPreset::WorkspaceWrite.approval_policy(), "ask");
    assert_eq!(PermissionPreset::DangerFullAccess.approval_policy(), "never");
    assert_eq!(PermissionPreset::parse("full"), None);
    let selection = ModelSelection::from_config("openai", "gpt");
    assert_eq!(selection.provider, "openai");
    assert!(selection.reasoning_effort.is_none());
}

#[test]
fn model_registry_validates_routes_and_keeps_order() {
    let mut registry: ModelRegistry<u32> = ModelRegistry::new();
    assert_eq!(registry.check_default_route(&ModelRoute::new("x", "y")), Ok(()));
    assert_eq!(registry.register(ModelDescriptor::new(" ", "P", "m", "M"), 1), Err(ModelRegistryError::EmptyRoute));
    assert_eq!(registry.register(ModelDescriptor::new("p", "P", "m", ""), 1), Err(ModelRegistryError::EmptyDisplayName));
    assert_eq!(registry.register(ModelDescriptor::new("p", "P", "m", "M"), 1), Ok(()));
    assert_eq!(registry.register(ModelDescriptor::new("q", "Q", "n", "N"), 2), Ok(()));
    assert_eq!(
        registry.register(ModelDescriptor::new("p", "Other", "m", "Other"), 3),
        Err(ModelRegistryError::DuplicateRoute { provider: "p".into(), model: "m".into() })
    );
    let models = registry.models();
    assert_eq!(models.len(), 2);
    assert_eq!(models[0].route(), ModelRoute::new("p", "m"));
    assert!(registry.can_route(&ModelRoute::new("q", "n")));
    assert!(!registry.can_route(&ModelRoute::new("q", "m")));
    assert_eq!(registry.resolve(&ModelRoute::new("q", "n")), Some(&2));
    assert_eq!(
        registry.check_default_route(&ModelRoute::new("z", "z")),
        Err(ModelRegistryError::DefaultRouteUnavailable { provider: "z".into(), model: "z".into() })
    );
    assert_eq!(AgentResumeReport::default().pending_turns, 0);
}

#[test]
fn slash_commands_need_a_separator() {
    assert_eq!(permission_command_input("/permission"), Some(""));
    assert_eq!(permission_command_input("/permission danger-full-access"), Some(" danger-full-access"));
    assert_eq!(permission_command_input("/permissions"), None);
    assert_eq!(permission_command_input("permission"), None);
    assert_eq!(plan_command_input("/plan\tdo it"), Some("\tdo it"));
    assert_eq!(plan_command_input("/planner"), None);
    assert_eq!(plan_command_input("/pl"), None);
}

#[test]
fn directory_names_are_single_normal_components() {
    assert!(valid_directory_name("project"));
    assert!(valid_directory_name(".hidden"));
    for bad in ["", "  ", "a/b", "a\\b", "a\0b", ".", ".."] {
        assert!(!valid_directory_name(bad), "{bad:?}");
    }
}

#[test]
fn win32_aliases_are_refused_only_where_backslash_separates() {
    let windows = std::path::is_separator('\\');
    for alias in ["con", "Nul.txt", "aux .log", "com1", "LPT\u{b9}", "conin$", "name.", "name ", "a:b", "a?", "tab\tname"] {
        assert_eq!(valid_directory_name(alias), !windows, "{alias:?}");
    }
    for fine in ["console", "com0", "lpt10", "con-notes", "x.con"] {
        assert!(valid_directory_name(fine), "{fine:?}");
    }
}

#[test]
fn wire_helpers() {
    assert_eq!(nonempty("x".to_owned(), "title"), Ok("x".to_owned()));
    assert_eq!(
        nonempty(" \n".to_owned(), "title"),
        Err(WireError::BadRequest { message: "title must not be blank".to_owned() })
    );
    assert_eq!(stream_id("turn", 1700, 42), "turn-1700-42");
    assert_eq!(hex_lower(&[0x00, 0xab, 0x7f]), "00ab7f");
    assert_eq!(
        fingerprint_hex(b"abc"),
        "ba7816bf8f01cfea414140de5dae2223b00361a396177a9cb410ff61f20015ad"
    );
    assert_eq!(fingerprint_hex(b"").len(), 64);
}

#[test]
fn restore_helpers() {
    assert_eq!(web_turn(0), 0);
    assert_eq!(web_turn(1), 0);
    assert_eq!(web_turn(7), 6);
    let report = HostRestoreReport::default();
    assert_eq!(report.discovered_sessions, 0);
    assert!(report.issues.is_empty());
}

#[test]
fn host_seeds_the_coding_preset_and_default_workspace() {
    let preset = xharness::state::AgentPreset::coding();
    assert_eq!(preset.id, "coding");
    assert!(preset.is_default);
    assert_eq!(preset.name.as_deref(), Some("Coding Agent"));
    let w = xharness::workspaces::default_workspace("/home/user/project", "17");
    assert_eq!(w.workspace_id, "workspace-default");
    assert_eq!(w.title, "project");
    assert_eq!(w.created_at, "17");
    assert_eq!(w.updated_at, "17");
    assert!(w.session_ids.is_empty());
    assert_eq!(xharness::workspaces::default_workspace("/", "0").title, "/");
}

#[test]
fn restored_session_joins_the_workspace_of_its_directory_once() {
    let mut state = processor().state;
    attach_workspace(&mut state, "s9", "/tmp/b", 42);
    attach_workspace(&mut state, "s9", "/tmp/b", 43);
    attach_workspace(&mut state, "s1", "/tmp/a", 44);
    assert_eq!(state.workspaces.len(), 2);
    assert_eq!(state.workspaces[1].session_ids, vec!["s9".to_owned()]);
    assert_eq!(state.workspaces[1].updated_at, "43");
    assert_eq!(state.workspaces[1].created_at, "created");
    assert_eq!(state.workspaces[0].session_ids, vec!["s1".to_owned(), "s2".to_owned()]);
    assert_eq!(state.workspaces[0].updated_at, "44");
    assert_eq!(state.workspace_order, vec!["a".to_owned(), "b".to_owned()]);
}

#[test]
fn restored_session_without_a_workspace_recovers_one_under_a_fresh_id() {
    let mut state = processor().state;
    state.workspaces.push(workspace("workspace-recovered-2", &[]));
    attach_workspace(&mut state, "s7", "/srv/project/", 1700);
    let ids: Vec<&str> = state.workspaces.iter().map(|w| w.workspace_id.as_str()).collect();
    assert_eq!(ids, vec!["a", "b", "workspace-recovered-2", "workspace-recovered-3"]);
    let recovered = &state.workspaces[3];
    assert_eq!(recovered.path, "/srv/project/");
    assert_eq!(recovered.title, "project");
    assert_eq!(recovered.session_ids, vec!["s7".to_owned()]);
    assert_eq!(recovered.created_at, "1700");
    assert_eq!(recovered.updated_at, "1700");
    assert_eq!(state.workspace_order.last().map(String::as_str), Some("workspace-recovered-3"));

    let mut state = processor().state;
    state.workspaces.push(workspace("workspace-recovered-4", &[]));
    state.workspaces.push(workspace("workspace-recovered-4x", &[]));
    attach_workspace(&mut state, "s8", "/", 5);
    let ids: Vec<&str> = state.workspaces.iter().map(|w| w.workspace_id.as_str()).collect();
    assert_eq!(
        ids,
        vec!["a", "b", "workspace-recovered-4", "workspace-recovered-4x", "workspace-recovered-4xx"]
    );
    assert_eq!(state.workspaces[4].title, "/");
}

#[test]
fn recovered_workspace_is_placed_by_id() {
    let mut state = WorkspaceStateView {
        workspaces: vec![workspace("zz", &[])],
        workspace_order: vec!["zz".to_owned()],
        archived_sessions: Vec::new(),
        session_ids: Vec::new(),
    };
    attach_workspace(&mut state, "s1", "/home/me/code", 9);
    let ids: Vec<&str> = state.workspaces.iter().map(|w| w.workspace_id.as_str()).collect();
    assert_eq!(ids, vec!["workspace-recovered-1", "zz"]);
    assert_eq!(state.workspace_order, vec!["zz".to_owned(), "workspace-recovered-1".to_owned()]);
    assert_eq!(state.workspaces[0].title, "code");
}

#[test]
fn restore_counts_sessions_and_resumes_only_those_with_pending_work() {
    let mut report = HostRestoreReport::default();
    assert!(!report.record_restored(2, 0, 0));
    assert!(report.record_restored(0, 1, 0));
    assert!(report.record_restored(1, 0, 3));
    assert_eq!(report.restored_sessions, 3);
    assert_eq!(report.waiting_next_step_inputs, 3);
    assert!(report.issues.is_empty());
}

#[test]
fn restore_accounts_for_each_resume_answer() {
    let mut report = HostRestoreReport::default();
    let attached = |turns: usize, work: Option<&str>| AgentResumeReport {
        pending_turns: turns,
        pending_next_step: 0,
        recovered_approval_work_id: work.map(str::to_owned),
    };
    assert_eq!(
        report.record_resume("s1".to_owned(), 2, 0, Ok(attached(2, None))),
        Ok(ResumeStep::DriveSession)
    );
    assert_eq!(
        report.record_resume("s2".to_owned(), 1, 1, Ok(attached(1, Some("w7")))),
        Ok(ResumeStep::DriveRecovered { work_id: "w7".to_owned() })
    );
    assert_eq!(report.resumed_pending_turns, 3);
    assert_eq!(report.resumed_pending_approvals, 1);
    assert_eq!(
        report.record_resume("s3".to_owned(), 0, 2, Ok(attached(0, None))),
        Ok(ResumeStep::Skip)
    );
    assert_eq!(
        report.record_resume("s4".to_owned(), 1, 0, Err("model route is gone".to_owned())),
        Ok(ResumeStep::Skip)
    );
    assert_eq!(
        report.issues,
        vec![
            HostRestoreIssue {
                session_id: "s3".to_owned(),
                message: "runtime did not attach the durable pending approval".to_owned(),
            },
            HostRestoreIssue { session_id: "s4".to_owned(), message: "model route is gone".to_owned() },
        ]
    );
    let before = report.clone();
    assert_eq!(
        report.record_resume("s5".to_owned(), 2, 0, Ok(attached(1, None))),
        Err(ResumeMismatch { session_id: "s5".to_owned(), runtime_count: 1, projected_count: 2 })
    );
    assert_eq!(report, before);
}

#[test]
fn fork_keeps_events_through_the_chosen_sequence() {
    assert_eq!(fork_keep(None, 0, 7), 7);
    assert_eq!(fork_keep(Some(2), 0, 7), 3);
    assert_eq!(fork_keep(Some(40), 0, 7), 7);
    assert_eq!(fork_keep(Some(12), 10, 7), 3);
    assert_eq!(fork_keep(Some(5), 10, 7), 0);
    assert_eq!(fork_keep(Some(u64::MAX), 3, 7), 7);
}

#[test]
fn fork_is_listed_first_in_the_source_workspace() {
    let mut workspaces = vec![workspace("a", &["s1"]), workspace("b", &["s2", "s3"]), workspace("c", &["s3"])];
    assert_eq!(list_fork(&mut workspaces, "s3", "child", "99".to_owned()), Some(1));
    assert_eq!(workspaces[1].session_ids, vec!["child".to_owned(), "s2".to_owned(), "s3".to_owned()]);
    assert_eq!(workspaces[1].updated_at, "99");
    assert_eq!(workspaces[2].session_ids, vec!["s3".to_owned()]);
    assert_eq!(list_fork(&mut workspaces, "nobody", "child2", "100".to_owned()), None);
    assert_eq!(workspaces[0].session_ids, vec!["s1".to_owned()]);
}

fn workspace_fields(state: &WorkspaceStateView) -> Vec<(String, String, String, Vec<String>, String, String)> {
    state
        .workspaces
        .iter()
        .map(|w| {
            (
                w.workspace_id.clone(),
                w.path.clone(),
                w.title.clone(),
                w.session_ids.clone(),
                w.created_at.clone(),
                w.updated_at.clone(),
            )
        })
        .collect()
}

#[test]
fn attaching_the_same_session_again_changes_nothing() {
    for cwd in ["/tmp/a", "/srv/elsewhere"] {
        let mut state = processor().state;
        attach_workspace(&mut state, "s5", cwd, 77);
        let once = (workspace_fields(&state), state.workspace_order.clone());
        attach_workspace(&mut state, "s5", cwd, 77);
        assert_eq!((workspace_fields(&state), state.workspace_order.clone()), once);
    }
}

#[test]
fn fork_child_copies_its_source_and_needs_history() {
    let source = ForkSource {
        cwd: "/tmp/a".to_owned(),
        agent_preset: Some("coding".to_owned()),
        title: Some("Plan".to_owned()),
        model: ModelSelection::from_config("prov", "mod"),
        permission_preset: PermissionPreset::DangerFullAccess,
        next_turn: 4,
    };
    let child = fork_child("s1".to_owned(), source.clone(), "s2".to_owned(), 50, 3).unwrap();
    assert_eq!((child.session_id.as_str(), child.parent_session_id.as_str()), ("s2", "s1"));
    assert_eq!((child.created_at, child.updated_at, child.kept_events), (50, 50, 3));
    assert!(!child.running && !child.blank && child.origin.is_none());
    assert_eq!(child.source.cwd, "/tmp/a");
    assert_eq!(child.source.title.as_deref(), Some("Plan"));
    assert_eq!(child.source.model.model, "mod");
    assert_eq!(child.source.permission_preset, PermissionPreset::DangerFullAccess);
    assert_eq!(child.source.next_turn, 4);
    assert_eq!(
        fork_child("s1".to_owned(), source, "s3".to_owned(), 50, 0).unwrap_err(),
        ForkUnavailable { session_id: "s1".to_owned() }
    );
}
