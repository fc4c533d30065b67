use baijimu_connector_codex::catalog::{
    fallback_requirement, parse_release_tag, protocol_floor, protocol_minimum, release_version_text,
    requirement_from_cache, requirement_fresh, requirement_from_manifest, CatalogError, ManifestIdentity,
    PersistedCatalog,
};
use baijimu_connector_codex::invoke::{
    approval_route, codex_call, codex_invoke_route, codex_param_keys, follower_call, params_plan, FollowerParams, TurnFields, TurnOp, CodexCall, CodexFields, CodexRefusal, continue_scan, desktop_invoke_route, index_page, index_query, input,
    require_request_turn, required, steer_turn_check, thread_scan_plan, CodexInvoke, CursorField, DesktopInvoke,
    Elements, IndexQuery, InputItem, InputPlan, InvalidCursor, InvokeError, ThreadScan, TurnInput,
};
use baijimu_connector_codex::projects::{
    array_strings, collect_state_changes, parse_json_document, normalize_project_path, normalize_state_project_path,
    parse_codex_project_config, project_page, resolve_state_project_references, state_project_roots, thread_change,
    unique_state_project_roots,
    unique_strings, Assignment, Change, LocalProject, ProjectCatalog, StateProjectRoot,
};

#[test]
fn parses_codex_release_tags_as_semver() {
    assert_eq!(parse_release_tag("rust-v0.149.0").unwrap(), protocol_minimum());
    assert_eq!(parse_release_tag("rust-v0.149.0").unwrap().parts(), release(0, 149, 0));
    assert_eq!(
        parse_release_tag("rust-v0.150.0-alpha.1").unwrap().parts(),
        (0, 150, 0, "alpha.1".to_string(), String::new())
    );
    assert!(parse_release_tag("nightly").is_none());
}

#[test]
fn protocol_floor_covers_paginated_thread_history() {
    assert_eq!(protocol_minimum().parts(), release(0, 149, 0));
}

fn release(major: u64, minor: u64, patch: u64) -> (u64, u64, u64, String, String) {
    (major, minor, patch, String::new(), String::new())
}

fn manifest(tag: &str) -> ManifestIdentity {
    ManifestIdentity {
        schema_version: 4,
        manifest_kind: "baijimu.codex.customer-install-artifacts".to_string(),
        snapshot_id: "fixture-snapshot".to_string(),
        codex_cli_tag: tag.to_string(),
    }
}

#[test]
fn validated_catalog_cannot_lower_the_protocol_floor() {
    let requirement = requirement_from_manifest(manifest("rust-v0.100.0")).unwrap();
    assert_eq!(requirement.target.parts(), release(0, 149, 0));
    assert_eq!(requirement.snapshot_id.as_deref(), Some("fixture-snapshot"));
    assert_eq!(requirement.source, "artifact_catalog");
    let newer = requirement_from_manifest(manifest("v0.200.1")).unwrap();
    assert_eq!(newer.target.parts(), release(0, 200, 1));
    let mut old_schema = manifest("v1.0.0");
    old_schema.schema_version = 3;
    assert_eq!(requirement_from_manifest(old_schema).unwrap_err(), CatalogError::UnsupportedSchema(3));
    let mut blank = manifest("v1.0.0");
    blank.snapshot_id = " ".to_string();
    assert_eq!(requirement_from_manifest(blank).unwrap_err(), CatalogError::InvalidIdentity);
    assert_eq!(
        requirement_from_manifest(manifest("nightly")).unwrap_err(),
        CatalogError::InvalidTag("nightly".to_string())
    );
    assert_eq!(release_version_text("  rust-v1.2.3 "), "1.2.3");
    assert_eq!(release_version_text("v1.2.3"), "1.2.3");
}

#[test]
fn cached_catalog_and_fallbacks() {
    let cached = requirement_from_cache(PersistedCatalog {
        schema_version: 1,
        snapshot_id: "s".to_string(),
        target_version: "0.160.0".to_string(),
    })
    .unwrap();
    assert_eq!(cached.target.parts(), release(0, 160, 0));
    assert_eq!(cached.source, "verified_cache");
    assert!(requirement_from_cache(PersistedCatalog {
        schema_version: 2,
        snapshot_id: "s".to_string(),
        target_version: "0.160.0".to_string(),
    })
    .is_none());
    let floor = protocol_floor(Some("offline".to_string()));
    assert_eq!((floor.source, floor.warning.as_deref()), ("protocol_floor", Some("offline")));
    let fallback = fallback_requirement(Some(cached), "down".to_string());
    assert_eq!((fallback.source, fallback.warning.as_deref()), ("verified_cache", Some("down")));
    assert!(requirement_fresh(100, false));
    assert!(!requirement_fresh(300, false));
    assert!(requirement_fresh(21599, true));
}

#[test]
fn invocation_paths_name_operations() {
    assert_eq!(codex_invoke_route("/invoke/listSessions"), CodexInvoke::ListThreads);
    assert_eq!(codex_invoke_route("/invoke/request"), CodexInvoke::Request);
    assert_eq!(codex_invoke_route("/invoke/other"), CodexInvoke::Unknown);
    assert_eq!(desktop_invoke_route("/invoke/searchThreads"), DesktopInvoke::ListThreads);
    assert_eq!(desktop_invoke_route("/invoke/readThreadItem"), DesktopInvoke::History);
    assert_eq!(desktop_invoke_route("/invoke/listApps"), DesktopInvoke::Unsupported);
    assert_eq!(
        thread_scan_plan(None, Some(900), Some(0)),
        Some(ThreadScan { max_pages: 500, page_limit: 1 })
    );
    assert_eq!(thread_scan_plan(Some(false), None, None), None);
    let scan = ThreadScan { max_pages: 2, page_limit: 10 };
    assert!(continue_scan(scan, 1, true, false));
    assert!(!continue_scan(scan, 2, true, false));
    assert!(!continue_scan(scan, 1, false, false));
    assert!(!continue_scan(scan, 1, true, true));
}

#[test]
fn text_input_is_complete_for_desktop_rendering() {
    assert_eq!(input(TurnInput::Text("确认".to_string())), Ok(InputPlan::SingleText("确认".to_string())));
    assert_eq!(
        input(TurnInput::Items(vec![InputItem::Text { text_is_string: true, elements: Elements::Absent }])),
        Ok(InputPlan::Items(vec![0]))
    );
}

#[test]
fn input_preserves_annotations_and_other_content() {
    let items = vec![
        InputItem::Text { text_is_string: true, elements: Elements::List },
        InputItem::Other,
        InputItem::Text { text_is_string: true, elements: Elements::List },
    ];
    assert_eq!(input(TurnInput::Items(items)), Ok(InputPlan::Items(Vec::new())));
}

#[test]
fn invalid_text_input_is_rejected_before_ipc() {
    for (items, error) in [
        (vec![InputItem::NotObject], InvokeError::InputNotObject(0)),
        (vec![InputItem::Text { text_is_string: false, elements: Elements::Absent }], InvokeError::TextNotString(0)),
        (vec![InputItem::Text { text_is_string: true, elements: Elements::Other }], InvokeError::ElementsNotList(0)),
    ] {
        assert_eq!(input(TurnInput::Items(items)), Err(error));
    }
    assert_eq!(input(TurnInput::Items(Vec::new())), Err(InvokeError::InputRequired));
    assert_eq!(input(TurnInput::Text(String::new())), Err(InvokeError::InputRequired));
    assert_eq!(input(TurnInput::Missing), Err(InvokeError::InputRequired));
}

#[test]
fn approval_requires_matching_request_turn() {
    assert!(require_request_turn(Some("turn-a".to_string()), "turn-a").is_ok());
    assert_eq!(require_request_turn(Some("turn-a".to_string()), "turn-b"), Err(InvokeError::TurnMismatch));
    assert!(require_request_turn(None, "turn-a").is_err());
    assert_eq!(
        approval_route("item/fileChange/requestApproval"),
        Ok(("thread-follower-file-approval-decision", true))
    );
    assert_eq!(
        approval_route("item/tool/requestUserInput"),
        Ok(("thread-follower-submit-user-input", false))
    );
    assert_eq!(approval_route("other"), Err(InvokeError::UnsupportedRequest));
    assert_eq!(steer_turn_check(true), Err(InvokeError::SteerTurnIdUnsupported));
    assert_eq!(required(Some(String::new()), "threadId"), Err(InvokeError::Required("threadId".to_string())));
    assert_eq!(required(Some("t".to_string()), "threadId"), Ok("t".to_string()));
}

#[test]
fn index_queries_are_paged_with_one_extra_row() {
    let query = index_query(Some(1), CursorField::Absent, false, false).unwrap();
    assert_eq!(query, IndexQuery { limit: 1, offset: 0, ascending: false, by_created: false });
    assert_eq!(index_page(query, 2), (1, Some("1".to_string())));
    assert_eq!(index_page(query, 1), (1, None));
    let second = index_query(None, CursorField::Text("50".to_string()), true, true).unwrap();
    assert_eq!((second.limit, second.offset), (50, 50));
    assert_eq!(index_query(None, CursorField::Text("-1".to_string()), false, false), Err(InvalidCursor));
    assert_eq!(index_query(None, CursorField::Other, false, false), Err(InvalidCursor));
}

fn strings(values: &[&str]) -> Vec<String> {
    values.iter().map(|v| v.to_string()).collect()
}

#[test]
fn resolves_current_project_ids_and_keeps_legacy_paths() {
    let local_root = "/tmp/codex-current-project";
    let assigned_root = "/tmp/codex-assigned-project";
    let legacy_root = "/tmp/codex-legacy-project";
    let locals = vec![LocalProject {
        key: "local-current".to_string(),
        id: Some("local-current".to_string()),
        name: Some("Current Project".to_string()),
        root_paths: strings(&[local_root]),
    }];
    let assignments = vec![Assignment {
        project_id: Some("remote-project-id".to_string()),
        cwd: Some(assigned_root.to_string()),
    }];
    let known = state_project_roots(&locals, &assignments, "/home/c");
    let resolved = resolve_state_project_references(
        &known,
        &strings(&["local-current", "remote-project-id", "local-unresolved", legacy_root]),
        "/home/c",
    );
    assert_eq!(resolved.len(), 3);
    assert_eq!(resolved[0].path, local_root);
    assert_eq!(resolved[0].project_id.as_deref(), Some("local-current"));
    assert_eq!(resolved[0].project_name.as_deref(), Some("Current Project"));
    assert_eq!(resolved[1].path, assigned_root);
    assert_eq!(resolved[1].project_id.as_deref(), Some("remote-project-id"));
    assert_eq!(resolved[2].path, legacy_root);
    assert_eq!(resolved[2].project_id, None);
}

#[test]
fn project_paths_are_normalised() {
    assert_eq!(normalize_state_project_path(" ~/work ", "/home/c").as_deref(), Some("/home/c/work"));
    assert_eq!(normalize_state_project_path("~", "/home/c").as_deref(), Some("/home/c"));
    assert_eq!(normalize_state_project_path("relative", "/home/c"), None);
    assert_eq!(normalize_state_project_path("   ", "/home/c"), None);
    assert_eq!(normalize_project_path("src", "/home/c", "/cwd").as_deref(), Some("/cwd/src"));
    assert_eq!(normalize_project_path("~//etc", "/home/c", "/cwd").as_deref(), Some("/etc"));
    assert_eq!(unique_strings(strings(&["a", " ", "b", "a"])), strings(&["a", "b"]));
    assert_eq!(array_strings(strings(&["a", " ", ""])), strings(&["a"]));
}

#[test]
fn codex_config_lists_trusted_projects() {
    let config = "model = \"x\"\n[projects.\"/srv/a\"]\ntrust_level = \"trusted\"\n[projects.\"~/b\\\"q\"]\r\n  trust_level=untrusted \n[other]\ntrust_level = \"kept\"\n";
    let trusted = parse_codex_project_config(config, "/home/c", "/cwd");
    let got: Vec<(String, String)> = trusted.into_iter().map(|t| (t.path, t.trust_level)).collect();
    assert_eq!(
        got,
        vec![
            ("/srv/a".to_string(), "trusted".to_string()),
            ("/home/c/b\"q".to_string(), "untrusted".to_string()),
            ("/home/c/b\"q".to_string(), "kept".to_string()),
        ]
    );
}

fn root(path: &str, name: Option<&str>) -> StateProjectRoot {
    StateProjectRoot {
        path: path.to_string(),
        project_id: Some(format!("id-{path}")),
        project_name: name.map(|n| n.to_string()),
        root_paths: strings(&[path]),
    }
}

#[test]
fn project_listing_orders_pins_saved_and_titles() {
    let saved = vec![root("/p/saved-b", None), root("/p/saved-a", None)];
    let pinned = vec![root("/p/pinned", Some("Pinned"))];
    let changes = collect_state_changes(&saved, &Vec::new(), &pinned, &Vec::new(), true, true);
    let mut catalog = ProjectCatalog::new();
    catalog.apply_all(&changes);
    let (path, change) = thread_change("/p/zeta", Some("\"2024\"".to_string()), "/home", "/").unwrap();
    catalog.apply(&path, &change);
    catalog.apply(&path, &Change::Thread(None));
    catalog.apply(&"/p/alpha".to_string(), &Change::Trusted("trusted".to_string()));
    let order = strings(&["/p/saved-b", "/p/saved-a"]);
    let page = project_page(catalog, &order, "", false, 0, None);
    let paths: Vec<&str> = page.items.iter().map(|e| e.path.as_str()).collect();
    assert_eq!(paths, vec!["/p/pinned", "/p/saved-b", "/p/saved-a", "/p/alpha", "/p/zeta"]);
    assert_eq!(page.total, 5);
    assert_eq!(page.next_cursor, None);
    let zeta = &page.items[4];
    assert_eq!((zeta.session_count, zeta.last_active_at.as_deref()), (2, Some("\"2024\"")));
    assert_eq!(zeta.title, "zeta");
    assert_eq!(page.items[0].title, "Pinned");
    assert!(page.items[0].pinned);
    assert_eq!(page.items[3].sources, strings(&["trusted"]));
}

#[test]
fn project_listing_filters_and_pages() {
    let mut catalog = ProjectCatalog::new();
    for name in ["/w/Alpha", "/w/beta", "/w/gamma"] {
        catalog.apply(&name.to_string(), &Change::Trusted("t".to_string()));
    }
    let found = project_page(catalog, &Vec::new(), "ALP", false, 0, None);
    assert_eq!(found.items.len(), 1);
    assert_eq!(found.items[0].path, "/w/Alpha");
    let mut catalog = ProjectCatalog::new();
    for name in ["/w/a", "/w/b", "/w/c"] {
        catalog.apply(&name.to_string(), &Change::Trusted("t".to_string()));
    }
    let page = project_page(catalog, &Vec::new(), "", false, 1, Some(1));
    assert_eq!(page.items[0].path, "/w/b");
    assert_eq!(page.next_cursor, Some(2));
    assert_eq!(page.total, 3);
    let mut catalog = ProjectCatalog::new();
    catalog.apply(&"/w/a".to_string(), &Change::Trusted("t".to_string()));
    let none = project_page(catalog, &Vec::new(), "", true, 0, None);
    assert_eq!(none.total, 0);
}

fn codex_fields() -> CodexFields {
    CodexFields {
        search_term: None,
        params_search_term: None,
        thread_id: None,
        params_thread_id: None,
        thread_id_param: None,
        has_unread_turn: None,
        input: false,
        method: None,
    }
}

fn rpc(method: &str, thread_id: Option<&str>, recent_events: bool) -> CodexCall {
    CodexCall::Rpc { method: method.to_string(), thread_id: thread_id.map(str::to_string), recent_events }
}

#[test]
fn codex_operations_check_their_required_fields() {
    let required = |key: &str| Err(CodexRefusal::Required(key.to_string()));
    assert_eq!(codex_call(CodexInvoke::SearchThreads, codex_fields()), required("searchTerm"));
    let empty_term = CodexFields { search_term: Some(String::new()), ..codex_fields() };
    assert_eq!(codex_call(CodexInvoke::SearchThreads, empty_term), required("searchTerm"));
    let nested_term = CodexFields { params_search_term: Some(String::new()), ..codex_fields() };
    assert_eq!(codex_call(CodexInvoke::SearchThreads, nested_term), Ok(rpc("thread/search", None, false)));
    assert_eq!(codex_call(CodexInvoke::ReadThread, codex_fields()), required("threadId"));
    let nested_thread = CodexFields { params_thread_id: Some("t-2".to_string()), ..codex_fields() };
    assert_eq!(codex_call(CodexInvoke::ReadThread, nested_thread), Ok(rpc("thread/read", Some("t-2"), false)));
    let both = CodexFields {
        thread_id: Some("t-1".to_string()),
        params_thread_id: Some("t-2".to_string()),
        ..codex_fields()
    };
    assert_eq!(codex_call(CodexInvoke::ReadThread, both), Ok(rpc("thread/read", Some("t-1"), false)));
    let thread_only = CodexFields { thread_id: Some("t-1".to_string()), ..codex_fields() };
    assert_eq!(codex_call(CodexInvoke::StartTurn, thread_only), required("input"));
    let turn = CodexFields { thread_id: Some("t-1".to_string()), input: true, ..codex_fields() };
    assert_eq!(codex_call(CodexInvoke::StartTurn, turn), Ok(rpc("turn/start", Some("t-1"), true)));
    assert_eq!(codex_call(CodexInvoke::SteerTurn, codex_fields()), required("input"));
    assert_eq!(codex_call(CodexInvoke::Request, codex_fields()), required("method"));
    let method = CodexFields { method: Some("config/read".to_string()), ..codex_fields() };
    assert_eq!(codex_call(CodexInvoke::Request, method), Ok(rpc("config/read", None, true)));
    let read_state = CodexFields { thread_id_param: Some("t-1".to_string()), ..codex_fields() };
    assert_eq!(codex_call(CodexInvoke::SetThreadReadState, read_state), required("hasUnreadTurn"));
    let read_state = CodexFields {
        thread_id_param: Some("t-1".to_string()),
        has_unread_turn: Some(false),
        ..codex_fields()
    };
    assert_eq!(
        codex_call(CodexInvoke::SetThreadReadState, read_state),
        Ok(CodexCall::ReadState { thread_id: "t-1".to_string(), has_unread_turn: false })
    );
    assert_eq!(codex_call(CodexInvoke::ListThreadTurns, codex_fields()), Ok(CodexCall::NoTurns));
    assert_eq!(codex_call(CodexInvoke::ListThreads, codex_fields()), Ok(rpc("thread/list", None, false)));
    assert_eq!(codex_call(CodexInvoke::InterruptTurn, codex_fields()), Ok(rpc("turn/interrupt", None, true)));
    assert_eq!(codex_call(CodexInvoke::Status, codex_fields()), Ok(CodexCall::Local));
    assert_eq!(codex_call(CodexInvoke::Unknown, codex_fields()), Err(CodexRefusal::UnknownPath));
}

#[test]
fn operations_copy_their_own_keys_into_the_parameters() {
    assert_eq!(codex_param_keys(CodexInvoke::ReadThread), vec!["threadId", "includeTurns"]);
    assert_eq!(codex_param_keys(CodexInvoke::InterruptTurn), vec!["threadId", "turnId"]);
    assert_eq!(codex_param_keys(CodexInvoke::ListThreads).len(), 10);
    assert!(codex_param_keys(CodexInvoke::Request).is_empty());
}

#[test]
fn catalog_target_follows_semver_precedence() {
    let pre_release_of_floor = requirement_from_manifest(manifest("rust-v0.149.0-alpha.2")).unwrap();
    assert_eq!(pre_release_of_floor.target.parts(), release(0, 149, 0));
    let later_pre_release = requirement_from_manifest(manifest("rust-v0.150.0-alpha.1")).unwrap();
    assert_eq!(later_pre_release.target.parts(), (0, 150, 0, "alpha.1".to_string(), String::new()));
}

fn turn_fields(thread: Option<&str>, turn: Option<&str>, input: TurnInput) -> TurnFields {
    TurnFields {
        thread_id: thread.map(str::to_string),
        turn_id: turn.map(str::to_string),
        has_turn_id: turn.is_some(),
        input,
        has_model: false,
        has_cwd: true,
    }
}

#[test]
fn follower_requests_carry_the_desktop_method_and_version() {
    let start = follower_call(TurnOp::Start, turn_fields(Some("t"), None, TurnInput::Text("hi".to_string()))).unwrap();
    assert_eq!((start.thread_id.as_str(), start.method, start.version), ("t", "thread-follower-start-turn", 2));
    assert!(matches!(
        start.params,
        FollowerParams::StartTurn { input: InputPlan::SingleText(ref text), model: false, cwd: true } if text == "hi"
    ));
    let steer = follower_call(TurnOp::Steer, turn_fields(Some("t"), None, TurnInput::Text("more".to_string()))).unwrap();
    assert_eq!((steer.method, steer.version), ("thread-follower-steer-turn", 1));
    assert_eq!(
        follower_call(TurnOp::Steer, turn_fields(Some("t"), Some("u"), TurnInput::Text("x".to_string()))).unwrap_err(),
        InvokeError::SteerTurnIdUnsupported
    );
    let stop = follower_call(TurnOp::Interrupt, turn_fields(Some("t"), Some("u"), TurnInput::Missing)).unwrap();
    assert_eq!((stop.method, stop.version), ("thread-follower-interrupt-turn", 4));
    assert!(matches!(stop.params, FollowerParams::InterruptTurn { ref expected_turn_id } if expected_turn_id == "u"));
    assert_eq!(
        follower_call(TurnOp::Interrupt, turn_fields(Some("t"), None, TurnInput::Missing)).unwrap_err(),
        InvokeError::Required("turnId".to_string())
    );
    assert_eq!(
        follower_call(TurnOp::Start, turn_fields(None, None, TurnInput::Text("x".to_string()))).unwrap_err(),
        InvokeError::Required("threadId".to_string())
    );
    assert_eq!(
        follower_call(TurnOp::Start, turn_fields(Some("t"), None, TurnInput::Missing)).unwrap_err(),
        InvokeError::InputRequired
    );
}

#[test]
fn parameter_plans_follow_the_operation() {
    let start = params_plan(CodexInvoke::StartTurn);
    assert!(start.merge && start.text_as_item && !start.default_sort);
    assert_eq!(start.keys, vec!["model", "cwd", "input"]);
    let list = params_plan(CodexInvoke::ListThreads);
    assert!(list.default_sort && !list.text_as_item);
    let raw = params_plan(CodexInvoke::Request);
    assert!(!raw.merge && raw.keys.is_empty());
}

#[test]
fn reads_global_state_json_with_utf8_bom() {
    let content = "\u{feff}{\"projects\":[\"one\"]}";
    let expected: serde_json::Value = serde_json::from_str("{\"projects\": [\"one\"]}").unwrap();
    assert_eq!(parse_json_document(content.as_bytes()), Some(expected.clone()));
    assert_eq!(parse_json_document(b"{\"projects\":[\"one\"]}"), Some(expected));
    assert_eq!(parse_json_document(b"\xef\xbb\xbfnot json"), None);
}

#[test]
fn unique_roots_keep_the_first_root_of_each_path_in_order() {
    let roots = vec![
        root("/b", Some("first b")),
        root("/a", Some("first a")),
        root("/b", Some("second b")),
        root("/c", None),
        root("/a", Some("second a")),
    ];
    let unique = unique_state_project_roots(roots);
    let seen: Vec<(&str, Option<&str>)> =
        unique.iter().map(|r| (r.path.as_str(), r.project_name.as_deref())).collect();
    assert_eq!(seen, vec![("/b", Some("first b")), ("/a", Some("first a")), ("/c", None)]);
}
