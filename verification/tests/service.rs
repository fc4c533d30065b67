use baijimu_connector_codex::request_schema::{
    validate_request, BodyEntry, InputSchema, JsonKind, PropertyRule, RequestRefusal, TypeRule,
};
use baijimu_connector_codex::server::{
    cli_unavailable, decide_setup_readiness, gate_refusal, verified_connector_pid, StopRefusal, find_headers_end, invoke_gate, management_authorized, management_gate, management_route,
    parse_http_head, readiness_report, reason_phrase, retry_workspace, route_request, workspace_credential_available,
    CliGate, InvalidWorkspaceHeader, InvokeGate, ManagementRoute, Route, SetupReadinessDecision, SetupStatus,
    StartupPhase, StartupSnapshot,
};

fn setup_status(status: &str, workspace_id: Option<u64>) -> SetupStatus {
    SetupStatus {
        status: status.to_string(),
        workspace_id,
        message: status.to_string(),
        error: if status == "failed" { Some("installer failed".to_string()) } else { None },
        retryable: matches!(status, "failed" | "interrupted" | "needs_retry"),
        automatic_retry_count: 0,
    }
}

#[test]
fn automatic_setup_readiness_covers_install_repair_and_manual_retry_states() {
    assert_eq!(
        decide_setup_readiness(&setup_status("pending", None), Some(642), true, false),
        SetupReadinessDecision::Start(642)
    );
    assert_eq!(
        decide_setup_readiness(&setup_status("succeeded", Some(642)), Some(642), true, true,),
        SetupReadinessDecision::Ready
    );
    assert_eq!(
        decide_setup_readiness(&setup_status("succeeded", Some(642)), Some(642), true, false,),
        SetupReadinessDecision::Start(642)
    );
    assert_eq!(
        decide_setup_readiness(&setup_status("running", Some(642)), Some(642), true, false,),
        SetupReadinessDecision::Initializing
    );
    assert_eq!(
        decide_setup_readiness(&setup_status("failed", Some(642)), Some(642), true, false,),
        SetupReadinessDecision::Failed
    );
    assert_eq!(
        decide_setup_readiness(&setup_status("failed", Some(100)), Some(642), true, false,),
        SetupReadinessDecision::Start(642)
    );
    assert_eq!(
        decide_setup_readiness(&setup_status("interrupted", Some(642)), Some(642), true, false,),
        SetupReadinessDecision::Start(642)
    );
    assert_eq!(
        decide_setup_readiness(&setup_status("needs_retry", Some(642)), Some(642), true, false,),
        SetupReadinessDecision::Start(642)
    );
    let mut repeated_interruption = setup_status("interrupted", Some(642));
    repeated_interruption.automatic_retry_count = 2;
    assert_eq!(
        decide_setup_readiness(&repeated_interruption, Some(642), true, false),
        SetupReadinessDecision::Failed
    );
    assert_eq!(
        decide_setup_readiness(&setup_status("pending", None), Some(642), false, false),
        SetupReadinessDecision::NeedsWorkspace
    );
}

#[test]
fn startup_readiness_separates_liveness_from_initialization() {
    let mut startup = StartupSnapshot::initializing("t0".to_string());
    assert_eq!(startup.phase, StartupPhase::Initializing);
    assert!(!startup.is_ready());
    assert_eq!(startup.startup_error().unwrap().0, "connector_initializing");

    startup.ready("t1".to_string());
    assert_eq!(startup.phase, StartupPhase::Ready);
    assert!(startup.is_ready());
    assert!(startup.startup_error().is_none());
    assert_eq!(startup.status_name(), "ready");
}

#[test]
fn startup_readiness_preserves_the_initialization_root_cause() {
    let mut startup = StartupSnapshot::initializing("t0".to_string());
    startup.fail("Connector 元数据初始化超时".to_string(), "t1".to_string());
    assert_eq!(startup.phase, StartupPhase::Failed);
    let (code, message) = startup.startup_error().unwrap();
    assert_eq!(code, "connector_initialization_failed");
    assert_eq!(message, "Connector 元数据初始化超时");
    assert_eq!(startup.completed_at.as_deref(), Some("t1"));
    assert_eq!(startup.started_at, "t0");
}

#[test]
fn readiness_reports_and_cli_gate() {
    assert_eq!(readiness_report(SetupReadinessDecision::Failed, &None).1, "Codex 初始化失败，请检查失败步骤后重试");
    assert_eq!(readiness_report(SetupReadinessDecision::Start(1), &None).0, "initializing");
    assert_eq!(readiness_report(SetupReadinessDecision::NeedsWorkspace, &None).0, "needs_workspace");
    assert_eq!(
        cli_unavailable(&setup_status("failed", Some(7)), 7),
        CliGate::SetupFailed("installer failed".to_string())
    );
    assert_eq!(cli_unavailable(&setup_status("failed", Some(8)), 7), CliGate::StartSetup);
    assert!(workspace_credential_available(Some(642), &vec![1, 642]));
    assert!(!workspace_credential_available(Some(642), &vec![1]));
    assert!(!workspace_credential_available(None, &vec![1]));
}

#[test]
fn management_token_must_match_exactly() {
    assert!(management_authorized(Some("Bearer secret"), "secret"));
    assert!(!management_authorized(Some("Bearer secreT"), "secret"));
    assert!(!management_authorized(Some("bearer secret"), "secret"));
    assert!(!management_authorized(Some("Bearer secret2"), "secret"));
    assert!(!management_authorized(None, "secret"));
    assert!(management_authorized(None, ""));
}

#[test]
fn request_heads_are_read_strictly() {
    let raw = b"POST /invoke/status?x=1 HTTP/1.1\r\nAuthorization: Bearer t\r\nX-Baijimu-Workspace-Id: 642\r\nContent-Length: 12\r\n\r\nbody";
    let end = find_headers_end(raw).unwrap();
    assert_eq!(&raw[end..end + 4], b"\r\n\r\n");
    let head = parse_http_head(std::str::from_utf8(&raw[..end]).unwrap()).unwrap();
    assert_eq!(head.method, "POST");
    assert_eq!(head.path, "/invoke/status?x=1");
    assert_eq!(head.authorization.as_deref(), Some("Bearer t"));
    assert_eq!(head.workspace_id, Some(642));
    assert_eq!(head.content_length, 12);
    assert_eq!(
        parse_http_head("GET / HTTP/1.1\r\nx-baijimu-workspace-id: abc").unwrap_err(),
        InvalidWorkspaceHeader
    );
    let zero = parse_http_head("GET / HTTP/1.1\r\nx-baijimu-workspace-id: 0\r\ncontent-length: x").unwrap();
    assert_eq!(zero.workspace_id, None);
    assert_eq!(zero.content_length, 0);
    assert_eq!(find_headers_end(b"GET / HTTP/1.1\r\n"), None);
}

#[test]
fn requests_are_routed_by_method_and_path() {
    assert_eq!(route_request("GET", "/healthz", false), Route::Health);
    assert_eq!(route_request("GET", "/readyz?probe=1", false), Route::Ready);
    assert_eq!(route_request("POST", "/__shutdown", false), Route::NotFound);
    assert_eq!(route_request("POST", "/__shutdown", true), Route::Shutdown);
    assert_eq!(route_request("POST", "/invoke/listThreads?a", false), Route::Invoke("/invoke/listThreads".to_string()));
    assert_eq!(route_request("GET", "/invoke/listThreads", false), Route::NotFound);
    assert_eq!(
        route_request("PUT", "/management/v1/x", false),
        Route::Management("PUT".to_string(), "/management/v1/x".to_string())
    );
    let auth = Some("Bearer secret");
    assert_eq!(invoke_gate(false, auth, "secret", Some(1)), Err(InvokeGate::NotReady));
    assert_eq!(invoke_gate(true, None, "secret", Some(1)), Err(InvokeGate::Unauthorized));
    assert_eq!(invoke_gate(true, Some("Bearer other"), "secret", Some(1)), Err(InvokeGate::Unauthorized));
    assert_eq!(invoke_gate(true, auth, "secret", None), Err(InvokeGate::WorkspaceRequired));
    assert_eq!(invoke_gate(true, auth, "secret", Some(9)), Ok(9));
    assert_eq!(management_gate(false, auth, "secret"), Err(InvokeGate::NotReady));
    assert_eq!(management_gate(true, Some("secret"), "secret"), Err(InvokeGate::Unauthorized));
    assert_eq!(management_gate(true, auth, "secret"), Ok(()));
    assert_eq!(management_route("GET", "/management/v1/setup/state"), ManagementRoute::SetupState);
    assert_eq!(management_route("POST", "/management/v1/setup/retry"), ManagementRoute::Retry);
    assert_eq!(management_route("GET", "/management/v1/setup/retry"), ManagementRoute::Unknown);
    assert_eq!(retry_workspace(Some(0)), None);
    assert_eq!(retry_workspace(Some(5)), Some(5));
    assert_eq!(reason_phrase(503), "Service Unavailable");
    assert_eq!(reason_phrase(418), "OK");
}

fn turn_schema() -> Option<InputSchema> {
    Some(InputSchema {
        one_of: false,
        required: vec!["threadId".to_string(), "input".to_string()],
        properties: vec![
            PropertyRule { name: "threadId".to_string(), types: TypeRule::Kinds(vec!["string".to_string()]) },
            PropertyRule {
                name: "input".to_string(),
                types: TypeRule::Kinds(vec!["string".to_string(), "array".to_string()]),
            },
            PropertyRule { name: "limit".to_string(), types: TypeRule::Kinds(vec!["integer".to_string()]) },
            PropertyRule { name: "extra".to_string(), types: TypeRule::Any },
        ],
    })
}

fn entry(key: &str, kind: JsonKind) -> BodyEntry {
    BodyEntry { key: key.to_string(), kind, in_enum: true, in_range: true }
}

#[test]
fn request_bodies_are_checked_against_the_method_schema() {
    let good = vec![entry("input", JsonKind::Array), entry("threadId", JsonKind::Text)];
    assert_eq!(validate_request(&turn_schema(), &Some(good.clone())), Ok(()));
    assert_eq!(validate_request(&None, &None), Ok(()));
    assert_eq!(validate_request(&turn_schema(), &None), Err(RequestRefusal::NotObject));
    assert_eq!(
        validate_request(&turn_schema(), &Some(vec![entry("threadId", JsonKind::Text)])),
        Err(RequestRefusal::Required("input".to_string()))
    );
    let mut unknown = good.clone();
    unknown.insert(0, entry("bogus", JsonKind::Null));
    assert_eq!(
        validate_request(&turn_schema(), &Some(unknown)),
        Err(RequestRefusal::UnsupportedParameter("bogus".to_string()))
    );
    let mut wrong_type = good.clone();
    wrong_type.push(entry("limit", JsonKind::Number));
    assert_eq!(validate_request(&turn_schema(), &Some(wrong_type)), Err(RequestRefusal::Invalid("limit".to_string())));
    let mut out_of_range = good.clone();
    out_of_range.push(BodyEntry { key: "limit".to_string(), kind: JsonKind::Integer, in_enum: true, in_range: false });
    assert_eq!(
        validate_request(&turn_schema(), &Some(out_of_range)),
        Err(RequestRefusal::Invalid("limit".to_string()))
    );
    let mut anything = good.clone();
    anything.push(entry("extra", JsonKind::Object));
    assert_eq!(validate_request(&turn_schema(), &Some(anything)), Ok(()));
    let one_of = Some(InputSchema { one_of: true, required: vec!["x".to_string()], properties: Vec::new() });
    assert_eq!(validate_request(&one_of, &Some(Vec::new())), Ok(()));
}

fn schema(required: &[&str], properties: &[(&str, &[&str])]) -> Option<InputSchema> {
    Some(InputSchema {
        one_of: false,
        required: required.iter().map(|key| key.to_string()).collect(),
        properties: properties
            .iter()
            .map(|(name, kinds)| PropertyRule {
                name: name.to_string(),
                types: TypeRule::Kinds(kinds.iter().map(|kind| kind.to_string()).collect()),
            })
            .collect(),
    })
}

#[test]
fn unsupported_legacy_options_are_rejected() {
    let list_projects = schema(
        &[],
        &[("searchTerm", &["string"]), ("limit", &["integer"]), ("cursor", &["string", "null"]), ("archived", &["boolean"])],
    );
    let list_turns = schema(
        &["threadId"],
        &[("threadId", &["string"]), ("limit", &["integer"]), ("cursor", &["string", "null"]), ("sortDirection", &["string"])],
    );
    let start_turn = schema(&["threadId", "input"], &[("threadId", &["string"]), ("input", &["string", "array"]), ("cwd", &["string"])]);
    let interrupt_turn = schema(&["threadId", "turnId"], &[("threadId", &["string"]), ("turnId", &["string"])]);
    let unsupported = |key: &str| Err(RequestRefusal::UnsupportedParameter(key.to_string()));
    assert_eq!(
        validate_request(&list_projects, &Some(vec![entry("includeSaved", JsonKind::Boolean)])),
        unsupported("includeSaved")
    );
    assert_eq!(
        validate_request(
            &list_turns,
            &Some(vec![entry("threadId", JsonKind::Text), entry("unknownHistoryOption", JsonKind::Boolean)])
        ),
        unsupported("unknownHistoryOption")
    );
    assert_eq!(
        validate_request(
            &start_turn,
            &Some(vec![entry("effort", JsonKind::Text), entry("input", JsonKind::Text), entry("threadId", JsonKind::Text)])
        ),
        unsupported("effort")
    );
    assert!(validate_request(&list_projects, &Some(vec![entry("archived", JsonKind::Text)])).is_err());
    let zero_limit = BodyEntry { key: "limit".to_string(), kind: JsonKind::Integer, in_enum: true, in_range: false };
    assert!(validate_request(&list_projects, &Some(vec![zero_limit])).is_err());
    assert!(validate_request(&interrupt_turn, &Some(vec![entry("threadId", JsonKind::Text)])).is_err());
}

#[test]
fn refused_requests_are_answered_by_their_gate() {
    assert_eq!(gate_refusal(InvokeGate::Unauthorized, true), (401, None, Some("management authorization required")));
    assert_eq!(gate_refusal(InvokeGate::Unauthorized, false), (401, None, Some("connector authorization required")));
    assert_eq!(
        gate_refusal(InvokeGate::WorkspaceRequired, false),
        (400, Some("WORKSPACE_CONTEXT_REQUIRED"), Some("本地应用调用缺少可信工作区上下文"))
    );
    assert_eq!(gate_refusal(InvokeGate::NotReady, true), (503, None, None));
    let refused = management_gate(true, Some("Bearer wrong"), "token");
    assert_eq!(refused, Err(InvokeGate::Unauthorized));
    assert_eq!(gate_refusal(InvokeGate::Unauthorized, true).0, 401);
}

fn health_identity(health: &serde_json::Value) -> Result<u64, StopRefusal> {
    let name = health.pointer("/status/connector/name").and_then(serde_json::Value::as_str);
    let pid = health.pointer("/status/connector/pid").and_then(serde_json::Value::as_u64);
    verified_connector_pid(name, pid)
}

#[test]
fn connector_stop_pid_requires_the_codex_health_identity() {
    let valid: serde_json::Value = serde_json::from_str(
        r#"{"status": {"connector": {"name": "@baijimu/connector-codex", "pid": 42}}}"#,
    )
    .unwrap();
    assert_eq!(health_identity(&valid).unwrap(), 42);

    let unrelated: serde_json::Value =
        serde_json::from_str(r#"{"status": {"connector": {"name": "another-service", "pid": 42}}}"#).unwrap();
    assert!(health_identity(&unrelated).unwrap_err().message().contains("does not belong"));
}

#[test]
fn connector_stop_needs_a_process_id() {
    assert_eq!(verified_connector_pid(Some("@baijimu/connector-codex"), None), Err(StopRefusal::MissingPid));
    assert_eq!(verified_connector_pid(None, Some(42)), Err(StopRefusal::NotThisConnector));
}
