use baijimu_connector_codex::baijimu_cli::{
    auth_status, command_failure, compact_error, positive_unique_ids, required_text, validate_binary_path,
    AuthStatus, AuthStatusContract, CliError,
};
use baijimu_connector_codex::codex_binary::{inspect, inspect_version, CliInspection, CommandError, CommandRun, COMMAND};
use baijimu_connector_codex::credential::{
    check_issued_credential, codex_api_key, codex_ready_for_workspace, configured_key_check, issue_outcome, managed_config,
    compact_body, credential_accepted, current_workspace_id,
    discovery_token, discovery_warning, endpoint_url, missing_token_warning, issue_credential_path, issue_precheck, local_credential, manager_state,
    normalize_baijimu_root_url, pick_llm_credential, record_setup, select_local_machine_token,
    shared_credential_store, unwrap_baijimu_data, validation_status, workspace_choices, workspace_option,
    AuthDocument, CredentialEntry, CredentialError, CredentialManagerState, CredentialProfile, DataSource,
    EntryList, Envelope, EnvironmentEntry, KeyCheck, LocalMachineCredential, SharedCredentialStore, StateInputs,
    ValidationStatus, WorkspaceOption,
};

fn contract_from_json(text: &[u8]) -> AuthStatusContract {
    let value: serde_json::Value = serde_json::from_slice(text).unwrap();
    AuthStatusContract {
        authenticated: value["authenticated"].as_bool().unwrap(),
        base_url: value["baseUrl"].as_str().unwrap().to_string(),
        current_workspace_id: value["currentWorkspaceId"].as_u64(),
        workspace_ids: value["workspaceIds"]
            .as_array()
            .unwrap()
            .iter()
            .map(|id| id.as_u64().unwrap())
            .collect(),
    }
}

#[test]
fn auth_status_contract_requires_owned_fields_and_normalizes_ids() {
    let contract = contract_from_json(
        br#"{
            "authenticated": true,
            "baseUrl": "https://api.baijimu.com",
            "configuredCurrentWorkspaceId": 642,
            "credentialCount": 2,
            "currentWorkspaceId": 642,
            "sharedAuthPath": "owned-by-baijimu-cli",
            "verification": null,
            "workspaceIds": [1390, 642, 642]
        }"#,
    );
    let status = AuthStatus {
        authenticated: contract.authenticated,
        base_url: required_text(&contract.base_url, "baseUrl").unwrap(),
        current_workspace_id: contract.current_workspace_id,
        credential_workspace_ids: positive_unique_ids(&contract.workspace_ids, "workspaceIds").unwrap(),
    };
    assert_eq!(status.credential_workspace_ids, vec![642, 1390]);
    assert_eq!(status.current_workspace_id, Some(642));
}

#[test]
fn invalid_workspace_ids_fail_closed() {
    assert!(positive_unique_ids(&[642, 0], "workspaceIds").is_err());
}

#[test]
fn auth_status_normalizes_the_whole_answer() {
    let status = auth_status(AuthStatusContract {
        authenticated: true,
        base_url: "  https://api.baijimu.com \n".to_string(),
        current_workspace_id: Some(0),
        workspace_ids: vec![9, 3, 9, 1],
    })
    .unwrap();
    assert_eq!(status.base_url, "https://api.baijimu.com");
    assert_eq!(status.current_workspace_id, None);
    assert_eq!(status.credential_workspace_ids, vec![1, 3, 9]);
}

#[test]
fn auth_status_refuses_each_broken_answer() {
    let base = AuthStatusContract {
        authenticated: true,
        base_url: "https://api.baijimu.com".to_string(),
        current_workspace_id: Some(642),
        workspace_ids: vec![642],
    };
    let mut empty = base.clone();
    empty.workspace_ids = Vec::new();
    assert_eq!(auth_status(empty), Err(CliError::AuthenticatedWithoutWorkspaces));
    let mut blank = base.clone();
    blank.base_url = "   ".to_string();
    assert_eq!(auth_status(blank), Err(CliError::MissingField("auth status.baseUrl".to_string())));
    let mut zero = base.clone();
    zero.workspace_ids = vec![642, 0];
    assert_eq!(auth_status(zero), Err(CliError::InvalidIds("auth status.workspaceIds".to_string())));
    let mut signed_out = base;
    signed_out.authenticated = false;
    signed_out.workspace_ids = Vec::new();
    assert!(auth_status(signed_out).unwrap().credential_workspace_ids.is_empty());
}

#[test]
fn managed_cli_path_requires_an_absolute_existing_file() {
    assert_eq!(
        validate_binary_path("baijimu".to_string(), false, false),
        Err(CliError::RelativeBinaryPath)
    );
    assert_eq!(
        validate_binary_path("/opt/baijimu".to_string(), true, false),
        Err(CliError::MissingBinary("/opt/baijimu".to_string()))
    );
    assert_eq!(
        validate_binary_path("/opt/baijimu".to_string(), true, true),
        Ok("/opt/baijimu".to_string())
    );
}

#[test]
fn error_details_are_compacted_and_capped() {
    assert_eq!(compact_error("  line one\n\tline   two  "), "line one line two");
    let long = "x ".repeat(300);
    let compacted = compact_error(&long);
    assert_eq!(compacted.chars().count(), 400);
    assert!(compacted.starts_with("x x"));
    assert_eq!(
        command_failure("auth status", " denied\n"),
        CliError::CommandFailed("auth status".to_string(), "denied".to_string())
    );
}

fn exited(success: bool, stdout: &str, stderr: &str) -> CommandRun {
    CommandRun::Exited {
        success,
        status: if success { "exit status: 0".to_string() } else { "exit status: 3".to_string() },
        stdout: stdout.to_string(),
        stderr: stderr.to_string(),
    }
}

#[test]
fn inspects_the_same_command_for_version_and_app_server() {
    let inspection = inspect(&exited(true, "codex-cli 1.2.3\n", ""), &exited(true, "", "")).unwrap();
    assert_eq!(inspection.version.as_deref(), Some("codex-cli 1.2.3"));
    assert!(inspection.app_server_supported);
    assert!(inspection.error.is_none());
}

#[test]
fn reports_app_server_capability_failure_without_selecting_another_command() {
    let inspection = inspect(&exited(true, "codex-cli 1.2.3\n", ""), &exited(false, "", "")).unwrap();
    assert_eq!(inspection.version.as_deref(), Some("codex-cli 1.2.3"));
    assert!(!inspection.app_server_supported);
    assert!(inspection.error.as_deref().is_some_and(|error| error.contains("退出状态")));
}

#[test]
fn version_falls_back_to_stderr_and_may_be_blank() {
    let unsupported = inspect(&exited(true, "", " from stderr "), &exited(false, "", "")).unwrap();
    assert_eq!(unsupported.version.as_deref(), Some("from stderr"));
    assert!(!unsupported.app_server_supported);
    assert!(unsupported.error.unwrap().contains("退出状态"));
    let blank = inspect_version(&exited(true, " ", "\n")).unwrap();
    assert!(blank.is_none());
}

#[test]
fn unavailable_command_error_names_the_path_contract() {
    let error = inspect(&CommandRun::SpawnFailed("No such file".to_string()), &exited(true, "", "")).unwrap_err();
    assert_eq!(error.reason, "执行 codex --version 失败：No such file");
    assert!(error.message().contains("当前进程 PATH"));
    assert!(error.message().contains(COMMAND));
    let failed = inspect_version(&exited(false, "", "")).unwrap_err();
    assert_eq!(failed.reason, "codex --version 退出状态为 exit status: 3");
    let spawn = inspect(&exited(true, "1.0", ""), &CommandRun::SpawnFailed("gone".to_string())).unwrap();
    assert_eq!(spawn.error.as_deref(), Some("验证 codex app-server 失败：gone"));
}

#[test]
fn production_website_auth_endpoint_maps_to_api_origin() {
    assert_eq!(
        normalize_baijimu_root_url("https://www.baijimu.com/lowcode3/"),
        "https://api.baijimu.com"
    );
    assert_eq!(
        normalize_baijimu_root_url("https://api.baijimu.com/lowcode3"),
        "https://api.baijimu.com"
    );
}

#[test]
fn other_base_urls_are_only_trimmed() {
    assert_eq!(normalize_baijimu_root_url("  https://baijimu.com// "), "https://api.baijimu.com");
    assert_eq!(normalize_baijimu_root_url("https://test.example/lowcode3x"), "https://test.example/lowcode3x");
    assert_eq!(normalize_baijimu_root_url("http://localhost:8080/"), "http://localhost:8080");
}

fn entry(ids: &[u64], token: &str, issued: u64) -> CredentialEntry {
    CredentialEntry {
        workspace_ids: ids.to_vec(),
        workspace_id: None,
        token: Some(token.to_string()),
        issued_at_epoch_seconds: Some(issued),
    }
}

fn document(credentials: Vec<CredentialEntry>, current: Option<u64>) -> AuthDocument {
    AuthDocument {
        current_environment: Some("prod".to_string()),
        environments: vec![EnvironmentEntry {
            name: "prod".to_string(),
            base_url: Some("https://api.baijimu.com".to_string()),
        }],
        current_workspace_id: current,
        credentials: EntryList::List(credentials),
        machine_credentials: EntryList::Absent,
    }
}

#[test]
fn unified_auth_store_selects_only_the_requested_workspace() {
    let store = shared_credential_store(&document(
        vec![
            entry(&[1200], "lc_pat_wrong", 20),
            entry(&[1390, 1400], "lc_pat_old", 10),
            entry(&[1390], "lc_pat_current", 30),
        ],
        Some(1390),
    ))
    .unwrap();
    assert_eq!(store.current_workspace_id, Some(1390));
    assert_eq!(current_workspace_id(&store), Ok(1390));
    assert_eq!(select_local_machine_token(&store, 1390).as_deref(), Some("lc_pat_current"));
    assert_eq!(select_local_machine_token(&store, 1200).as_deref(), Some("lc_pat_wrong"));
    assert_eq!(select_local_machine_token(&store, 9999), None);
}

#[test]
fn equally_recent_credentials_pick_the_last() {
    let store = shared_credential_store(&document(
        vec![entry(&[5], "first", 7), entry(&[5], "second", 7), entry(&[5], "older", 3)],
        None,
    ))
    .unwrap();
    assert_eq!(select_local_machine_token(&store, 5).as_deref(), Some("second"));
}

#[test]
fn store_entries_are_checked_and_normalised() {
    let usable = local_credential(&CredentialEntry {
        workspace_ids: vec![3, 0, 2, 3],
        workspace_id: Some(1),
        token: Some("  tok  ".to_string()),
        issued_at_epoch_seconds: None,
    })
    .unwrap();
    assert_eq!(usable.workspace_ids, vec![1, 2, 3]);
    assert_eq!(usable.token, "tok");
    assert_eq!(usable.issued_at_epoch_seconds, 0);
    assert!(local_credential(&entry(&[0], "tok", 1)).is_none());
    assert!(local_credential(&entry(&[4], "  ", 1)).is_none());
    let mut no_token = entry(&[4], "x", 1);
    no_token.token = None;
    assert!(local_credential(&no_token).is_none());
}

#[test]
fn store_reads_machine_credentials_and_refuses_empty_files() {
    let mut doc = document(Vec::new(), None);
    doc.credentials = EntryList::Absent;
    doc.machine_credentials = EntryList::List(vec![entry(&[8], "m", 1)]);
    doc.current_environment = None;
    doc.environments = Vec::new();
    let store = shared_credential_store(&doc).unwrap();
    assert_eq!(store.base_url, "https://api.baijimu.com");
    assert_eq!(store.credentials.len(), 1);
    let mut not_list = document(Vec::new(), None);
    not_list.credentials = EntryList::NotAList;
    not_list.machine_credentials = EntryList::List(vec![entry(&[8], "m", 1)]);
    assert_eq!(shared_credential_store(&not_list).unwrap_err(), CredentialError::NoCredentials);
}

fn store_of(credentials: Vec<(Vec<u64>, &str)>, current: Option<u64>) -> SharedCredentialStore {
    SharedCredentialStore {
        base_url: "https://api.baijimu.com".to_string(),
        current_workspace_id: current,
        credentials: credentials
            .into_iter()
            .map(|(ids, token)| LocalMachineCredential {
                workspace_ids: ids,
                token: token.to_string(),
                issued_at_epoch_seconds: 0,
            })
            .collect(),
    }
}

#[test]
fn current_workspace_needs_a_single_candidate() {
    assert_eq!(current_workspace_id(&store_of(vec![(vec![7], "a"), (vec![7], "b")], None)), Ok(7));
    assert_eq!(current_workspace_id(&store_of(vec![(vec![7], "a")], Some(0))), Ok(7));
    assert_eq!(
        current_workspace_id(&store_of(vec![(vec![7], "a"), (vec![8], "b")], None)),
        Err(CredentialError::AmbiguousWorkspace)
    );
    assert_eq!(current_workspace_id(&store_of(Vec::new(), None)), Err(CredentialError::NoWorkspace));
}

#[test]
fn issuing_checks_workspace_and_ownership() {
    let store = store_of(vec![(vec![7], "a")], Some(7));
    assert_eq!(issue_precheck(&store, 0), Err(CredentialError::InvalidWorkspaceId));
    assert_eq!(issue_precheck(&store, 8), Err(CredentialError::WorkspaceMismatch(8, 7)));
    assert_eq!(issue_precheck(&store, 7), Ok("a".to_string()));
    let loose = store_of(vec![(vec![7], "a")], None);
    assert_eq!(issue_precheck(&loose, 9), Err(CredentialError::NoTokenForWorkspace));
    assert_eq!(
        pick_llm_credential(None, Some(" key ".to_string()), Some("other".to_string())),
        Ok("key".to_string())
    );
    assert_eq!(
        pick_llm_credential(Some(" ".to_string()), Some("key".to_string()), None),
        Err(CredentialError::MissingLlmCredential)
    );
    assert_eq!(check_issued_credential(false, Some(7), false, 7), Err(CredentialError::CredentialRejected));
    assert_eq!(check_issued_credential(true, None, false, 7), Err(CredentialError::MissingValidatedWorkspace));
    assert_eq!(check_issued_credential(true, Some(8), false, 7), Err(CredentialError::OwnershipMismatch(7, 8)));
    assert_eq!(check_issued_credential(true, Some(7), true, 7), Err(CredentialError::ProjectScopedCredential));
    assert_eq!(check_issued_credential(true, Some(7), false, 7), Ok(()));
}

#[test]
fn platform_envelopes_and_validation_answers() {
    assert_eq!(
        unwrap_baijimu_data(&Envelope { error_code: None, message: None }),
        Ok(DataSource::DataOrWhole)
    );
    assert_eq!(
        unwrap_baijimu_data(&Envelope { error_code: Some("0".to_string()), message: None }),
        Ok(DataSource::DataOrNull)
    );
    assert_eq!(
        unwrap_baijimu_data(&Envelope { error_code: Some("E1".to_string()), message: None }),
        Err(CredentialError::Platform("平台操作失败".to_string(), "E1".to_string()))
    );
    assert!(credential_accepted(Some(true), None));
    assert!(!credential_accepted(Some(true), Some(false)));
    assert!(!credential_accepted(None, Some(true)));
    assert!(matches!(validation_status(403, false, "403".to_string(), ""), ValidationStatus::Refused));
    assert!(matches!(
        validation_status(502, false, "502".to_string(), "bad\n gateway"),
        ValidationStatus::Failed(status, body) if status == "502" && body == "bad gateway"
    ));
    assert!(matches!(validation_status(200, true, "200".to_string(), ""), ValidationStatus::Succeeded));
    assert_eq!(compact_body("a  b"), "a b");
    assert_eq!(endpoint_url("https://x/", "//v1/list"), "https://x/v1/list");
    assert_eq!(issue_credential_path(42), "/llm-credential/partner/v1/workspaces/42/llm-credentials/create");
}

fn option(id: u64, name: &str) -> WorkspaceOption {
    WorkspaceOption { workspace_id: id, name: name.to_string() }
}

fn profile(id: u64, name: &str) -> CredentialProfile {
    CredentialProfile {
        workspace_id: id,
        workspace_name: name.to_string(),
        model: "m".to_string(),
        activated_at_epoch_seconds: 5,
    }
}

#[test]
fn workspaces_are_sorted_by_name_and_deduplicated() {
    let store = store_of(Vec::new(), None);
    let listed = workspace_choices(vec![option(2, "b"), option(1, "a"), option(3, "b"), option(3, "b")], &store);
    let got: Vec<(u64, String)> = listed.into_iter().map(|w| (w.workspace_id, w.name)).collect();
    assert_eq!(got, vec![(1, "a".to_string()), (2, "b".to_string()), (3, "b".to_string())]);
    let fallback = workspace_choices(Vec::new(), &store_of(vec![(vec![12, 3], "t")], None));
    let names: Vec<String> = fallback.into_iter().map(|w| w.name).collect();
    assert_eq!(names, vec!["工作区 12".to_string(), "工作区 3".to_string()]);
    assert_eq!(workspace_option(Some(4), None).unwrap().name, "未命名工作区");
    assert!(workspace_option(None, Some("x".to_string())).is_none());
    assert_eq!(discovery_token(&store_of(vec![(vec![1], "first"), (vec![2], "second")], Some(2))).as_deref(), Some("second"));
    assert_eq!(discovery_token(&store_of(vec![(vec![1], "first")], Some(9))).as_deref(), Some("first"));
}

fn inputs(key: Option<KeyCheck>) -> StateInputs {
    StateInputs {
        store: store_of(vec![(vec![7], "t")], Some(7)),
        profiles: vec![profile(7, "old name"), profile(8, "eight")],
        active_workspace_id: Some(7),
        discovered: vec![option(7, "Seven")],
        discovery_warning: None,
        key,
        managed_config: true,
        shared_auth_path: "/a".to_string(),
        codex_auth_path: "/b".to_string(),
        codex_config_path: "/c".to_string(),
    }
}

#[test]
fn manager_state_reflects_the_key_check() {
    let verified = manager_state(inputs(Some(KeyCheck::Accepted(Some(7)))));
    assert_eq!(verified.credential_status, "verified");
    assert!(verified.codex_configured);
    assert_eq!(verified.profiles[0].workspace_name, "Seven");
    assert_eq!(verified.active_profile.as_ref().unwrap().workspace_id, 7);
    let state = Some(verified);
    assert!(codex_ready_for_workspace(&state, 7));
    assert!(!codex_ready_for_workspace(&state, 8));
    assert!(!codex_ready_for_workspace(&None, 7));

    let switched = manager_state(inputs(Some(KeyCheck::Accepted(Some(9)))));
    let active = switched.active_profile.unwrap();
    assert_eq!((active.workspace_id, active.workspace_name.as_str(), active.model.as_str()), (9, "工作区 9", "gpt-5.6-sol"));

    assert_eq!(manager_state(inputs(None)).credential_status, "not_configured");
    assert!(!manager_state(inputs(None)).codex_configured);
    assert_eq!(manager_state(inputs(Some(KeyCheck::Accepted(None)))).credential_status, "invalid_context");
    assert_eq!(manager_state(inputs(Some(KeyCheck::Rejected))).credential_status, "invalid");
    assert_eq!(manager_state(inputs(Some(KeyCheck::Unavailable))).credential_status, "unverified");
    let unready: Option<CredentialManagerState> = Some(manager_state(inputs(Some(KeyCheck::Rejected))));
    assert!(!codex_ready_for_workspace(&unready, 7));
}

#[test]
fn recording_a_setup_replaces_the_profile_and_sorts() {
    let (profiles, active) = record_setup(
        vec![profile(3, "c"), profile(1, "z"), profile(2, "a")],
        &vec![option(1, "m")],
        1,
        99,
    );
    assert_eq!(active, Some(1));
    let got: Vec<(u64, String, u64)> =
        profiles.into_iter().map(|p| (p.workspace_id, p.workspace_name, p.activated_at_epoch_seconds)).collect();
    assert_eq!(got, vec![(2, "a".to_string(), 5), (3, "c".to_string(), 5), (1, "m".to_string(), 99)]);
}

#[test]
fn workspace_discovery_warnings() {
    assert_eq!(discovery_warning("timeout"), "暂时无法读取工作区名称：timeout");
    assert_eq!(missing_token_warning(), "本机没有工作区授权");
}

#[test]
fn unusable_command_reports_its_data_and_path_status() {
    let error = CommandError { reason: "spawn failed".to_string() };
    let (command, reason) = error.data_value();
    assert_eq!(command, "codex");
    assert_eq!(reason, "spawn failed");
    let status = error.status_value();
    assert_eq!((status.mode, status.resolved, status.source), ("path", "codex", "process_path"));
    assert!(status.checked_paths.is_empty());
    assert_eq!(status.version, None);
    assert_eq!(status.app_server_supported, None);
    assert_eq!(status.inspection_error, None);
    let message = status.error.unwrap();
    assert!(message.contains("当前进程 PATH"));
    assert!(message.contains("spawn failed"));
}

#[test]
fn usable_command_status_carries_the_inspection() {
    let inspection = CliInspection {
        version: Some("codex-cli 0.125.0".to_string()),
        app_server_supported: false,
        error: Some("codex app-server --help 退出状态为 2".to_string()),
    };
    let status = inspection.status_value();
    assert_eq!(status.resolved, "codex");
    assert_eq!(status.version.as_deref(), Some("codex-cli 0.125.0"));
    assert_eq!(status.app_server_supported, Some(false));
    assert_eq!(status.inspection_error.as_deref(), Some("codex app-server --help 退出状态为 2"));
    assert_eq!(status.error, None);
}

#[test]
fn state_reads_the_trimmed_key_and_the_managed_block() {
    assert_eq!(codex_api_key(Some("  sk-abc \n")), Some("sk-abc".to_string()));
    assert_eq!(codex_api_key(Some("   ")), None);
    assert_eq!(codex_api_key(None), None);
    let config = "model = \"x\"\n# >>> baijimu managed codex router\n[model_providers.baijimu]\n";
    assert!(managed_config(Some(config)));
    assert!(!managed_config(Some("model = \"x\"\n# >>> baijimu managed\n")));
    assert!(!managed_config(None));
    let key = codex_api_key(Some("sk-abc"));
    assert!(matches!(configured_key_check(&key, KeyCheck::Rejected), Some(KeyCheck::Rejected)));
    assert!(configured_key_check(&None, KeyCheck::Accepted(Some(7))).is_none());
}

#[test]
fn a_successful_issue_returns_the_trimmed_key_validated_for_the_workspace() {
    let ok = issue_outcome(7, None, Some("  llm-key  ".to_string()), Some("other".to_string()), true, Some(7), false);
    assert_eq!(ok.ok(), Some("llm-key".to_string()));
    let first = issue_outcome(7, Some("first".to_string()), Some("second".to_string()), None, true, Some(7), false);
    assert_eq!(first.ok(), Some("first".to_string()));
    assert!(matches!(issue_outcome(7, Some(" ".to_string()), None, None, true, Some(7), false), Err(CredentialError::MissingLlmCredential)));
    assert!(matches!(issue_outcome(7, None, None, None, true, Some(7), false), Err(CredentialError::MissingLlmCredential)));
    assert!(matches!(issue_outcome(7, Some("k".to_string()), None, None, false, Some(7), false), Err(CredentialError::CredentialRejected)));
    assert!(matches!(issue_outcome(7, Some("k".to_string()), None, None, true, None, false), Err(CredentialError::MissingValidatedWorkspace)));
    assert!(matches!(issue_outcome(7, Some("k".to_string()), None, None, true, Some(8), false), Err(CredentialError::OwnershipMismatch(7, 8))));
    assert!(matches!(issue_outcome(7, Some("k".to_string()), None, None, true, Some(7), true), Err(CredentialError::ProjectScopedCredential)));
}
