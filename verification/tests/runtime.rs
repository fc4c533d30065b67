use baijimu_connector_codex::app_server::{
    daemon_version_matches, dispatch, legacy_backend_identity_matches, retryable_event_status, socket_wait_step, start_plan, DaemonVersion,
    Dispatch, Incoming, PendingTable, RpcTransportKind, SocketWait, StartError, StartKind,
};
use baijimu_connector_codex::desktop::{
    application_pid, command_error, has_running_process, installed_application_path, launch_and_verify,
    stop_for_codex_home_switch, verify_application_codex_home, DesktopError, DesktopSwitch, LaunchObservation,
    LaunchStep, Platform, RestartPlan, StopObservation, StopStep,
};

#[test]
fn parses_lsappinfo_process_state_without_requiring_a_window() {
    let hidden = "\"pid\"=682\n\"visible\"=[ NULL ]\n\"windows\"=[ NULL ]\n";
    assert!(has_running_process(hidden));
    assert_eq!(application_pid(hidden), Some(682));

    let missing = "Application not found\n";
    assert!(!has_running_process(missing));
}

#[test]
fn null_pid_lines_do_not_count_as_running() {
    assert!(!has_running_process("  \"pid\"=[ NULL ]  \r\n"));
    assert_eq!(application_pid("\"pid\"=[ NULL ]\n\"pid\"= 77 \n"), Some(77));
    assert_eq!(application_pid("\"pid\"=99999999999\n"), None);
    assert_eq!(application_pid(""), None);
}

#[test]
fn stopping_depends_on_platform_and_process_state() {
    assert!(matches!(
        stop_for_codex_home_switch(Platform::Other, StopObservation::Before("\"pid\"=1".to_string())),
        Ok(StopStep::Done(DesktopSwitch { was_running: false, app_id: None }))
    ));
    assert!(matches!(
        stop_for_codex_home_switch(Platform::MacOs, StopObservation::Before("\"pid\"=1".to_string())),
        Ok(StopStep::Quit)
    ));
    assert!(matches!(
        stop_for_codex_home_switch(Platform::MacOs, StopObservation::AfterQuit("\"pid\"=1".to_string(), false)),
        Ok(StopStep::Wait)
    ));
    assert!(matches!(
        stop_for_codex_home_switch(Platform::MacOs, StopObservation::AfterQuit("\"pid\"=1".to_string(), true)),
        Err(DesktopError::StopTimedOut)
    ));
    assert!(matches!(
        stop_for_codex_home_switch(Platform::MacOs, StopObservation::AfterQuit("gone".to_string(), false)),
        Ok(StopStep::Done(DesktopSwitch { was_running: true, .. }))
    ));
    assert!(matches!(
        stop_for_codex_home_switch(Platform::Windows, StopObservation::Reported(true, Some("App!id".to_string()))),
        Ok(StopStep::Done(DesktopSwitch { was_running: true, app_id: Some(ref id) })) if id == "App!id"
    ));
}

#[test]
fn launching_checks_the_selected_codex_home() {
    assert!(matches!(launch_and_verify(LaunchObservation::NotInstalled), Err(DesktopError::NotInstalled)));
    assert!(matches!(
        launch_and_verify(LaunchObservation::Polled("\"pid\"=42\n".to_string(), false)),
        Ok(LaunchStep::Inspect(42))
    ));
    assert!(matches!(
        launch_and_verify(LaunchObservation::Polled("".to_string(), true)),
        Err(DesktopError::LaunchTimedOut)
    ));
    assert!(matches!(
        launch_and_verify(LaunchObservation::Environment(
            "app CODEX_HOME=/w/1 X=1".to_string(),
            Some("/w/1".to_string())
        )),
        Ok(LaunchStep::Done)
    ));
    assert_eq!(
        verify_application_codex_home("app X=1", &Some("/w/1".to_string())),
        Err(DesktopError::WrongCodexHome)
    );
    assert_eq!(verify_application_codex_home("app CODEX_HOME=/x", &None), Err(DesktopError::UnexpectedCodexHome));
    assert_eq!(verify_application_codex_home("app", &None), Ok(()));
}

#[test]
fn restart_happens_only_after_a_stop() {
    let idle = DesktopSwitch::default();
    assert_eq!(idle.restart_and_verify(Platform::MacOs), Ok(RestartPlan::NotNeeded));
    let stopped = DesktopSwitch { was_running: true, app_id: None };
    assert_eq!(stopped.restart_and_verify(Platform::MacOs), Ok(RestartPlan::Launch));
    assert_eq!(stopped.restart_and_verify(Platform::Windows), Err(DesktopError::MissingAppId));
    assert_eq!(stopped.restart_and_verify(Platform::Other), Ok(RestartPlan::NotNeeded));
    let windows = DesktopSwitch { was_running: true, app_id: Some("A".to_string()) };
    assert_eq!(windows.restart_and_verify(Platform::Windows), Ok(RestartPlan::RestartApp("A".to_string())));
    assert_eq!(installed_application_path(false, true), Some(1));
    assert_eq!(installed_application_path(false, false), None);
    assert_eq!(command_error("  boom \n", "exit status: 1"), "boom");
    assert_eq!(command_error("", "exit status: 1"), "exit=exit status: 1");
}

#[test]
fn legacy_backend_identity_requires_exact_user_command_and_control_listener() {
    assert!(legacy_backend_identity_matches(
        "501 /Users/c/.local/bin/codex app-server --listen unix://",
        501,
    ));
    assert!(legacy_backend_identity_matches("501 codex app-server --listen unix://", 501,));
    assert!(!legacy_backend_identity_matches("502 codex app-server --listen unix://", 501,));
    assert!(!legacy_backend_identity_matches("501 codex app-server --listen stdio://", 501,));
    assert!(!legacy_backend_identity_matches("501 unrelated app-server --listen unix://", 501,));
}

#[test]
fn legacy_identity_accepts_versioned_binaries_only() {
    assert!(legacy_backend_identity_matches("  501  /opt/codex-aarch64/ app-server --listen unix://", 501));
    assert!(!legacy_backend_identity_matches("501 /opt/codex/.. app-server --listen unix://", 501));
    assert!(!legacy_backend_identity_matches("501 codex --listen unix:// serve", 501));
    assert!(!legacy_backend_identity_matches("", 501));
}

fn version(status: &str, cli: &str, server: &str) -> DaemonVersion {
    DaemonVersion {
        status: Some(status.to_string()),
        managed_codex_path: Some("/tmp/current/codex".to_string()),
        cli_version: Some(cli.to_string()),
        app_server_version: Some(server.to_string()),
    }
}

#[test]
fn managed_daemon_requires_cli_and_app_server_to_match() {
    assert!(daemon_version_matches(&version("running", "0.152.0", "0.152.0"), "0.152.0"));
    assert!(!daemon_version_matches(&version("running", "0.152.0", "0.151.0"), "0.152.0"));
    assert!(!daemon_version_matches(&version("stopped", "0.152.0", "0.152.0"), "0.152.0"));
    let mut unmanaged = version("running", "0.152.0", "0.152.0");
    unmanaged.managed_codex_path = None;
    assert!(!daemon_version_matches(&unmanaged, "0.152.0"));
}

#[test]
fn transport_names_and_start_plans() {
    assert_eq!(RpcTransportKind::JsonLines.status_name(), "private_stdio");
    assert_eq!(RpcTransportKind::WebSocketProxy.status_name(), "shared_control_socket");
    assert_eq!(RpcTransportKind::JsonLines.listen_name("stdio://"), "stdio://");
    assert_eq!(RpcTransportKind::WebSocketProxy.listen_name("stdio://"), "unix://");
    assert!(RpcTransportKind::WebSocketProxy.is_shared());
    assert!(!RpcTransportKind::JsonLines.is_shared());
    assert_eq!(start_plan(Vec::new(), "stdio://", true, None, true), Ok(StartKind::Shared));
    assert_eq!(
        start_plan(Vec::new(), "stdio://", true, None, false),
        Ok(StartKind::Private(vec!["app-server".to_string(), "--listen".to_string(), "stdio://".to_string()]))
    );
    assert_eq!(
        start_plan(Vec::new(), "stdio://", false, None, true),
        Err(StartError::Unsupported("the selected Codex CLI does not support app-server".to_string()))
    );
    assert_eq!(
        start_plan(vec!["exec".to_string()], "stdio://", false, None, true),
        Ok(StartKind::Private(vec!["exec".to_string()]))
    );
    assert_eq!(socket_wait_step(true, Some("x".to_string()), true), SocketWait::Ready);
    assert_eq!(socket_wait_step(false, Some("x".to_string()), true), SocketWait::Exited("x".to_string()));
    assert_eq!(socket_wait_step(false, None, true), SocketWait::TimedOut);
    assert_eq!(socket_wait_step(false, None, false), SocketWait::Retry);
}

#[test]
fn responses_reach_their_request_once() {
    let mut table: PendingTable<&str> = PendingTable::new();
    let first = table.register("first");
    let second = table.register("second");
    assert_eq!((first, second), (1, 2));
    assert!(matches!(dispatch(&mut table, Incoming::Response(2, None)), Dispatch::Deliver("second")));
    assert!(matches!(dispatch(&mut table, Incoming::Response(2, None)), Dispatch::Unmatched));
    assert!(matches!(
        dispatch(&mut table, Incoming::Response(1, Some(None))),
        Dispatch::Fail("first", ref m) if m == "codex app-server error"
    ));
    assert!(matches!(
        dispatch(&mut table, Incoming::Notification(None)),
        Dispatch::Event(ref m) if m == "codex/notification"
    ));
    assert!(matches!(
        dispatch(&mut table, Incoming::Notification(Some("turn/started".to_string()))),
        Dispatch::Event(ref m) if m == "turn/started"
    ));
    assert!(table.take(1).is_none());
}

#[test]
fn event_delivery_retries_only_temporary_failures() {
    for status in [408, 429, 500, 503] {
        assert!(retryable_event_status(status), "status {status}");
    }
    for status in [400, 401, 403, 404, 409, 422] {
        assert!(!retryable_event_status(status), "status {status}");
    }
}

fn finished(step: Result<StopStep, DesktopError>) -> DesktopSwitch {
    match step {
        Ok(StopStep::Done(switch)) => switch,
        other => panic!("stop not finished: {other:?}"),
    }
}

#[test]
fn stop_then_restart_restores_the_running_state() {
    let running = "\"pid\"=682\n".to_string();
    let gone = "Application not found\n".to_string();
    assert!(matches!(
        stop_for_codex_home_switch(Platform::MacOs, StopObservation::Before(running.clone())),
        Ok(StopStep::Quit)
    ));
    let stopped = finished(stop_for_codex_home_switch(Platform::MacOs, StopObservation::AfterQuit(gone.clone(), false)));
    assert!(stopped.was_running);
    assert_eq!(stopped.restart_and_verify(Platform::MacOs), Ok(RestartPlan::Launch));
    let idle = finished(stop_for_codex_home_switch(Platform::MacOs, StopObservation::Before(gone)));
    assert!(!idle.was_running);
    assert_eq!(idle.restart_and_verify(Platform::MacOs), Ok(RestartPlan::NotNeeded));
    let reported = finished(stop_for_codex_home_switch(
        Platform::Windows,
        StopObservation::Reported(true, Some("OpenAI.Codex".to_string())),
    ));
    assert_eq!(reported.restart_and_verify(Platform::Windows), Ok(RestartPlan::RestartApp("OpenAI.Codex".to_string())));
}
