use baijimu_connector_codex::codec::{hex_decode, hex_encode};
use baijimu_connector_codex::handshake::{handshake_request, new_handshake_key, validate_handshake_response, websocket_accept};
use baijimu_connector_codex::history::{
    content_cursor_stale, decode_cursor_text, encode_cursor_text, items_view, list_cursor_stale, next_content_offset,
    page_limit, paginate, rollout_matches, turn_page, item_preview, TurnRecord, PAGE_BYTES, sort_order, Cursor, HistoryCode, ItemsView, LimitArg, SortOrder,
};
use baijimu_connector_codex::ipc::{
    check_expected_owner, connect_failure, owner_turn_result, ipc_action, owner_change_invalidates, owner_from_discovery, snapshot_is_current,
    recent_event_indices, recent_events_limit, total_bytes, CloseReason, EventWindow, IncomingIpc, IpcAction,
    MAX_RETAINED_BYTES, MAX_RETAINED_EVENTS,
    endpoint_trusted, initialize_step, read_frame, rpc_failure, write_frame, InitMessage, InitStep, IpcCode, IpcFrameError,
    RpcReply, MAX_FRAME,
};
use baijimu_connector_codex::websocket::{
    client_frame, control_frame, encode_client_frame, read_message, text_frame, IncomingMessage, WsError,
};
use baijimu_connector_codex::workspace_profile::{
    auth_file_ready, created_at, ensure_precheck, metadata_matches, profile_config_valid, profile_home, state_dir,
    ProfileError, ProfileMetadata, WorkspaceProfileConfig,
};

#[test]
fn validates_rfc6455_handshake_fixture() {
    let key = "dGhlIHNhbXBsZSBub25jZQ==";
    let response = "HTTP/1.1 101 Switching Protocols\r\n\
        Upgrade: websocket\r\n\
        Connection: Upgrade\r\n\
        Sec-WebSocket-Accept: s3pPLMBiTxaQ9kYGzzhZRbK+xOo=\r\n\
        \r\n";
    validate_handshake_response(response.as_bytes(), key).unwrap();
}

#[test]
fn rejects_handshake_with_wrong_accept_value() {
    let response = "HTTP/1.1 101 Switching Protocols\r\n\
        Upgrade: websocket\r\n\
        Connection: Upgrade\r\n\
        Sec-WebSocket-Accept: wrong\r\n\
        \r\n";
    assert!(validate_handshake_response(response.as_bytes(), "key").is_err());
}

#[test]
fn reads_fragmented_text_and_answers_ping() {
    let bytes = [0x01, 0x03, b'{', b'"', b'a', 0x89, 0x01, b'?', 0x80, 0x03, b'"', b'}', b'\n'];
    let (message, replies, used) = read_message(&bytes).unwrap();
    assert!(matches!(message, IncomingMessage::Text(value) if value == "{\"a\"}\n"));
    let controls: Vec<(u8, Vec<u8>)> = replies.into_iter().map(|r| (r.opcode, r.payload)).collect();
    assert_eq!(controls, vec![(0xA, vec![b'?'])]);
    assert_eq!(used, bytes.len());
}

#[test]
fn client_frames_are_masked_and_round_trip_payload() {
    let frame = client_frame(0x1, b"hello").unwrap();
    assert_eq!(frame[0], 0x81);
    assert_eq!(frame[1] & 0x80, 0x80);
    let mask = &frame[2..6];
    let decoded = frame[6..].iter().enumerate().map(|(index, byte)| byte ^ mask[index % 4]).collect::<Vec<_>>();
    assert_eq!(decoded, b"hello");
}

#[test]
fn handshake_accept_and_request_are_exact() {
    assert_eq!(websocket_accept("dGhlIHNhbXBsZSBub25jZQ=="), "s3pPLMBiTxaQ9kYGzzhZRbK+xOo=");
    let key = new_handshake_key().unwrap();
    assert_eq!(key.len(), 24);
    let request = handshake_request(&key);
    assert!(request.starts_with("GET /rpc HTTP/1.1\r\n"));
    assert!(request.contains(&format!("Sec-WebSocket-Key: {key}\r\n")));
    assert!(request.ends_with("\r\n\r\n"));
    let truncated = "HTTP/1.1 101 Switching Protocols\r\nUpgrade: websocket\r\n";
    assert!(validate_handshake_response(truncated.as_bytes(), "k").is_err());
}

#[test]
fn close_and_control_limits() {
    let close = [0x88, 0x02, 0x03, 0xe8];
    let (message, replies, _) = read_message(&close).unwrap();
    assert!(matches!(message, IncomingMessage::Closed));
    assert_eq!(replies[0].opcode, 8);
    assert_eq!(replies[0].payload, vec![0x03, 0xe8]);
    assert!(matches!(control_frame(0x9, &[0u8; 126]), Err(WsError::ControlPayloadTooLarge)));
    assert!(control_frame(0x9, &[0u8; 125]).is_ok());
    assert!(matches!(read_message(&[0x81, 0x05, b'h']), Err(WsError::UnexpectedEof)));
    let framed = encode_client_frame(0x2, &[1, 2, 3], &[0, 0, 0, 0]);
    assert_eq!(framed, vec![0x82, 0x83, 0, 0, 0, 0, 1, 2, 3]);
    assert_eq!(text_frame("hi").unwrap().len(), 8);
}

#[test]
fn rejects_oversized_frames_before_allocating() {
    let bytes = (MAX_FRAME as u32 + 1).to_le_bytes();
    assert_eq!(read_frame(&bytes), Err(IpcFrameError::InvalidLength));
}

#[test]
fn framing_round_trip() {
    let payload = "{\"type\":\"response\",\"text\":\"中文\"}".as_bytes();
    let framed = write_frame(payload).unwrap();
    let (decoded, used) = read_frame(&framed).unwrap().unwrap();
    assert_eq!(decoded, payload);
    assert_eq!(used, framed.len());
    assert_eq!(read_frame(&framed[..framed.len() - 1]), Ok(None));
    assert_eq!(read_frame(&[0, 0, 0, 0]), Err(IpcFrameError::InvalidLength));
}

#[test]
fn failed_mutations_are_never_retried() {
    let write = rpc_failure(RpcReply::NoAnswer, true);
    assert_eq!((write.status, write.code, write.retry_safe), (503, IpcCode::OperationOutcomeUnknown, false));
    let read = rpc_failure(RpcReply::Rejected, false);
    assert_eq!((read.status, read.code, read.retry_safe), (409, IpcCode::DesktopRequestRejected, true));
}

#[test]
fn environment_path_encoding_is_lossless() {
    let source = b"https://api.example.test/v1";
    let encoded = hex_encode(source);
    assert_eq!(encoded.len(), source.len() * 2);
    assert!(encoded.bytes().all(|byte| byte.is_ascii_hexdigit()));
    let chars: Vec<char> = encoded.chars().collect();
    assert_eq!(hex_decode(&chars).unwrap(), source.to_vec());
}

#[test]
fn cursor_text_round_trips_and_rejects_garbage() {
    let text = encode_cursor_text(b"{\"v\":1}");
    assert_eq!(decode_cursor_text(&text).unwrap(), b"{\"v\":1}".to_vec());
    assert_eq!(decode_cursor_text("zz"), Err(HistoryCode::InvalidCursor));
    assert_eq!(page_limit(LimitArg::Absent, 20), Ok(20));
    assert_eq!(page_limit(LimitArg::Integer(0), 20), Err(HistoryCode::InvalidLimit));
    assert_eq!(page_limit(LimitArg::Integer(100), 20), Ok(100));
    assert_eq!(paginate(&[10, 10, 10], 2, 100), (2, true));
    assert_eq!(paginate(&[10, 200], 5, 100), (1, true));
    assert_eq!(paginate(&[10, 20], 5, 100), (2, false));
}

fn metadata(environment: &str, workspace_id: u64) -> ProfileMetadata {
    ProfileMetadata {
        schema_version: 1,
        environment: environment.to_string(),
        workspace_id,
        workspace_name: "w".to_string(),
        created_at_epoch_seconds: 10,
        updated_at_epoch_seconds: 20,
    }
}

#[test]
fn workspace_profiles_are_located_and_reused_by_identity() {
    assert_eq!(state_dir("/home/c/.conn", "ab", 7), "/home/c/.conn/workspace-profiles/6162/7");
    assert_eq!(profile_home("/h/", "ab", 7), "/h/workspace-profiles/6162/7/codex-home");
    assert!(metadata_matches(&Some(metadata("https://a", 7)), "https://a", 7));
    assert!(!metadata_matches(&Some(metadata("https://a", 7)), "https://b", 7));
    assert!(!metadata_matches(&None, "https://a", 7));
    assert!(auth_file_ready(&Some(" key ".to_string())));
    assert!(!auth_file_ready(&Some("  ".to_string())));
    assert_eq!(created_at(&Some(metadata("e", 7)), "e", 7, 99), 10);
    assert_eq!(created_at(&Some(metadata("e", 8)), "e", 7, 99), 99);
    assert_eq!(ensure_precheck(0, true, &vec![0]), Err(ProfileError::InvalidWorkspace));
    assert_eq!(ensure_precheck(7, false, &vec![7]), Err(ProfileError::NotAuthorized));
    assert_eq!(ensure_precheck(7, true, &vec![6]), Err(ProfileError::NotAuthorized));
    assert_eq!(ensure_precheck(7, true, &vec![6, 7]), Ok(()));
    let config = WorkspaceProfileConfig {
        schema_version: 1,
        default_model: "m".to_string(),
        router_provider: "p".to_string(),
        router_base_url: "https://router".to_string(),
    };
    assert!(profile_config_valid(&config));
    let mut insecure = config.clone();
    insecure.router_base_url = "http://router".to_string();
    assert!(!profile_config_valid(&insecure));
}

fn init_message(kind: &str, answers: bool, success: bool, client_id: Option<&str>) -> InitMessage {
    InitMessage {
        kind: kind.to_string(),
        answers_initialize: answers,
        success,
        client_id: client_id.map(str::to_string),
    }
}

#[test]
fn initialize_handshake_takes_the_client_id_of_a_successful_answer() {
    match initialize_step(init_message("response", true, true, Some("client-7"))) {
        InitStep::Connected(id) => assert_eq!(id, "client-7"),
        other => panic!("unexpected step {other:?}"),
    }
    assert!(matches!(initialize_step(init_message("response", true, false, Some("client-7"))), InitStep::Rejected));
    assert!(matches!(initialize_step(init_message("response", true, true, None)), InitStep::Rejected));
    assert!(matches!(initialize_step(init_message("response", false, true, Some("x"))), InitStep::Wait));
    assert!(matches!(initialize_step(init_message("client-discovery", false, false, None)), InitStep::AnswerDiscovery));
    assert!(matches!(initialize_step(init_message("broadcast", false, false, None)), InitStep::Wait));
}

#[test]
fn endpoint_must_be_a_socket_of_the_current_user() {
    assert!(endpoint_trusted(true, 501, 501));
    assert!(!endpoint_trusted(false, 501, 501));
    assert!(!endpoint_trusted(true, 0, 501));
}

#[test]
fn cursors_are_bound_to_their_query() {
    let cursor = Cursor::new("turns", "thread", "", "desc", 30);
    assert_eq!(cursor.check_scope("turns", "thread", "", "desc"), Ok(()));
    assert_eq!(cursor.check_scope("items", "thread", "", "desc"), Err(HistoryCode::InvalidCursor));
    assert_eq!(cursor.check_scope("turns", "other", "", "desc"), Err(HistoryCode::InvalidCursor));
    assert_eq!(cursor.check_scope("turns", "thread", "", "asc"), Err(HistoryCode::InvalidCursor));
    let mut moved = Cursor::new("turns", "thread", "", "desc", 30);
    moved.version = 2;
    assert_eq!(moved.check_scope("turns", "thread", "", "desc"), Err(HistoryCode::InvalidCursor));
}

#[test]
fn paging_options_accept_only_known_values() {
    assert_eq!(sort_order(None, SortOrder::Desc), Ok(SortOrder::Desc));
    assert_eq!(sort_order(Some("asc"), SortOrder::Desc), Ok(SortOrder::Asc));
    assert_eq!(sort_order(Some("up"), SortOrder::Desc), Err(HistoryCode::InvalidSortDirection));
    assert_eq!(items_view(None), Ok(ItemsView::Summary));
    assert_eq!(items_view(Some("notLoaded")), Ok(ItemsView::NotLoaded));
    assert_eq!(items_view(Some("full")), Err(HistoryCode::UnsupportedItemsView));
}

#[test]
fn stale_cursors_are_detected() {
    assert!(!list_cursor_stale(true, 30, 30));
    assert!(!list_cursor_stale(true, 31, 30));
    assert!(list_cursor_stale(false, 31, 30));
    assert!(list_cursor_stale(true, 29, 30));
    let mut c = Cursor::new("item", "thread", "turn", "asc", -1);
    c.id = "big".to_string();
    c.ordinal = 402;
    c.item_version = 7;
    c.length = 20000;
    c.offset = 8192;
    assert!(!content_cursor_stale(&c, "big", 402, 7, 20000));
    assert!(content_cursor_stale(&c, "big", 999, 7, 20000));
    assert!(content_cursor_stale(&c, "big", 402, 8, 20000));
    assert!(content_cursor_stale(&c, "other", 402, 7, 20000));
    assert!(content_cursor_stale(&c, "big", 402, 7, 100));
}

#[test]
fn content_offsets_advance_by_whole_chunks() {
    assert_eq!(next_content_offset(0, 8192, 20000), (8192, true));
    assert_eq!(next_content_offset(16384, 3616, 20000), (20000, false));
    assert_eq!(rollout_matches(None, 10), None);
    assert_eq!(rollout_matches(Some(10), 10), Some(true));
    assert_eq!(rollout_matches(Some(10), 9), Some(false));
    assert_eq!(rollout_matches(Some(0), -1), Some(false));
}

#[test]
fn owner_discovery_and_expected_owner() {
    assert_eq!(owner_from_discovery(true, Some("owner-1".to_string()), true), Ok("owner-1".to_string()));
    assert_eq!(owner_from_discovery(false, Some("owner-1".to_string()), true), Err(IpcCode::OwnerUnavailable));
    assert_eq!(owner_from_discovery(true, None, true), Err(IpcCode::OwnerUnavailable));
    assert_eq!(owner_from_discovery(true, Some("owner-1".to_string()), false), Err(IpcCode::ProtocolMismatch));
    assert_eq!(check_expected_owner("owner-1", None), Ok(()));
    assert_eq!(check_expected_owner("owner-1", Some("owner-1")), Ok(()));
    assert_eq!(check_expected_owner("owner-2", Some("owner-1")), Err(IpcCode::OwnerChanged));
    assert!(snapshot_is_current(5, 5));
    assert!(!snapshot_is_current(4, 5));
    assert!(owner_change_invalidates(None, "owner-1"));
    assert!(owner_change_invalidates(Some("owner-1"), "owner-2"));
    assert!(!owner_change_invalidates(Some("owner-1"), "owner-1"));
}

fn broadcast(method: &str, version: Option<u64>, source: Option<&str>, owner: Option<&str>) -> IncomingIpc {
    IncomingIpc {
        kind: "broadcast".to_string(),
        method: method.to_string(),
        version,
        host_id: Some("local".to_string()),
        conversation_id: Some("thread".to_string()),
        source_client_id: source.map(str::to_string),
        recorded_owner: owner.map(str::to_string),
        snapshot_change: true,
        revision: Some(3),
    }
}

#[test]
fn only_the_recorded_owner_updates_a_snapshot() {
    let state = "thread-stream-state-changed";
    assert_eq!(
        ipc_action(&broadcast(state, Some(11), Some("owner-1"), Some("owner-1"))),
        IpcAction::Record { store_snapshot: true }
    );
    assert_eq!(ipc_action(&broadcast(state, Some(11), Some("intruder"), Some("owner-1"))), IpcAction::Ignore);
    assert_eq!(
        ipc_action(&broadcast(state, Some(10), Some("owner-1"), Some("owner-1"))),
        IpcAction::Close(CloseReason::UnsupportedStreamVersion)
    );
    assert_eq!(
        ipc_action(&broadcast("ipc-connection-reset", None, None, None)),
        IpcAction::Close(CloseReason::Reset)
    );
    let mut remote = broadcast(state, Some(11), Some("owner-1"), Some("owner-1"));
    remote.host_id = Some("remote".to_string());
    assert_eq!(ipc_action(&remote), IpcAction::Ignore);
    let mut request = broadcast("x", None, None, None);
    request.kind = "request".to_string();
    assert_eq!(ipc_action(&request), IpcAction::RefuseRequest);
    request.kind = "client-discovery".to_string();
    assert_eq!(ipc_action(&request), IpcAction::RefuseDiscovery);
    request.kind = "response".to_string();
    assert_eq!(ipc_action(&request), IpcAction::DeliverResponse);
}

#[test]
fn the_event_window_keeps_the_newest_events_within_its_bounds() {
    let mut window: EventWindow<u64> = EventWindow::new();
    for n in 1..=150u64 {
        assert_eq!(window.push(n, 10), n);
    }
    assert_eq!(window.events.len(), MAX_RETAINED_EVENTS);
    assert_eq!(window.events[0].sequence, 51);
    assert_eq!(window.events[MAX_RETAINED_EVENTS - 1].body, 150);
    assert_eq!(total_bytes(&window.events), 10 * MAX_RETAINED_EVENTS);
    window.push(151, MAX_RETAINED_BYTES - 5);
    assert!(total_bytes(&window.events) <= MAX_RETAINED_BYTES);
    assert_eq!(window.events.last().map(|event| event.sequence), Some(151));
    assert_eq!(window.latest_sequence, 151);
}

#[test]
fn recent_events_after_a_sequence_are_paged_oldest_first() {
    let mut window: EventWindow<&str> = EventWindow::new();
    for body in ["a", "b", "c", "d", "e"] {
        window.push(body, 1);
    }
    assert_eq!(recent_event_indices(&window.events, 2, 2), vec![2, 3]);
    assert_eq!(recent_event_indices(&window.events, 0, 100), vec![0, 1, 2, 3, 4]);
    assert!(recent_event_indices(&window.events, 5, 10).is_empty());
    assert_eq!(recent_events_limit(None), 100);
    assert_eq!(recent_events_limit(Some(0)), 1);
    assert_eq!(recent_events_limit(Some(900)), 500);
    assert_eq!(recent_events_limit(Some(42)), 42);
}

#[test]
fn a_failed_connection_reports_the_desktop_unavailable() {
    let report = connect_failure();
    assert_eq!((report.status, report.code, report.retry_safe), (503, IpcCode::DesktopIpcUnavailable, true));
}

#[test]
fn paging_within_the_byte_budget_loses_no_row() {
    // 30 turns whose rows carry about 30 KB each, read 100 at a time.
    let sizes: Vec<usize> = (5..=30).map(|n| 30_000 + n).chain((1..=4).map(|n| 30_000 + n)).collect();
    let limit = 100;
    let mut offset = 0;
    let mut pages = 0;
    let mut seen = Vec::new();
    loop {
        let fetched = &sizes[offset..(offset + limit + 1).min(sizes.len())];
        let (count, more) = paginate(fetched, limit, PAGE_BYTES);
        assert!(count >= 1);
        let bytes: usize = fetched[..count].iter().sum();
        assert!(bytes <= PAGE_BYTES);
        seen.extend(offset..offset + count);
        offset += count;
        pages += 1;
        if !more {
            break;
        }
    }
    assert!(pages > 1);
    assert_eq!(seen, (0..30).collect::<Vec<usize>>());
}

#[test]
fn cursor_hex_pairs_accept_a_leading_plus_like_from_str_radix() {
    assert_eq!(decode_cursor_text("+f0a"), Ok(vec![15, 10]));
    assert_eq!(decode_cursor_text("0A"), Ok(vec![10]));
    assert_eq!(decode_cursor_text("-f"), Err(HistoryCode::InvalidCursor));
    assert_eq!(decode_cursor_text("++"), Err(HistoryCode::InvalidCursor));
}

#[test]
fn malformed_cursor_texts_are_invalid() {
    for raw in ["1", "zz", "汉字"] {
        assert_eq!(decode_cursor_text(raw), Err(HistoryCode::InvalidCursor), "{raw}");
    }
    let fresh = Cursor::new("turns", "thread", "", "desc", -1);
    assert_eq!(fresh.check_scope("turns", "thread", "", "desc"), Ok(()));
    assert_eq!(encode_cursor_text(&[0x7b, 0x7d]), "7b7d");
    assert_eq!(decode_cursor_text("7b7d"), Ok(vec![0x7b, 0x7d]));
}

fn turns_desc(count: i64, size: usize) -> Vec<TurnRecord> {
    (1..=count)
        .rev()
        .map(|n| TurnRecord {
            id: format!("turn-{n}"),
            ordinal: n,
            first_user_item: Some(format!("user-{n}")),
            final_agent_item: if n % 2 == 0 { Some(format!("final-{n}")) } else { None },
            latest_agent_item: Some(format!("latest-{n}")),
            size,
        })
        .collect()
}

#[test]
fn turn_pages_are_stable_bounded_and_lose_no_turn() {
    let mut turns = turns_desc(30, 100_000);
    let first = turn_page(&turns, "thread", SortOrder::Desc, ItemsView::Summary, 100, PAGE_BYTES, None).unwrap();
    assert_eq!(first.turns.len(), 2);
    assert_eq!(first.turns[0].id, "turn-30");
    assert_eq!(first.turns[0].items, vec!["user-30".to_string(), "final-30".to_string()]);
    assert_eq!(first.turns[1].items, vec!["user-29".to_string(), "latest-29".to_string()]);
    // A new turn arrives: the pages of the running scan do not move.
    turns.insert(0, turns_desc(31, 100_000).remove(0));
    let mut seen: Vec<String> = first.turns.iter().map(|t| t.id.clone()).collect();
    let mut cursor = first.next_cursor;
    while let Some(c) = cursor {
        let page = turn_page(&turns, "thread", SortOrder::Desc, ItemsView::NotLoaded, 100, PAGE_BYTES, Some(c)).unwrap();
        assert!(page.turns.iter().all(|t| t.items.is_empty()));
        seen.extend(page.turns.iter().map(|t| t.id.clone()));
        cursor = page.next_cursor;
    }
    let expected: Vec<String> = (1..=30).rev().map(|n| format!("turn-{n}")).collect();
    assert_eq!(seen, expected);
    let latest = turn_page(&turns, "thread", SortOrder::Desc, ItemsView::Summary, 1, PAGE_BYTES, None).unwrap();
    assert_eq!(latest.turns[0].id, "turn-31");
}

#[test]
fn turn_cursors_are_scoped_and_deleted_anchors_are_rejected() {
    let turns = turns_desc(5, 10);
    let page = turn_page(&turns, "thread", SortOrder::Desc, ItemsView::Summary, 2, PAGE_BYTES, None).unwrap();
    let other_thread = turn_page(&turns, "other", SortOrder::Desc, ItemsView::Summary, 2, PAGE_BYTES, page.next_cursor);
    assert_eq!(other_thread.unwrap_err(), HistoryCode::InvalidCursor);
    let page = turn_page(&turns, "thread", SortOrder::Desc, ItemsView::Summary, 2, PAGE_BYTES, None).unwrap();
    let without_anchor: Vec<TurnRecord> = turns.into_iter().filter(|t| t.id != "turn-4").collect();
    let stale = turn_page(&without_anchor, "thread", SortOrder::Desc, ItemsView::Summary, 2, PAGE_BYTES, page.next_cursor);
    assert_eq!(stale.unwrap_err(), HistoryCode::StaleCursor);
    let asc = turn_page(&turns_desc(3, 10), "thread", SortOrder::Asc, ItemsView::Summary, 5, PAGE_BYTES, None).unwrap();
    assert_eq!(asc.turns.len(), 3);
    assert!(asc.next_cursor.is_none());
    assert_eq!(item_preview(&"字".repeat(2500)).chars().count(), 2000);
    assert_eq!(item_preview("short"), "short");
}

#[test]
fn started_turn_answers_the_owner_result_or_a_protocol_mismatch() {
    let answered = owner_turn_result(Some("new-turn"));
    assert!(matches!(answered, Ok("new-turn")));
    match owner_turn_result::<&str>(None) {
        Err(report) => {
            assert_eq!(report.status, 502);
            assert_eq!(report.code, IpcCode::ProtocolMismatch);
            assert!(!report.retry_safe);
        },
        Ok(_) => panic!("a missing result is a protocol mismatch"),
    }
}
