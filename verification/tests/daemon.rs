use cli_pocket::dialer::jitter_byte;
use std::path::Path;

use base64::Engine;

use cli_pocket::access::{
    accept_direct, authorize_client, handshake_for, requested_subprotocol_supported, version_banner,
    AcceptedTransportKind, HandshakeKind,
};
use cli_pocket::client_db::{ClientDb, ClientRecord, ReloadStep};
use cli_pocket::connection::{
    baseline_start_seq, plan_live_output, plan_stream_chunks, route_request, server_config_scrollback,
    validate_hello, ClientFrame, Connection, Hello, OutputPiece, Phase, RequestBody, RequestId, RevocationStep,
    Route, Step, StreamChunk, StreamId, StreamTable, PROTOCOL_VERSION,
};
use cli_pocket::daemon_config::{
    build_config_template, build_pairing_offer_url, daemon_pair_url, default_config_path, default_state_dir,
    dev_config_template, generate_relay_psk_hex, join_path, relay_client_ws_url, relay_client_ws_url_for_server,
    relay_psk_bytes, relay_server_ws_url, relay_server_ws_url_for_server, server_label, AppConfig,
    PairingOffer, RelayRetryConfig, SecurityConfig,
};
use cli_pocket::daemon_error::DaemonError;
use cli_pocket::dialer::{
    bridge_ws_step, jitter, next_delay, registration_outcome, registration_wait_step, Backoff, BridgeStep, Bridges,
    RetryPolicy,
};
use cli_pocket::pairing::{format_code, generate_pair_code, generate_pair_code_except, parse_u32, PairingCodes};
use cli_pocket::proto::{ClientId, IpAddress, PairId, ServerId, StreamSeq, TerminalId};
use cli_pocket::relay_route::{RelayCtrl, RelayWire, WsKind};
use cli_pocket::resume::{ResumeError, ResumeTokenSecret};
use cli_pocket::session::SessionManager;
use uuid::Uuid;

fn sid() -> ServerId {
    ServerId(Uuid::parse_str("00112233-4455-6677-8899-aabbccddeeff").unwrap().as_u128())
}

#[test]
fn app_config_defaults_to_official_base_url() {
    assert_eq!(AppConfig::default().base_url, "https://cli-pocket.32r4.asia");
}

#[test]
fn pairing_offer_url_uses_fragment_and_trims_trailing_slash() {
    let server_id = ServerId(Uuid::parse_str("01912d68-783e-7a0b-8f5c-3c2e9d1b4a77").unwrap().as_u128());
    let url = build_pairing_offer_url(
        "https://cli-pocket.32r4.asia/",
        &PairingOffer {
            label: Some("Primary Server".to_owned()),
            server_id,
            server_public_hex: "11".repeat(32),
            relay_url: "wss://relay.example/ws/client?server=abc".to_owned(),
            relay_psk_hex: "22".repeat(32),
        },
    )
    .expect("build pairing offer url");

    assert!(url.starts_with("https://cli-pocket.32r4.asia/#pair="));
    assert!(url.contains("#pair="));
    assert!(!url.contains("/#pair=#pair="));
}

#[test]
fn relay_ws_urls_append_routes_to_base_url() {
    assert_eq!(relay_server_ws_url("wss://relay.example/").expect("server ws url"), "wss://relay.example/ws/server");
    assert_eq!(
        relay_server_ws_url_for_server("wss://relay.example", sid()).expect("server ws url for server"),
        "wss://relay.example/ws/server?server=00112233-4455-6677-8899-aabbccddeeff"
    );
    assert_eq!(relay_client_ws_url("wss://relay.example").expect("client ws url"), "wss://relay.example/ws/client");
    assert_eq!(
        relay_client_ws_url_for_server("wss://relay.example", sid()).expect("client ws url for server"),
        "wss://relay.example/ws/client?server=00112233-4455-6677-8899-aabbccddeeff"
    );
}

#[test]
fn relay_base_must_be_a_websocket_url() {
    assert_eq!(
        relay_server_ws_url("https://relay.example"),
        Err(DaemonError::Config("relay.base_url must start with ws:// or wss://".to_string()))
    );
    assert_eq!(relay_client_ws_url("  ws://r//  ").unwrap(), "ws://r/ws/client");
}

#[test]
fn default_state_dir_ends_with_dot_cli_pocket() {
    assert!(Path::new(&default_state_dir(Some("/home/someone"))).ends_with(Path::new(".cli-pocket")));
    assert_eq!(default_state_dir(None), ".cli-pocket");
}

#[test]
fn default_config_path_is_inside_dot_cli_pocket() {
    assert!(Path::new(&default_config_path(Some("/home/someone"))).ends_with(Path::new(".cli-pocket/daemon.toml")));
    assert_eq!(default_config_path(Some("/home/someone/")), "/home/someone/.cli-pocket/daemon.toml");
}

#[test]
fn state_files_follow_the_config_file() {
    let s = SecurityConfig::for_config_path("/etc/cli-pocket/daemon.toml", Some("/home/x"));
    assert_eq!(s.identity_path, "/etc/cli-pocket/identity.json");
    assert_eq!(s.clients_path, "/etc/cli-pocket/clients.json");
    assert_eq!(s.revoked_path, "/etc/cli-pocket/revoked.json");
    let s = SecurityConfig::for_config_path("daemon.toml", Some("/home/x"));
    assert_eq!(s.identity_path, "/home/x/.cli-pocket/identity.json");
    let s = SecurityConfig::for_config_path("crates/server/daemon-bin/daemon.dev.toml", None);
    assert_eq!(s.clients_path, ".cache/cli-pocket-daemon-dev/clients.json");
    assert_eq!(join_path("", "a"), "a");
}

#[test]
fn retry_defaults() {
    assert_eq!(RelayRetryConfig::default(), RelayRetryConfig { initial_ms: 500, max_ms: 30_000, mul_x10: 20 });
    assert!(build_config_template().contains("[relay]"));
    assert!(dev_config_template().contains("[app]"));
}

#[test]
fn pair_url_builds_canonical_offer_url() {
    let url = daemon_pair_url("https://cli-pocket.example/", "wss://relay.example", &"22".repeat(32), sid(), &[7u8; 32])
        .expect("build pair url");

    assert!(url.starts_with("https://cli-pocket.example/#pair="));
}

#[test]
fn pair_url_requires_relay_psk() {
    let err = daemon_pair_url("https://cli-pocket.32r4.asia", "wss://relay.example", "", sid(), &[7u8; 32])
        .expect_err("missing relay psk should fail");

    assert!(err.message().contains("relay.psk_hex"));
}

#[test]
fn pair_url_checks_the_psk() {
    assert_eq!(
        daemon_pair_url("https://a", "wss://r", "abcd", sid(), &[7u8; 32]),
        Err(DaemonError::Config("pair-url requires relay.psk_hex to decode to 32 bytes".to_string()))
    );
    let err = daemon_pair_url("https://a", "wss://r", "zz", sid(), &[7u8; 32]).unwrap_err();
    assert!(err.message().starts_with("config: relay.psk_hex: "));
    assert_eq!(
        daemon_pair_url("ftp://a", "wss://r", &"22".repeat(32), sid(), &[7u8; 32]),
        Err(DaemonError::Config("app.base_url must start with http:// or https://".to_string()))
    );
    assert_eq!(relay_psk_bytes(&"ab".repeat(32)), Some(vec![0xab; 32]));
    assert_eq!(relay_psk_bytes("ab"), None);
}

#[test]
fn pairing_payload_is_compact_json() {
    let offer = PairingOffer {
        label: Some(" ".to_owned()),
        server_id: sid(),
        server_public_hex: "aa".to_owned(),
        relay_url: "wss://r/\"x\"".to_owned(),
        relay_psk_hex: "bb".to_owned(),
    };
    let payload = cli_pocket::daemon_config::pairing_offer_payload(&offer);
    assert_eq!(
        payload,
        "{\"v\":1,\"serverId\":\"00112233-4455-6677-8899-aabbccddeeff\",\"serverPublicHex\":\"aa\",\"relay\":{\"url\":\"wss://r/\\\"x\\\"\",\"pskHex\":\"bb\"}}"
    );
}

#[test]
fn pairing_fragment_is_the_payload_in_url_safe_base64() {
    let offer = PairingOffer {
        label: Some("Desk".to_owned()),
        server_id: sid(),
        server_public_hex: "ab".repeat(32),
        relay_url: "wss://relay.example/ws/client?server=x".to_owned(),
        relay_psk_hex: "cd".repeat(32),
    };
    let url = build_pairing_offer_url("  https://app.example//  ", &offer).unwrap();
    let (base, fragment) = url.split_once("/#pair=").unwrap();
    assert_eq!(base, "https://app.example");
    let decoded = base64::engine::general_purpose::URL_SAFE_NO_PAD.decode(fragment).unwrap();
    assert_eq!(String::from_utf8(decoded).unwrap(), cli_pocket::daemon_config::pairing_offer_payload(&offer));
    assert!(!fragment.contains('{'));
}

#[test]
fn generated_relay_psk_has_32_random_bytes() {
    let psk_hex = generate_relay_psk_hex().expect("generate relay psk");
    assert_eq!(psk_hex.len(), 64);
    assert!(psk_hex.chars().all(|ch| ch.is_ascii_hexdigit()));
}

#[test]
fn server_label_takes_the_first_present_value() {
    assert_eq!(server_label(&vec![Some("  box ".to_string()), Some("other".to_string())]), Some("box".to_string()));
    assert_eq!(server_label(&vec![Some(" ".to_string()), Some("other".to_string())]), Some("other".to_string()));
    assert_eq!(server_label(&vec![None, Some("other".to_string())]), None);
}

#[test]
fn protocol_version_constant_is_one() {
    assert_eq!(PROTOCOL_VERSION, 1);
}

#[test]
fn banner_mentions_proto_version() {
    assert!(version_banner().contains("proto v0"));
}

fn test_cid() -> ClientId {
    ClientId(Uuid::from_bytes([1u8, 2, 3, 4, 5, 6, 7, 8, 9, 10, 11, 12, 13, 14, 15, 16]).as_u128())
}

fn test_tid() -> TerminalId {
    TerminalId(Uuid::from_bytes([16u8, 15, 14, 13, 12, 11, 10, 9, 8, 7, 6, 5, 4, 3, 2, 1]).as_u128())
}

#[test]
fn mint_and_verify_roundtrip() {
    let secret = ResumeTokenSecret::from_bytes([42u8; 32]);
    let cid = test_cid();
    let tid = test_tid();
    let token = secret.mint(&cid, &tid, 1_700_000_000_000, 60_000);
    let verified = secret.verify(&token, 1_700_000_030_000).unwrap();
    assert_eq!(verified.client_id, cid);
    assert_eq!(verified.terminal_id, tid);
    assert_eq!(verified.issued_ms, 1_700_000_000_000);
    assert_eq!(verified.expiry_ms, 1_700_000_060_000);
    assert_eq!(&token.bytes[1..17], Uuid::from_u128(cid.0).as_bytes());
}

#[test]
fn expired_rejected() {
    let secret = ResumeTokenSecret::from_bytes([42u8; 32]);
    let token = secret.mint(&test_cid(), &test_tid(), 1_000, 100);
    assert!(secret.verify(&token, 2_000).is_err());
    assert_eq!(secret.verify(&token, 1_100).unwrap_err(), ResumeError::Expired);
}

#[test]
fn forged_tag_rejected() {
    let secret = ResumeTokenSecret::from_bytes([1u8; 32]);
    let mut token = secret.mint(&test_cid(), &test_tid(), 0, 10_000);
    let last = token.bytes.len() - 1;
    token.bytes[last] ^= 0x01;
    assert!(secret.verify(&token, 1_000).is_err());
    assert_eq!(secret.verify(&token, 1_000).unwrap_err(), ResumeError::BadTag);
}

#[test]
fn different_key_rejected() {
    let s1 = ResumeTokenSecret::from_bytes([1u8; 32]);
    let s2 = ResumeTokenSecret::from_bytes([2u8; 32]);
    let token = s1.mint(&test_cid(), &test_tid(), 0, 10_000);
    assert!(s2.verify(&token, 1_000).is_err());
}

#[test]
fn malformed_and_bad_version_tokens() {
    let s = ResumeTokenSecret::from_bytes([1u8; 32]);
    let mut token = s.mint(&test_cid(), &test_tid(), 0, 10_000);
    token.bytes[0] = 2;
    assert_eq!(s.verify(&token, 1).unwrap_err(), ResumeError::BadVersion);
    token.bytes.pop();
    assert_eq!(s.verify(&token, 1).unwrap_err(), ResumeError::Malformed);
    assert_eq!(ResumeError::BadTag.message(), "bad tag");
}

#[test]
fn hello_is_checked_against_the_protocol_version() {
    assert_eq!(validate_hello(&Hello { protocol_min: 1, protocol_max: 3, resume: None }), Ok(()));
    assert_eq!(
        validate_hello(&Hello { protocol_min: 2, protocol_max: 3, resume: None }),
        Err(DaemonError::Internal("protocol version mismatch: client supports 2..3, server is 1".to_string()))
    );
}

#[test]
fn connection_state_machine() {
    let mut c = Connection::new();
    assert_eq!(
        c.on_frame(ClientFrame::Hello(Hello { protocol_min: 1, protocol_max: 1, resume: Some(vec![1]) })),
        Step::SendHelloOk { resumed: true }
    );
    assert_eq!(c.phase, Phase::Open);
    assert_eq!(c.on_frame(ClientFrame::Ping(9)), Step::Pong(9));
    assert_eq!(
        c.on_frame(ClientFrame::Request(RequestId(4), RequestBody::ListTerminals)),
        Step::Answer(RequestId(4), Route::List)
    );
    assert_eq!(c.on_frame(ClientFrame::Other), Step::Ignore);
    assert_eq!(c.on_revocation(false, false), RevocationStep::Continue);
    assert_eq!(c.on_frame(ClientFrame::Bye), Step::Finish);
    assert_eq!(c.phase, Phase::Closed);

    let mut c = Connection::new();
    assert_eq!(
        c.on_frame(ClientFrame::Ping(1)),
        Step::RejectFirstFrame(DaemonError::Internal("expected Hello as first frame".to_string()))
    );
    let mut c = Connection::new();
    assert_eq!(c.on_revocation(false, true), RevocationStep::ByeRevoked);
    assert_eq!(c.on_revocation(true, true), RevocationStep::Finish);
}

#[test]
fn requests_route_to_the_attached_stream() {
    let mut streams = StreamTable::new();
    let t = TerminalId(5);
    assert_eq!(route_request(&streams, RequestId(1), &RequestBody::SendInput { terminal_id: t }), Route::UnknownTerminal);
    let s = streams.attach(t);
    assert_eq!(s, StreamId(1));
    assert_eq!(route_request(&streams, RequestId(1), &RequestBody::SendInput { terminal_id: t }), Route::Input(s));
    assert_eq!(
        route_request(&streams, RequestId(1), &RequestBody::ResizeTerminal { terminal_id: t, cols: 3, rows: 4 }),
        Route::Resize { stream: s, cols: 3, rows: 4 }
    );
    assert_eq!(
        route_request(&streams, RequestId(8), &RequestBody::ReadHistory { terminal_id: t, before: None, max_bytes: 10 }),
        Route::History { terminal_id: t, stream: StreamId(8), before: None, max_bytes: 10 }
    );
    let s2 = streams.attach(TerminalId(6));
    assert_eq!(s2, StreamId(2));
    assert_eq!(streams.terminal_of(s), None);
    assert_eq!(streams.terminal_of(s2), Some(TerminalId(6)));
    assert_eq!(route_request(&streams, RequestId(1), &RequestBody::SendInput { terminal_id: t }), Route::UnknownTerminal);
}

#[test]
fn snapshot_chunks_cover_the_payload() {
    let chunks = plan_stream_chunks(40_000, StreamSeq(100), Some(0), 16_384, false);
    assert_eq!(chunks.len(), 3);
    assert_eq!(chunks[0], StreamChunk { seq: StreamSeq(100), offset: Some(0), start: 0, end: 16_384, last: false });
    assert_eq!(chunks[2], StreamChunk { seq: StreamSeq(100), offset: Some(32_768), start: 32_768, end: 40_000, last: true });
    let history = plan_stream_chunks(20_000, StreamSeq(100), Some(0), 16_384, true);
    assert_eq!(history[1].seq, StreamSeq(16_484));
    assert_eq!(
        plan_stream_chunks(0, StreamSeq(7), None, 16_384, true),
        vec![StreamChunk { seq: StreamSeq(7), offset: None, start: 0, end: 0, last: true }]
    );
}

#[test]
fn live_output_pieces_carry_end_positions() {
    let pieces = plan_live_output(StreamSeq(20_000), 20_000, TerminalId(1)).unwrap();
    assert_eq!(
        pieces,
        vec![
            OutputPiece { seq: StreamSeq(16_384), start: 0, end: 16_384 },
            OutputPiece { seq: StreamSeq(20_000), start: 16_384, end: 20_000 },
        ]
    );
    assert_eq!(plan_live_output(StreamSeq(5), 0, TerminalId(1)).unwrap(), vec![]);
    assert_eq!(
        plan_live_output(StreamSeq(5), 6, TerminalId(0x00112233445566778899aabbccddeeff)),
        Err(DaemonError::Internal(
            "output sequence underflow for terminal TerminalId(00112233-4455-6677-8899-aabbccddeeff)".to_string()
        ))
    );
    assert_eq!(baseline_start_seq(StreamSeq(10), 4), StreamSeq(6));
    assert_eq!(baseline_start_seq(StreamSeq(3), 4), StreamSeq(0));
    assert_eq!(server_config_scrollback(4096), Ok(4096));
}

#[test]
fn starts_with_six_digit_code() {
    let codes = PairingCodes::new(60_000, 0);
    let code = codes.current_code();
    assert_eq!(code.len(), 6);
    assert!(code.chars().all(|c| c.is_ascii_digit()));
}

#[test]
fn rotate_changes_current_code() {
    let mut codes = PairingCodes::new(60_000, 0);
    let before = codes.current_code();
    let after = codes.rotate(10);
    assert_ne!(before, after);
    assert_eq!(codes.current_code(), after);
}

#[test]
fn current_match_preserves_code_until_consumed() {
    let mut codes = PairingCodes::new(60_000, 0);
    let code = codes.current_code();
    assert!(codes.match_current(&code));
    assert!(codes.match_current(&code));
    assert_eq!(codes.consume_current("nope", 5), None);
    let next = codes.consume_current(&code, 5).expect("consumed");
    assert_ne!(next, code);
    assert!(!codes.match_current(&code));
    assert_eq!(codes.consume_current(&code, 6), None);
}

#[test]
fn ttl_expiry_rotates_code() {
    let mut codes = PairingCodes::new(1_000, 0);
    let code = codes.current_code();
    assert_eq!(codes.rotate_if_expired(999), None);
    let next = codes.rotate_if_expired(1_000).expect("expired");
    assert_ne!(next, code);
}

#[test]
fn pair_codes_are_zero_padded_and_fall_back_in_sequence() {
    assert_eq!(format_code(42), "000042");
    assert_eq!(parse_u32("+17"), Some(17));
    assert_eq!(parse_u32("4294967296"), None);
    assert_eq!(parse_u32(""), None);
    let next = generate_pair_code_except("123456");
    assert_ne!(next, "123456");
    assert_eq!(generate_pair_code().len(), 6);
}

#[test]
fn subprotocol_offer_is_found_among_items() {
    assert!(requested_subprotocol_supported("cli-pocket-server/v1"));
    assert!(requested_subprotocol_supported("chat, cli-pocket-server/v1 "));
    assert!(!requested_subprotocol_supported("chat,cli-pocket-server/v2"));
    assert!(!requested_subprotocol_supported(""));
}

#[test]
fn session_path_is_the_only_direct_path() {
    assert_eq!(
        accept_direct(Some("/session"), IpAddress::V4(127, 0, 0, 1)),
        Some(AcceptedTransportKind::Direct { auto_pair: true })
    );
    assert_eq!(
        accept_direct(Some("/session"), IpAddress::V4(10, 0, 0, 1)),
        Some(AcceptedTransportKind::Direct { auto_pair: false })
    );
    assert_eq!(accept_direct(Some("/pair"), IpAddress::V4(127, 0, 0, 1)), None);
    assert_eq!(accept_direct(None, IpAddress::V4(127, 0, 0, 1)), None);
    assert_eq!(handshake_for(AcceptedTransportKind::Relay, true), HandshakeKind::Relay { has_psk: true });
}

fn record(id: u128, key: u8, at: u64) -> ClientRecord {
    ClientRecord { client_id: ClientId(id), public_key: [key; 32], paired_at: at }
}

#[test]
fn pair_persists_and_lookup_works() {
    let db = ClientDb::empty();
    let db = db.with_added(record(1, 7, 10)).unwrap();
    assert_eq!(db.lookup_by_public(&[7; 32]), Some(record(1, 7, 10)));
    assert_eq!(db.lookup_by_id(&ClientId(1)), Some(record(1, 7, 10)));
    assert_eq!(authorize_client(&db, &[7; 32]), Ok(record(1, 7, 10)));
    assert_eq!(authorize_client(&db, &[8; 32]), Err(DaemonError::NotPaired("08".repeat(32))));
}

#[test]
fn revoked_client_is_refused() {
    let db = ClientDb::empty().with_added(record(0x00112233445566778899aabbccddeeff, 7, 10)).unwrap();
    let db = db.with_revoked(ClientId(0x00112233445566778899aabbccddeeff)).unwrap();
    assert!(db.with_revoked(ClientId(0x00112233445566778899aabbccddeeff)).is_none());
    assert_eq!(
        authorize_client(&db, &[7; 32]),
        Err(DaemonError::Revoked("ClientId(00112233-4455-6677-8899-aabbccddeeff)".to_string()))
    );
}

#[test]
fn duplicate_client_id_is_rejected_without_changing_indexes() {
    let db = ClientDb::empty().with_added(record(1, 7, 10)).unwrap();
    assert!(db.with_added(record(1, 8, 11)).is_err());
    assert_eq!(db.list(), vec![record(1, 7, 10)]);
}

#[test]
fn duplicate_public_key_is_rejected_without_changing_indexes() {
    let db = ClientDb::empty().with_added(record(1, 7, 10)).unwrap();
    assert_eq!(
        db.with_added(record(2, 7, 11)).err().unwrap(),
        DaemonError::ClientDb("duplicate public_key".to_string())
    );
    assert!(db.lookup_by_id(&ClientId(2)).is_none());
}

#[test]
fn open_rejects_duplicate_records_from_disk() {
    assert!(ClientDb::from_files(vec![record(1, 7, 10), record(1, 8, 11)], vec![]).is_err());
    assert!(ClientDb::from_files(vec![record(1, 7, 10), record(2, 7, 11)], vec![]).is_err());
}

#[test]
fn persisted_files_reload_to_the_same_database() {
    let db = ClientDb::empty().with_added(record(2, 8, 20)).unwrap().with_added(record(1, 7, 10)).unwrap();
    let db = db.with_revoked(ClientId(2)).unwrap();
    let clients = db.clients_file();
    assert_eq!(clients, vec![record(1, 7, 10), record(2, 8, 20)]);
    let reloaded = ClientDb::from_files(clients, db.revoked_file()).unwrap();
    assert_eq!(reloaded.lookup_by_public(&[8; 32]), Some(record(2, 8, 20)));
    assert!(reloaded.is_revoked(&ClientId(2)));
    assert!(!reloaded.is_revoked(&ClientId(1)));
}

#[test]
fn reload_notifies_only_on_revocation_changes() {
    let db = ClientDb::empty().with_added(record(1, 7, 10)).unwrap();
    let same = ClientDb::from_files(vec![record(1, 7, 10)], vec![]).unwrap();
    let revoked = ClientDb::from_files(vec![record(1, 7, 10)], vec![ClientId(1)]).unwrap();
    assert_eq!(db.reload_step(false, &Some(same)), ReloadStep::Keep);
    let same = ClientDb::from_files(vec![record(1, 7, 10)], vec![]).unwrap();
    assert_eq!(db.reload_step(true, &Some(same)), ReloadStep::Replace { revocations_changed: false });
    assert_eq!(db.reload_step(true, &Some(revoked)), ReloadStep::Replace { revocations_changed: true });
    assert_eq!(db.reload_step(true, &None), ReloadStep::Keep);
}

#[test]
fn new_manager_has_zero_count() {
    let table: SessionManager<u8> = SessionManager::new(8);
    assert_eq!(table.count(), 0);
    assert!(table.list().is_empty());
}

#[test]
fn attach_returns_none_for_missing_id() {
    let table: SessionManager<u8> = SessionManager::new(8);
    assert!(table.attach(&TerminalId(3)).is_none());
}

#[test]
fn enforces_max_terminals() {
    let mut table: SessionManager<u8> = SessionManager::new(1);
    assert!(table.check_capacity().is_ok());
    table.insert(TerminalId(1), 9, 100);
    assert_eq!(table.check_capacity(), Err(DaemonError::Internal("terminal limit reached (1)".to_string())));
    assert_eq!(table.list(), vec![(TerminalId(1), 100)]);
    assert_eq!(table.attach(&TerminalId(1)), Some(&9));
    assert_eq!(table.remove(&TerminalId(1)), Some(9));
    assert!(table.check_capacity().is_ok());
}

#[test]
fn kill_unknown_terminal_returns_error() {
    let table: SessionManager<u8> = SessionManager::new(1);
    assert_eq!(
        table.kill_target(&TerminalId(0x00112233445566778899aabbccddeeff)),
        Err(DaemonError::Internal("unknown terminal TerminalId(00112233-4455-6677-8899-aabbccddeeff)".to_string()))
    );
}

#[test]
fn backoff_grows_and_resets() {
    assert_eq!(next_delay(500, 30_000, 20), 1_000);
    assert_eq!(next_delay(20_000, 30_000, 20), 30_000);
    assert_eq!(next_delay(10, 30_000, 10), 50);
    assert_eq!(jitter(512, 128), 512);
    assert_eq!(jitter(512, 0), 384);
    assert_eq!(jitter(512, 255), 639);
    assert_eq!(jitter(0, 0), 1);
    let policy = RetryPolicy { initial_ms: 10, max_ms: 30_000, mul_x10: 20 };
    let mut b = Backoff::new(policy);
    assert_eq!(b.delay_ms, 50);
    b.start_attempt();
    assert_eq!(b.after_session(policy, false, 128), Some(50));
    assert_eq!(b.delay_ms, 100);
    assert_eq!(b.after_session(policy, true, 0), None);
    assert_eq!(b.delay_ms, 50);
    assert_eq!(b.attempts, 1);
    assert!(b.after_session_random(policy, false).is_some());
}

#[test]
fn relay_registration_answers() {
    assert_eq!(registration_outcome(&RelayWire::Ctrl(RelayCtrl::ServerRegisterOk)), Ok(()));
    assert_eq!(
        registration_outcome(&RelayWire::Ctrl(RelayCtrl::ServerRegisterErr { reason: "full".to_string() })),
        Err(DaemonError::Internal("relay rejected server registration: full".to_string()))
    );
    assert_eq!(
        registration_outcome(&RelayWire::Ctrl(RelayCtrl::ServerHeartbeat)),
        Err(DaemonError::Internal("unexpected relay registration response: ServerHeartbeat".to_string()))
    );
    assert_eq!(registration_wait_step(Some(WsKind::Ping)), Ok(false));
    assert_eq!(bridge_ws_step(Some(WsKind::Close)), Ok(cli_pocket::relay_route::WsStep::Stop));
    assert_eq!(
        bridge_ws_step(Some(WsKind::Frame)),
        Err(DaemonError::Internal("unexpected non-binary frame on relay dialer".to_string()))
    );
    assert_eq!(
        registration_wait_step(None),
        Err(DaemonError::Internal("relay websocket closed".to_string()))
    );
}

#[test]
fn relay_bridges_follow_pair_frames() {
    let mut b = Bridges::new();
    let open = b.on_frame(&RelayWire::Ctrl(RelayCtrl::PairInbound { pair_id: PairId(0x00112233445566778899aabbccddeeff) }));
    assert_eq!(
        open,
        BridgeStep::Open(PairId(0x00112233445566778899aabbccddeeff), "relay:PairId(00112233-4455-6677-8899-aabbccddeeff)".to_string())
    );
    let fwd = RelayWire::Forward { pair_id: PairId(0x00112233445566778899aabbccddeeff), bytes: vec![1] };
    assert_eq!(b.on_frame(&fwd), BridgeStep::Deliver(PairId(0x00112233445566778899aabbccddeeff)));
    assert_eq!(b.on_frame(&RelayWire::Forward { pair_id: PairId(2), bytes: vec![] }), BridgeStep::Ignore);
    b.on_delivery_failed(PairId(0x00112233445566778899aabbccddeeff));
    assert_eq!(b.on_frame(&fwd), BridgeStep::Ignore);
    assert!(!b.contains(PairId(0x00112233445566778899aabbccddeeff)));
}

#[test]
fn pairing_payload_escapes_control_characters_and_backslashes() {
    let offer = PairingOffer {
        label: Some("a\\b\n\u{1}x".to_owned()),
        server_id: ServerId(1),
        server_public_hex: "aa".to_owned(),
        relay_url: "u".to_owned(),
        relay_psk_hex: "bb".to_owned(),
    };
    let payload = cli_pocket::daemon_config::pairing_offer_payload(&offer);
    assert!(payload.starts_with("{\"v\":1,\"label\":\"a\\\\b\\n\\u0001x\","));
}

#[test]
fn join_path_with_an_absolute_name_takes_the_name() {
    assert_eq!(join_path("/home/x", "/etc/y"), "/etc/y");
    assert_eq!(join_path("/home/x/", "y"), "/home/x/y");
    assert_eq!(join_path("", "y"), "y");
    assert_eq!(join_path("/home/x", "y"), "/home/x/y");
}

#[test]
fn from_files_names_the_first_duplicate() {
    assert_eq!(
        ClientDb::from_files(vec![record(1, 7, 10), record(0x00112233445566778899aabbccddeeff, 8, 11), record(1, 9, 12)], vec![])
            .err()
            .unwrap(),
        DaemonError::ClientDb("duplicate client_id 00000000-0000-0000-0000-000000000001".to_string())
    );
    assert_eq!(
        ClientDb::from_files(vec![record(1, 7, 10), record(2, 7, 11)], vec![]).err().unwrap(),
        DaemonError::ClientDb("duplicate public_key".to_string())
    );
}

#[test]
fn attach_returns_the_terminal_stored_under_the_id() {
    let mut table: SessionManager<u8> = SessionManager::new(4);
    table.insert(TerminalId(1), 10, 100);
    table.insert(TerminalId(2), 20, 200);
    assert_eq!(table.attach(&TerminalId(2)), Some(&20));
    assert_eq!(table.kill_target(&TerminalId(1)), Ok(&10));
    assert_eq!(table.remove(&TerminalId(2)), Some(20));
    assert_eq!(table.attach(&TerminalId(1)), Some(&10));
}

#[test]
fn attach_stream_hands_out_fresh_ids_and_refuses_unknown_terminals() {
    let mut table: SessionManager<u8> = SessionManager::new(4);
    table.insert(TerminalId(1), 10, 100);
    let mut streams = StreamTable::new();
    assert_eq!(cli_pocket::connection::attach_stream(&mut streams, &table, TerminalId(9)), None);
    assert_eq!(streams.terminal_of(StreamId(1)), None);
    assert_eq!(cli_pocket::connection::attach_stream(&mut streams, &table, TerminalId(1)), Some(StreamId(1)));
    assert_eq!(cli_pocket::connection::attach_stream(&mut streams, &table, TerminalId(1)), Some(StreamId(2)));
    assert_eq!(streams.terminal_of(StreamId(1)), None);
    assert_eq!(streams.terminal_of(StreamId(2)), Some(TerminalId(1)));
}

#[test]
fn paired_key_of_a_revoked_record_is_refused_with_its_id() {
    let db = ClientDb::empty().with_added(record(1, 7, 10)).unwrap().with_added(record(2, 8, 11)).unwrap();
    let db = db.with_revoked(ClientId(2)).unwrap();
    assert_eq!(authorize_client(&db, &[7; 32]), Ok(record(1, 7, 10)));
    assert_eq!(
        authorize_client(&db, &[8; 32]),
        Err(DaemonError::Revoked("ClientId(00000000-0000-0000-0000-000000000002)".to_string()))
    );
}

#[test]
fn rotated_and_consumed_codes_are_six_digits() {
    let mut codes = PairingCodes::new(1_000, 0);
    let first = codes.current_code();
    assert!(first.len() == 6 && first.chars().all(|c| c.is_ascii_digit()));
    let next = codes.consume_current(&first, 10).unwrap();
    assert!(next.len() == 6 && next.chars().all(|c| c.is_ascii_digit()));
    assert!(codes.consume_current(&first, 20).is_none());
    assert_eq!(codes.current_code(), next);
}

#[test]
fn failed_random_draw_gives_no_jitter() {
    assert_eq!(jitter_byte(None), 128);
    assert_eq!(jitter_byte(Some(7)), 7);
    assert_eq!(jitter(512, jitter_byte(None)), 512);
}

#[test]
fn lookup_or_add_reports_a_taken_client_id() {
    let db = ClientDb::empty().with_added(record(1, 7, 10)).unwrap();
    assert_eq!(
        db.add_or_lookup_by_public(record(1, 8, 11)).err().unwrap(),
        DaemonError::ClientDb("duplicate client_id 00000000-0000-0000-0000-000000000001".to_string())
    );
}
