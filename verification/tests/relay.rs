use cli_pocket::caps::{Caps, CapsSnapshot};
use cli_pocket::pairs::{now_marker, stuck, sweep_interval_secs, Pair, PairManager};
use cli_pocket::proto::{PairCloseReason, PairId, ServerId};
use cli_pocket::registry::{ServerMsg, ServerRegistry, ServerSlot};
use cli_pocket::relay_config::{client_target, health, version_banner, CapsConfig, RelayConfig, RelayServer};
use cli_pocket::relay_error::RelayError;
use cli_pocket::relay_route::{
    close_reason_label, close_server_pairs, expect_client_connect, expect_server_register, first_frame_step,
    on_client_frame, on_server_frame, open_pair, split_disc, ws_step, ClientStep, RelayCtrl, RelayWire,
    client_writer_step, server_writer_step, ServerStep, WriterStep, WsKind, WsStep, RELAY_DISC_CTRL,
    RELAY_DISC_DATA,
};

#[test]
fn split_disc_extracts_leading_byte() {
    let frame = [RELAY_DISC_DATA, 1, 2, 3];
    let (disc, rest) = split_disc(&frame).expect("non-empty frame");
    assert_eq!(disc, RELAY_DISC_DATA);
    assert_eq!(rest, &[1, 2, 3]);
}

#[test]
fn split_disc_accepts_empty_payload_after_discriminator() {
    let frame = [RELAY_DISC_CTRL];
    let (disc, rest) = split_disc(&frame).expect("single-byte frame");
    assert_eq!(disc, RELAY_DISC_CTRL);
    assert!(rest.is_empty());
}

#[test]
fn split_disc_rejects_empty_frame() {
    let err = split_disc(&[]).expect_err("empty frame must error");
    assert!(matches!(err, RelayError::Protocol(_)));
}

#[test]
fn server_limit_enforced() {
    let c = Caps::new(2, 4, 1024, 1024);
    let s1 = c.try_add_server().unwrap();
    let _s2 = c.try_add_server().unwrap();
    assert!(c.try_add_server().is_err());
    drop(s1);
    assert!(c.try_add_server().is_ok());
}

#[test]
fn rate_burst_then_throttle() {
    let c = Caps::new(1, 1, 1000, 4096);
    let mut pair = c.try_add_pair().unwrap();
    for _ in 0..10 {
        assert!(pair.try_consume_rate(100).is_ok());
    }
    assert!(pair.try_consume_rate(1).is_err());
    pair.refill_one_tick();
    assert!(pair.try_consume_rate(90).is_ok());
}

#[test]
fn host_increment_decrement() {
    let c = Caps::new(2, 4, 1024, 1024);

    let h1 = c.try_add_host().unwrap();
    let _h2 = c.try_add_host().unwrap();
    assert!(c.try_add_host().is_err());

    drop(h1);

    assert!(c.try_add_host().is_ok());
}

#[test]
fn host_ticket_releases_capacity_on_drop() {
    let c = Caps::new(1, 4, 1024, 1024);
    let ticket = c.try_add_host().unwrap();

    assert!(c.try_add_host().is_err());

    drop(ticket);

    assert!(c.try_add_host().is_ok());
}

#[test]
fn live_host_ticket_blocks_admission_through_cloned_handle() {
    let c = Caps::new(1, 4, 1024, 1024);
    let cloned = c.clone_handle();
    let ticket = c.try_add_host().unwrap();

    assert!(cloned.try_add_host().is_err());
    assert_eq!(c.snapshot().hosts, 1);

    drop(ticket);

    assert!(cloned.try_add_host().is_ok());
}

#[test]
fn pair_independent_of_hosts() {
    let c = Caps::new(1, 3, 1024, 1024);
    let _host = c.try_add_host().unwrap();

    let _p1 = c.try_add_pair().unwrap();
    let _p2 = c.try_add_pair().unwrap();
    let _p3 = c.try_add_pair().unwrap();
    assert!(c.try_add_pair().is_err());
}

#[test]
fn pair_ticket_releases_capacity_on_drop() {
    let c = Caps::new(1, 1, 1024, 1024);
    let ticket = c.try_add_pair().unwrap();

    assert!(c.try_add_pair().is_err());

    drop(ticket);

    assert!(c.try_add_pair().is_ok());
}

#[test]
fn rate_bucket_refills_one_hundred_ms_ticks() {
    let c = Caps::new(1, 1, 100, 4096);
    let mut pair = c.try_add_pair().unwrap();

    assert!(pair.try_consume_rate(100).is_ok());
    assert!(pair.try_consume_rate(1).is_err());

    pair.refill_one_tick();

    assert_eq!(pair.snapshot().rate_remaining, 10);
    assert!(pair.try_consume_rate(10).is_ok());
    assert!(pair.try_consume_rate(1).is_err());
}

#[test]
fn rate_bucket_refill_caps_at_one_second_capacity() {
    let c = Caps::new(1, 1, 100, 4096);
    let mut pair = c.try_add_pair().unwrap();

    for _ in 0..20 {
        pair.refill_one_tick();
    }

    assert_eq!(pair.snapshot().rate_remaining, 100);
}

#[test]
fn low_rate_refills_do_not_exceed_configured_rate() {
    let c = Caps::new(1, 1, 1, 4096);
    let mut pair = c.try_add_pair().unwrap();

    assert!(pair.try_consume_rate(1).is_ok());

    for _ in 0..9 {
        pair.refill_one_tick();
        assert_eq!(pair.snapshot().rate_remaining, 0);
    }

    pair.refill_one_tick();

    assert_eq!(pair.snapshot().rate_remaining, 1);
    assert!(pair.try_consume_rate(1).is_ok());
    assert!(pair.try_consume_rate(1).is_err());
}

#[test]
fn rate_buckets_are_independent_per_pair() {
    let c = Caps::new(1, 2, 100, 4096);
    let mut pair_a = c.try_add_pair().unwrap();
    let mut pair_b = c.try_add_pair().unwrap();

    assert!(pair_a.try_consume_rate(100).is_ok());
    assert!(pair_a.try_consume_rate(1).is_err());

    assert!(pair_b.try_consume_rate(100).is_ok());
    assert!(pair_b.try_consume_rate(1).is_err());
}

#[test]
fn low_rate_refill_accumulates_independently_per_pair() {
    let c = Caps::new(1, 2, 1, 4096);
    let mut pair_a = c.try_add_pair().unwrap();
    let mut pair_b = c.try_add_pair().unwrap();

    assert!(pair_a.try_consume_rate(1).is_ok());
    assert!(pair_b.try_consume_rate(1).is_ok());

    for _ in 0..10 {
        pair_a.refill_one_tick();
    }

    assert!(pair_a.try_consume_rate(1).is_ok());
    assert!(pair_b.try_consume_rate(1).is_err());

    for _ in 0..10 {
        pair_b.refill_one_tick();
    }

    assert!(pair_b.try_consume_rate(1).is_ok());
}

#[test]
fn queued_bytes_are_bounded_and_released() {
    let c = Caps::new(1, 1, 1024, 8);
    let mut pair = c.try_add_pair().unwrap();

    assert!(pair.try_add_queued_bytes(5).is_ok());
    assert!(pair.try_add_queued_bytes(3).is_ok());
    assert!(pair.try_add_queued_bytes(1).is_err());

    pair.remove_queued_bytes(4);

    assert!(pair.try_add_queued_bytes(4).is_ok());
    assert!(pair.try_add_queued_bytes(1).is_err());
}

#[test]
fn queued_bytes_are_independent_per_pair() {
    let c = Caps::new(1, 2, 1024, 8);
    let mut pair_a = c.try_add_pair().unwrap();
    let mut pair_b = c.try_add_pair().unwrap();

    assert!(pair_a.try_add_queued_bytes(8).is_ok());
    assert!(pair_a.try_add_queued_bytes(1).is_err());

    assert!(pair_b.try_add_queued_bytes(8).is_ok());
    assert!(pair_b.try_add_queued_bytes(1).is_err());
}

#[test]
fn snapshot_captures_state() {
    let c = Caps::new(2, 4, 1024, 1024);
    let _host = c.try_add_host().unwrap();
    let mut pair = c.try_add_pair().unwrap();
    pair.try_consume_rate(24).unwrap();
    pair.try_add_queued_bytes(64).unwrap();

    let s: CapsSnapshot = c.snapshot();
    let pair_s = pair.snapshot();

    assert_eq!(s.hosts, 1);
    assert_eq!(s.pairs, 1);
    assert_eq!(pair_s.rate_remaining, 1000);
    assert_eq!(pair_s.queued_bytes, 64);
}

#[test]
fn over_capacity_errors_name_the_limit() {
    let c = Caps::new(0, 0, 1, 1);
    assert_eq!(c.try_add_host().err(), Some(RelayError::OverCapacity("max_hosts")));
    assert_eq!(c.try_add_pair().err(), Some(RelayError::OverCapacity("max_pairs")));
}

#[test]
fn relay_defaults_match_documented_limits() {
    let c = RelayConfig::default();
    assert_eq!(c.listen.port, 8080);
    assert_eq!(
        c.caps,
        CapsConfig { max_servers: 256, max_pairs: 2048, max_bytes_per_sec: 4 * 1024 * 1024, max_queued_bytes: 8 * 1024 * 1024 }
    );
    assert_eq!(c.guillotine.idle_seconds, 120);
    assert!(c.auth.host_token.is_none());
    assert!(c.auth.client_token.is_none());
    let server = RelayServer::new(c.clone());
    assert_eq!(server.config(), &c);
    let caps = c.new_caps();
    let _a = caps.try_add_host().unwrap();
    assert_eq!(caps.snapshot().hosts, 1);
}

#[test]
fn relay_banner_and_health() {
    assert_eq!(version_banner(), "cli-pocket-relay (scaffold)");
    assert_eq!(health(), (200, "ok"));
}

#[test]
fn client_target_parses_the_server_query() {
    let id = uuid::Uuid::parse_str("00112233-4455-6677-8899-aabbccddeeff").unwrap();
    assert_eq!(client_target("00112233-4455-6677-8899-aabbccddeeff"), Ok(ServerId(id.as_u128())));
    assert_eq!(client_target("not-a-uuid"), Err((400, "invalid server")));
}

#[test]
fn sweep_interval_is_a_quarter_of_the_threshold() {
    assert_eq!(sweep_interval_secs(120), 30);
    assert_eq!(sweep_interval_secs(3), 1);
    assert_eq!(sweep_interval_secs(0), 1);
}

fn new_pair(c: &Caps, id: u128, server: u128, now: u64) -> Pair<u32> {
    Pair::new(PairId(id), ServerId(server), c.try_add_pair().unwrap(), 1, 2, now)
}

#[test]
fn stuck_pair_is_closed_and_removed() {
    let c = Caps::new(4, 4, 1024, 1024);
    let mut pairs: PairManager<u32> = PairManager::new();
    pairs.insert(new_pair(&c, 1, 9, 0));
    let killed = pairs.sweep_once(1_000, 5_000);
    assert_eq!(killed.len(), 1);
    assert_eq!(killed[0].pair_id, PairId(1));
    assert_eq!(pairs.len(), 0);
    assert!(pairs.get(&PairId(1)).is_none());
}

#[test]
fn fresh_pair_is_left_alone() {
    let c = Caps::new(4, 4, 1024, 1024);
    let mut pairs: PairManager<u32> = PairManager::new();
    pairs.insert(new_pair(&c, 1, 9, 4_500));
    let killed = pairs.sweep_once(1_000, 5_000);
    assert!(killed.is_empty());
    assert_eq!(pairs.len(), 1);
}

#[test]
fn sweep_once_only_kills_idle_pairs() {
    let c = Caps::new(4, 4, 1024, 1024);
    let mut pairs: PairManager<u32> = PairManager::new();
    pairs.insert(new_pair(&c, 1, 9, 0));
    pairs.insert(new_pair(&c, 2, 9, 4_900));
    pairs.insert(new_pair(&c, 3, 9, 100));
    assert!(pairs.touch(&PairId(3), 4_999));
    let killed = pairs.sweep_once(1_000, 5_000);
    assert_eq!(killed.len(), 1);
    assert_eq!(killed[0].pair_id, PairId(1));
    let mut left = pairs.list_for_sweep();
    left.sort_by_key(|p| p.0);
    assert_eq!(left, vec![PairId(2), PairId(3)]);
    assert!(stuck(0, 1_001, 1_000));
    assert!(!stuck(0, 1_000, 1_000));
    assert!(!stuck(2_000, 1_000, 1_000));
}

#[test]
fn register_lookup_drop() {
    let mut registry: ServerRegistry<u32> = ServerRegistry::new();
    let reg = registry.register(ServerSlot::new(ServerId(7), 70)).unwrap();
    assert_eq!(registry.get(&ServerId(7)), Some(&70));
    assert_eq!(registry.list_ids(), vec![ServerId(7)]);
    registry.release(reg);
    assert!(registry.get(&ServerId(7)).is_none());
}

#[test]
fn duplicate_server_rejected() {
    let mut registry: ServerRegistry<u32> = ServerRegistry::new();
    let _reg = registry.register(ServerSlot::new(ServerId(7), 70)).unwrap();
    assert!(registry.register(ServerSlot::new(ServerId(7), 71)).is_err());
    assert_eq!(registry.get(&ServerId(7)), Some(&70));
}

#[test]
fn stale_registration_handle_does_not_remove_replacement() {
    let mut registry: ServerRegistry<u32> = ServerRegistry::new();
    let first = registry.register(ServerSlot::new(ServerId(7), 70)).unwrap();
    assert!(registry.unregister(&first));
    let second = registry.register(ServerSlot::new(ServerId(7), 71)).unwrap();
    assert!(!registry.release(first));
    assert_eq!(registry.get(&ServerId(7)), Some(&71));
    assert!(registry.release(second));
    assert!(registry.get(&ServerId(7)).is_none());
}

#[test]
fn socket_messages_are_classified() {
    assert_eq!(ws_step(Some(WsKind::Binary)), Ok(WsStep::Handle));
    assert_eq!(ws_step(Some(WsKind::Ping)), Ok(WsStep::Skip));
    assert_eq!(ws_step(Some(WsKind::Close)), Ok(WsStep::Stop));
    assert_eq!(ws_step(None), Ok(WsStep::Stop));
    assert_eq!(
        ws_step(Some(WsKind::Text)),
        Err(RelayError::Protocol("unexpected non-binary frame on relay socket"))
    );
    assert_eq!(first_frame_step(Some(WsKind::Pong)), Ok(false));
    assert_eq!(first_frame_step(None), Err(RelayError::Protocol("relay websocket closed")));
}

#[test]
fn first_frames_are_checked() {
    let reg = RelayWire::Ctrl(RelayCtrl::ServerRegister { server_id: ServerId(5) });
    assert_eq!(expect_server_register(&reg), Ok(ServerId(5)));
    assert_eq!(
        expect_server_register(&RelayWire::Ctrl(RelayCtrl::ServerHeartbeat)),
        Err(RelayError::Protocol("expected ServerRegister as first server frame"))
    );
    let connect = RelayWire::Ctrl(RelayCtrl::ClientConnect { server_id: ServerId(5) });
    assert_eq!(expect_client_connect(&connect, ServerId(5)), Ok(()));
    assert_eq!(
        expect_client_connect(&connect, ServerId(6)),
        Err(RelayError::Protocol("client pair request server mismatch"))
    );
    assert_eq!(
        expect_client_connect(&reg, ServerId(5)),
        Err(RelayError::Protocol("expected ClientConnect as first client frame"))
    );
}

#[test]
fn server_and_client_can_open_one_pair_and_forward_bytes() {
    let c = Caps::new(4, 4, 1024, 1024);
    let mut pairs: PairManager<u32> = PairManager::new();
    assert!(open_pair(&mut pairs, PairId(1), ServerId(5), c.try_add_pair().unwrap(), 10, 20, 100).is_none());

    match on_server_frame(&mut pairs, ServerId(5), RelayWire::Forward { pair_id: PairId(1), bytes: vec![1, 2] }, 200) {
        Ok(ServerStep::ToClient(p, b)) => {
            assert_eq!(p, PairId(1));
            assert_eq!(b, vec![1, 2]);
        },
        _ => panic!("expected forward to client"),
    }
    assert_eq!(pairs.get(&PairId(1)).unwrap().last_progress(), 200);

    match on_client_frame(&mut pairs, PairId(1), None, 300) {
        ClientStep::ToServer(p) => assert_eq!(p, PairId(1)),
        _ => panic!("expected forward to server"),
    }
    assert_eq!(pairs.get(&PairId(1)).unwrap().last_progress(), 300);

    assert!(matches!(
        on_server_frame(&mut pairs, ServerId(6), RelayWire::Forward { pair_id: PairId(1), bytes: vec![] }, 400),
        Err(RelayError::Protocol("pair routed to wrong server"))
    ));
    assert!(matches!(
        on_server_frame(&mut pairs, ServerId(5), RelayWire::Forward { pair_id: PairId(9), bytes: vec![] }, 400),
        Ok(ServerStep::ReplyClientGone(PairId(9)))
    ));

    match on_client_frame(&mut pairs, PairId(1), Some((PairId(1), PairCloseReason::Normal)), 500) {
        ClientStep::Close(Some(p), PairCloseReason::Normal) => assert_eq!(p.pair_id, PairId(1)),
        _ => panic!("expected close"),
    }
    assert_eq!(pairs.len(), 0);
}

#[test]
fn server_gone_closes_only_its_pairs() {
    let c = Caps::new(4, 4, 1024, 1024);
    let mut pairs: PairManager<u32> = PairManager::new();
    pairs.insert(new_pair(&c, 1, 5, 0));
    pairs.insert(new_pair(&c, 2, 6, 0));
    pairs.insert(new_pair(&c, 3, 5, 0));
    let closed = close_server_pairs(&mut pairs, ServerId(5));
    let mut ids: Vec<u128> = closed.iter().map(|p| p.pair_id.0).collect();
    ids.sort();
    assert_eq!(ids, vec![1, 3]);
    assert_eq!(pairs.list_for_sweep(), vec![PairId(2)]);
}

#[test]
fn server_close_frame_drops_the_pair() {
    let c = Caps::new(4, 4, 1024, 1024);
    let mut pairs: PairManager<u32> = PairManager::new();
    pairs.insert(new_pair(&c, 1, 5, 0));
    let frame = RelayWire::Ctrl(RelayCtrl::PairClose { pair_id: PairId(1), reason: PairCloseReason::ServerGone });
    match on_server_frame(&mut pairs, ServerId(5), frame, 10) {
        Ok(ServerStep::Close(Some(p), PairCloseReason::ServerGone)) => assert_eq!(p.pair_id, PairId(1)),
        _ => panic!("expected close"),
    }
    assert!(matches!(
        on_server_frame(&mut pairs, ServerId(5), RelayWire::Ctrl(RelayCtrl::ServerHeartbeat), 11),
        Ok(ServerStep::Ignore)
    ));
}

#[test]
fn close_reasons_have_metric_labels() {
    assert_eq!(close_reason_label(&PairCloseReason::Normal), "normal");
    assert_eq!(close_reason_label(&PairCloseReason::ServerGone), "server_gone");
    assert_eq!(close_reason_label(&PairCloseReason::ClientGone), "client_gone");
    assert_eq!(close_reason_label(&PairCloseReason::Stuck), "stuck");
    assert_eq!(close_reason_label(&PairCloseReason::RelayShutdown), "relay_shutdown");
    assert_eq!(close_reason_label(&PairCloseReason::Rejected("x".to_string())), "rejected");
}

#[test]
fn writers_send_frames_and_close() {
    assert_eq!(server_writer_step(ServerMsg::Data(vec![1, 2])), WriterStep::Send(vec![1, 2]));
    assert_eq!(server_writer_step(ServerMsg::Ctrl(vec![3])), WriterStep::Send(vec![3]));
    assert_eq!(server_writer_step(ServerMsg::Close), WriterStep::CloseAndStop);
    assert_eq!(client_writer_step(ServerMsg::Data(vec![1, 9, 9]), Some(vec![9, 9])), WriterStep::Send(vec![9, 9]));
    assert_eq!(client_writer_step(ServerMsg::Data(vec![1]), None), WriterStep::Stop);
    assert_eq!(client_writer_step(ServerMsg::Ctrl(vec![0]), None), WriterStep::Send(vec![0]));
}

#[test]
fn progress_markers_do_not_go_backwards() {
    let a = now_marker();
    let b = now_marker();
    assert!(b >= a);
}

#[test]
fn a_second_sweep_at_the_same_time_removes_nothing() {
    let c = Caps::new(4, 4, 1024, 1024);
    let mut pairs: PairManager<u32> = PairManager::new();
    pairs.insert(new_pair(&c, 1, 9, 0));
    pairs.insert(new_pair(&c, 2, 9, 4_500));
    assert_eq!(pairs.sweep_once(1_000, 5_000).len(), 1);
    assert!(pairs.sweep_once(1_000, 5_000).is_empty());
    assert_eq!(pairs.len(), 1);
}

#[test]
fn zero_server_limit_refuses_every_server() {
    let c = Caps::new(0, 1, 1024, 1024);
    assert!(matches!(c.try_add_host(), Err(RelayError::OverCapacity("max_hosts"))));
    assert!(matches!(c.try_add_server(), Err(RelayError::OverCapacity("max_hosts"))));
    assert_eq!(c.snapshot(), CapsSnapshot { hosts: 0, pairs: 0 });
}

#[test]
fn zero_limit_counter_never_increments() {
    let counter = std::sync::atomic::AtomicUsize::new(0);
    assert_eq!(
        cli_pocket::caps::increment_bounded_usize(&counter, 0, "max_pairs"),
        Err(RelayError::OverCapacity("max_pairs"))
    );
    assert_eq!(counter.load(std::sync::atomic::Ordering::Acquire), 0);
    assert_eq!(cli_pocket::caps::increment_bounded_usize(&counter, 1, "max_pairs"), Ok(()));
    assert_eq!(counter.load(std::sync::atomic::Ordering::Acquire), 1);
}

#[test]
fn every_pair_of_a_departed_server_is_returned_for_closing() {
    let c = Caps::new(4, 4, 1024, 1024);
    let mut pairs: PairManager<u32> = PairManager::new();
    pairs.insert(new_pair(&c, 1, 9, 0));
    pairs.insert(new_pair(&c, 2, 8, 0));
    pairs.insert(new_pair(&c, 3, 9, 0));
    let mut closed: Vec<u128> = close_server_pairs(&mut pairs, ServerId(9)).iter().map(|p| p.pair_id.0).collect();
    closed.sort();
    assert_eq!(closed, vec![1, 3]);
    assert_eq!(pairs.list_for_sweep(), vec![PairId(2)]);
}

#[test]
fn client_side_opens_announces_and_finishes_its_pair() {
    let c = Caps::new(4, 4, 1024, 1024);
    let mut registry: ServerRegistry<u32> = ServerRegistry::new();
    assert_eq!(
        cli_pocket::relay_route::registered_target(&registry, &ServerId(5)).err(),
        Some(RelayError::Protocol("target server not registered"))
    );
    let _reg = registry.register(ServerSlot::new(ServerId(5), 50)).unwrap();
    assert_eq!(cli_pocket::relay_route::registered_target(&registry, &ServerId(5)), Ok(&50));
    let (first, second) = cli_pocket::relay_route::pair_announcements(PairId(1));
    assert_eq!(first, RelayCtrl::PairInbound { pair_id: PairId(1) });
    assert_eq!(second, RelayCtrl::PairOpen { pair_id: PairId(1) });
    let mut pairs: PairManager<u32> = PairManager::new();
    assert!(open_pair(&mut pairs, PairId(1), ServerId(5), c.try_add_pair().unwrap(), 50, 60, 0).is_none());
    let (p, why) = cli_pocket::relay_route::finish_client_side(&mut pairs, PairId(1));
    assert_eq!(p.map(|p| p.pair_id), Some(PairId(1)));
    assert_eq!(why, PairCloseReason::ClientGone);
    assert!(pairs.get(&PairId(1)).is_none());
}

#[test]
fn opened_pair_is_routed_to_the_given_server() {
    let c = Caps::new(4, 4, 1024, 1024);
    let mut pairs: PairManager<u32> = PairManager::new();
    pairs.insert(new_pair(&c, 2, 8, 0));
    assert!(open_pair(&mut pairs, PairId(1), ServerId(5), c.try_add_pair().unwrap(), 10, 20, 100).is_none());
    let p = pairs.get(&PairId(1)).unwrap();
    assert_eq!(p.server_id, ServerId(5));
    assert_eq!(p.last_progress(), 100);
    assert_eq!((p.server_tx, p.client_tx), (10, 20));
    assert_eq!(pairs.get(&PairId(2)).unwrap().server_id, ServerId(8));
}

#[test]
fn refill_over_many_ticks_is_capped_at_one_second() {
    let c = Caps::new(1, 2, 100, 4096);
    let mut full = c.try_add_pair().unwrap();
    for _ in 0..20 {
        full.refill_one_tick();
    }
    assert_eq!(full.snapshot().rate_remaining, 100);
    let c = Caps::new(1, 1, 15, 4096);
    let mut pair = c.try_add_pair().unwrap();
    assert!(pair.try_consume_rate(15).is_ok());
    for _ in 0..3 {
        pair.refill_one_tick();
    }
    assert_eq!(pair.snapshot().rate_remaining, 4);
}
