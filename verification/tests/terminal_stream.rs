use cli_pocket::terminal::unix_ms_from;
use cli_pocket::proto::{Color, StreamSeq};
use cli_pocket::ring::{offset_to_relative, RingError, ScrollbackRing};
use cli_pocket::terminal::{
    command_argv, default_exit_info, default_shell, exit_info_from_code, forward_step, kill_outcome, map_kill_error,
    now_unix_ms, pty_dims, require_running, ForwardStep, OutputChunk, OutputRecv, TerminalError,
};
use cli_pocket::tracker::{char_width, parse_osc_title, AnchorTracker};

#[test]
fn fresh_ring_has_anchor_at_offset_zero() {
    let ring = ScrollbackRing::new(80, 24, None).unwrap();

    assert_eq!(ring.head_seq(), StreamSeq(0));
    assert_eq!(ring.tail_seq(), StreamSeq(0));
    let snapshot = ring.snapshot();
    assert_eq!(snapshot.cols, 80);
    assert_eq!(snapshot.rows, 24);
    assert!(snapshot.bytes.is_empty());
}

#[test]
fn push_advances_head_seq_and_snapshot_bytes() {
    let mut ring = ScrollbackRing::new(80, 24, None).unwrap();

    ring.push(b"hello");

    assert_eq!(ring.head_seq(), StreamSeq(5));
    assert_eq!(&ring.snapshot().bytes[..], b"hello");
}

#[test]
fn since_returns_delta_within_window() {
    let mut ring = ScrollbackRing::new(80, 24, None).unwrap();

    ring.push(b"abc");
    ring.push(b"def");

    let delta = ring.since(StreamSeq(3)).unwrap();
    assert_eq!(&delta.bytes[..], b"def");
    assert_eq!(delta.head_seq, StreamSeq(6));

    let empty_delta = ring.since(StreamSeq(6)).unwrap();
    assert!(empty_delta.bytes.is_empty());
    assert_eq!(empty_delta.head_seq, StreamSeq(6));
}

#[test]
fn since_rejects_future_seq() {
    let mut ring = ScrollbackRing::new(80, 24, None).unwrap();

    ring.push(b"abc");

    assert!(ring.since(StreamSeq(4)).is_none());
}

#[test]
fn since_returns_none_below_tail_after_eviction() {
    let mut ring = ScrollbackRing::new(80, 24, Some(64)).unwrap();
    let chunk = vec![b'A'; 8 * 1024];
    for _ in 0..16 {
        ring.push(&chunk);
    }

    let tail = ring.tail_seq();

    assert!(tail.0 > 0);
    assert!(ring.since(StreamSeq(tail.0 - 1)).is_none());
    assert!(ring.since(ring.head_seq()).unwrap().bytes.is_empty());
    assert_eq!(ring.anchor_offsets().first().copied(), Some(tail.0));
    assert!(ring.snapshot().bytes.len() <= 64);
}

#[test]
fn history_page_returns_latest_window_when_before_is_absent() {
    let mut ring = ScrollbackRing::new(80, 24, None).unwrap();

    ring.push(b"abcdefghij");

    let page = ring.history_page(None, 4);

    assert_eq!(page.start_seq, StreamSeq(6));
    assert_eq!(page.end_seq, StreamSeq(10));
    assert_eq!(&page.bytes[..], b"ghij");
}

#[test]
fn history_page_clamps_before_to_retained_window() {
    let mut ring = ScrollbackRing::new(80, 24, None).unwrap();

    ring.push(b"abcdefghij");

    let page = ring.history_page(Some(StreamSeq(4)), 8);

    assert_eq!(page.start_seq, StreamSeq(0));
    assert_eq!(page.end_seq, StreamSeq(4));
    assert_eq!(&page.bytes[..], b"abcd");
}

#[test]
fn history_page_returns_empty_slice_when_before_is_at_tail() {
    let mut ring = ScrollbackRing::new(80, 24, None).unwrap();

    ring.push(b"abcdefghij");

    let page = ring.history_page(Some(StreamSeq(0)), 8);

    assert_eq!(page.start_seq, StreamSeq(0));
    assert_eq!(page.end_seq, StreamSeq(0));
    assert!(page.bytes.is_empty());
}

#[test]
fn long_unterminated_osc_keeps_original_safe_anchor() {
    let mut ring = ScrollbackRing::new(80, 24, Some(64)).unwrap();

    ring.push(b"\x1b]");
    ring.push(&vec![b'x'; 512]);

    let snapshot = ring.snapshot();

    assert_eq!(ring.tail_seq(), StreamSeq(0));
    assert_eq!(ring.anchor_offsets().len(), 1);
    assert!(snapshot.bytes.starts_with(b"\x1b]"));
    assert!(snapshot.bytes.len() > 64);
    assert_eq!(ring.anchor_offsets().first().copied(), Some(ring.tail_seq().0));
}

#[test]
fn window_invariants_hold_over_many_pushes() {
    let mut ring = ScrollbackRing::new(80, 24, Some(8 * 1024)).unwrap();
    for k in 0..40u32 {
        let chunk: Vec<u8> = (0..(k * 37 % 256)).map(|i| (i * 7 + k) as u8).collect();
        ring.push(&chunk);
        let snapshot = ring.snapshot();
        assert!(ring.head_seq().0 >= ring.tail_seq().0);
        assert!(snapshot.bytes.len() <= 8 * 1024 || ring.anchor_offsets().len() == 1);
        assert_eq!(snapshot.bytes.len() as u64, ring.head_seq().0 - ring.tail_seq().0);
        assert_eq!(ring.anchor_offsets().first().copied(), Some(ring.tail_seq().0));
    }
}

#[test]
fn read_back_after_write_returns_the_written_bytes() {
    let mut ring = ScrollbackRing::new(80, 24, None).unwrap();
    ring.push(b"prefix-");
    let before = ring.head_seq();
    ring.push(b"payload");
    assert_eq!(&ring.since(before).unwrap().bytes[..], b"payload");
}

#[test]
fn oversized_ring_is_refused() {
    let err = ScrollbackRing::new(80, 24, Some(64 * 1024 * 1024 + 1)).err().unwrap();
    assert_eq!(err, RingError::CapacityTooLarge(64 * 1024 * 1024 + 1));
    assert_eq!(err.message(), "capacity 67108865 exceeds the per-terminal limit 67108864");
}

#[test]
fn print_advances_cursor() {
    let mut tracker = AnchorTracker::new();
    tracker.advance(b"hello");

    assert_eq!(tracker.snapshot_state().cursor, (5, 0));
}

#[test]
fn newline_resets_column() {
    let mut tracker = AnchorTracker::new();
    tracker.advance(b"hi\nworld");

    assert_eq!(tracker.snapshot_state().cursor, (5, 1));
}

#[test]
fn sgr_bold_red() {
    let mut tracker = AnchorTracker::new();
    tracker.advance(b"\x1b[1;31m");

    let state = tracker.snapshot_state();
    assert!(state.sgr.bold);
    assert_eq!(state.sgr.fg, Some(Color::Palette(1)));
}

#[test]
fn sgr_reset() {
    let mut tracker = AnchorTracker::new();
    tracker.advance(b"\x1b[1;31m\x1b[0m");

    let state = tracker.snapshot_state();
    assert!(!state.sgr.bold);
    assert_eq!(state.sgr.fg, None);
}

#[test]
fn alt_screen_enter_exit() {
    let mut tracker = AnchorTracker::new();
    tracker.advance(b"\x1b[?1049h");

    assert!(tracker.snapshot_state().modes.alt_screen);

    tracker.advance(b"\x1b[?1049l");

    assert!(!tracker.snapshot_state().modes.alt_screen);
}

#[test]
fn osc_window_title() {
    let mut tracker = AnchorTracker::new();
    tracker.advance(b"\x1b]0;hello title\x07");

    assert_eq!(tracker.snapshot_state().title.as_deref(), Some("hello title"));
}

#[test]
fn extended_sgr_colors_do_not_leak_params() {
    let mut tracker = AnchorTracker::new();
    tracker.advance(b"\x1b[38;2;1;2;3m");

    let state = tracker.snapshot_state();
    assert_eq!(state.sgr.fg, Some(Color::Rgb(1, 2, 3)));
    assert!(!state.sgr.faint);

    tracker.advance(b"\x1b[48:5:123m");

    assert_eq!(tracker.snapshot_state().sgr.bg, Some(Color::Indexed(123)));
}

#[test]
fn tracker_is_at_safe_split_outside_sequences() {
    let mut tracker = AnchorTracker::new();
    assert!(tracker.is_at_safe_split());
    tracker.advance(b"\x1b]");
    assert!(!tracker.is_at_safe_split());
    tracker.advance(b"t\x07");
    assert!(tracker.is_at_safe_split());
}

#[test]
fn osc_title_needs_valid_utf8_and_a_title_code() {
    assert_eq!(parse_osc_title(&[b"2", b"abc"]), Some("abc".to_string()));
    assert_eq!(parse_osc_title(&[b"7", b"abc"]), None);
    assert_eq!(parse_osc_title(&[b"0", &[0xff, 0xfe]]), None);
    assert_eq!(char_width('a'), 1);
    assert_eq!(char_width('\n'), 0);
}

#[test]
fn exit_info_falls_back_to_code_when_signal_number_is_not_exposed() {
    // A status that ended by SIGHUP reports exit code 1.
    let exit = exit_info_from_code(1, 5);

    assert_eq!(exit.code, Some(1));
    assert_eq!(exit.signal, None);
}

#[test]
fn exit_info_never_invents_zero_signal_for_unknown_signal_text() {
    // A status that ended by SIGABRT reports exit code 1.
    let exit = exit_info_from_code(1, 5);

    assert_eq!(exit.code, Some(1));
    assert_ne!(exit.signal, Some(0));
}

#[test]
fn kill_error_is_reported_when_process_has_not_exited() {
    let result = map_kill_error("denied", false);

    assert!(matches!(result, Err(TerminalError::Pty(message)) if message.contains("denied")));
}

#[test]
fn kill_errors_after_exit_are_forgiven() {
    assert_eq!(map_kill_error("denied", true), Ok(()));
    assert_eq!(kill_outcome(true, Some("x"), false, false), Ok(()));
    assert_eq!(kill_outcome(false, None, false, false), Ok(()));
    assert_eq!(kill_outcome(false, Some("x"), false, true), Ok(()));
    assert_eq!(
        kill_outcome(false, Some("x"), false, false),
        Err(TerminalError::Pty("failed to kill PTY child: x".to_string()))
    );
}

#[test]
fn exit_codes_beyond_i32_are_dropped() {
    assert_eq!(exit_info_from_code(u32::MAX, 7).code, None);
    assert_eq!(default_exit_info(9).code, Some(1));
    assert_eq!(default_exit_info(9).at_unix_ms, 9);
}

#[test]
fn command_defaults_to_the_shell() {
    assert_eq!(default_shell(Some("/bin/zsh")), vec!["/bin/zsh".to_string()]);
    assert_eq!(default_shell(Some("")), vec!["/bin/sh".to_string()]);
    assert_eq!(default_shell(None), vec!["/bin/sh".to_string()]);
    let cmd = vec!["echo".to_string(), "hi".to_string()];
    assert_eq!(command_argv(&cmd, default_shell(None)), Ok(cmd.clone()));
    assert_eq!(command_argv(&vec![], default_shell(None)), Ok(vec!["/bin/sh".to_string()]));
    assert_eq!(command_argv(&vec![], vec![]), Err(TerminalError::InvalidCommand));
    assert_eq!(TerminalError::InvalidCommand.message(), "command argv cannot be empty");
}

#[test]
fn pty_sizes_are_at_least_one() {
    assert_eq!(pty_dims(0, 0), (1, 1));
    assert_eq!(pty_dims(80, 24), (80, 24));
    assert_eq!(require_running(true), Err(TerminalError::Exited));
    assert_eq!(require_running(false), Ok(()));
}

#[test]
fn now_ms_returns_reasonable_value() {
    let ms = now_unix_ms();
    assert!(ms > 1_735_689_600_000u64);
    assert!(ms < 1_893_456_000_000u64);
}

#[test]
fn output_forwarding_skips_lags_and_stops_at_close() {
    let chunk = OutputChunk { seq_at_end: StreamSeq(3), bytes: b"abc".to_vec() };
    assert_eq!(forward_step(OutputRecv::Chunk(chunk.clone())), ForwardStep::Forward(chunk));
    assert_eq!(forward_step(OutputRecv::Lagged { skipped: 1 }), ForwardStep::Continue);
    assert_eq!(forward_step(OutputRecv::Closed), ForwardStep::Stop);
}

#[test]
fn offsets_are_relative_to_the_tail() {
    assert_eq!(offset_to_relative(10, 4), 6);
    assert_eq!(offset_to_relative(3, 4), 0);
    assert_eq!(offset_to_relative(4, 4), 0);
}

#[test]
fn fresh_tracker_designates_no_character_sets() {
    let tracker = AnchorTracker::new();
    assert_eq!(tracker.snapshot_state().charset.g, [0, 0, 0, 0]);
}

#[test]
fn lone_escape_is_not_a_split_point_until_its_sequence_ends() {
    let mut tracker = AnchorTracker::new();
    tracker.advance(b"\x1b");
    assert!(!tracker.is_at_safe_split());
    tracker.advance(b"(");
    assert!(!tracker.is_at_safe_split());
    tracker.advance(b"0");
    assert!(tracker.is_at_safe_split());
    assert_eq!(tracker.snapshot_state().charset.g, [b'0', 0, 0, 0]);
}

#[test]
fn feeding_no_bytes_leaves_the_tracker_as_it_was() {
    let mut tracker = AnchorTracker::new();
    tracker.advance(b"ab\x1b[1m");
    let before = tracker.snapshot_state();
    tracker.advance(b"");
    assert_eq!(tracker.snapshot_state().cursor, before.cursor);
    assert_eq!(tracker.snapshot_state().sgr, before.sgr);
    assert!(tracker.is_at_safe_split());
}

#[test]
fn anchor_is_placed_once_the_interval_is_reached_at_a_split_point() {
    let mut ring = ScrollbackRing::new(80, 24, Some(64)).unwrap();
    ring.push(&vec![b'a'; 63]);
    assert_eq!(ring.anchor_offsets(), vec![0]);
    ring.push(b"a");
    assert_eq!(ring.anchor_offsets(), vec![0, 64]);
}

#[test]
fn anchor_waits_for_the_end_of_an_escape_sequence() {
    let mut ring = ScrollbackRing::new(80, 24, Some(64)).unwrap();
    let mut bytes = vec![b'a'; 63];
    bytes.push(0x1b);
    ring.push(&bytes);
    assert_eq!(ring.anchor_offsets(), vec![0]);
    ring.push(b"c");
    assert_eq!(ring.anchor_offsets(), vec![65]);
    assert_eq!(ring.tail_seq(), StreamSeq(65));
}

#[test]
fn feeding_in_pieces_matches_feeding_at_once() {
    let mut whole = AnchorTracker::new();
    whole.advance(b"ab\x1b[1;31mcd\x1b]2;t\x07\n");
    let mut pieces = AnchorTracker::new();
    pieces.advance(b"ab\x1b[1;3");
    pieces.advance(b"1mcd\x1b]2;");
    pieces.advance(b"t\x07\n");
    assert_eq!(whole.snapshot_state().cursor, pieces.snapshot_state().cursor);
    assert_eq!(whole.snapshot_state().sgr, pieces.snapshot_state().sgr);
    assert_eq!(whole.snapshot_state().title, pieces.snapshot_state().title);
    assert_eq!(whole.is_at_safe_split(), pieces.is_at_safe_split());
}

#[test]
fn split_flag_follows_the_last_completed_event() {
    let mut t = AnchorTracker::new();
    t.advance(b"\x1b[");
    assert!(!t.is_at_safe_split());
    t.advance(b"a");
    assert!(t.is_at_safe_split());
    t.advance(b"\x1b]x");
    assert!(!t.is_at_safe_split());
}

#[test]
fn clock_readings_beyond_u64_saturate() {
    assert_eq!(unix_ms_from(Some(1_700_000_000_000)), 1_700_000_000_000);
    assert_eq!(unix_ms_from(Some(u64::MAX as u128 + 1)), u64::MAX);
    assert_eq!(unix_ms_from(None), u64::MAX);
}
