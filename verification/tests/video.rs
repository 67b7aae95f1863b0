use keet::json::JsonValue;
use keet::mpv_ipc::{
    get_command, parse_data_number, pause_command, retry_after, rid_match, seek_command,
    signed_decimal_text, volume_command, Drain, IpcError, MpvIpc, MpvPoll, Snapshot,
};
use keet::state::{PlayerState, UiState};
use keet::video_mpv::{
    ipc_failure_text, spawn_failed, spawn_failure_text, track_info, ChildState, VideoAction,
    VideoEvent, VideoSession, VideoStage, VideoTimes,
};

fn snapshot() -> Snapshot {
    let mut ipc = MpvIpc::new();
    let (commands, s) = ipc.poll_snapshot();
    assert_eq!(
        commands,
        vec![
            "{\"command\":[\"get_property\",\"time-pos\"],\"request_id\":1001}",
            "{\"command\":[\"get_property\",\"duration\"],\"request_id\":1002}",
            "{\"command\":[\"get_property\",\"pause\"],\"request_id\":1003}",
        ]
    );
    assert_eq!(ipc.next_id(), 1004);
    s
}

#[test]
fn commands_are_lines_of_json() {
    assert_eq!(
        get_command("pause", 7),
        "{\"command\":[\"get_property\",\"pause\"],\"request_id\":7}"
    );
    assert_eq!(
        pause_command(true, 1),
        "{\"command\":[\"set_property\",\"pause\",true],\"request_id\":1}"
    );
    assert_eq!(
        pause_command(false, 2),
        "{\"command\":[\"set_property\",\"pause\",false],\"request_id\":2}"
    );
    assert_eq!(
        volume_command("66.6", 3),
        "{\"command\":[\"set_property\",\"volume\",66.6],\"request_id\":3}"
    );
    assert_eq!(
        seek_command(-10, 4),
        "{\"command\":[\"seek\",-10,\"relative\"],\"request_id\":4}"
    );
    assert_eq!(signed_decimal_text(i64::MIN), i64::MIN.to_string());
    assert_eq!(signed_decimal_text(0), "0");
}

#[test]
fn a_snapshot_is_read_line_by_line() {
    let mut s = snapshot();
    assert_eq!(s.wants_line(), Ok(true));
    assert_eq!(s.read_line("\n"), Ok(()));
    assert_eq!(s.read_line("# comment"), Ok(()));
    assert_eq!(s.read_line("{\"event\":\"pause\"}"), Ok(()));
    assert_eq!(s.read_line("{\"request_id\":1002,\"error\":\"success\",\"data\":90.5}"), Ok(()));
    assert_eq!(s.read_line("{\"request_id\":1001,\"error\":\"success\",\"data\":null}"), Ok(()));
    assert_eq!(s.read_line("{\"request_id\":1003,\"error\":\"failed\",\"data\":true}"), Ok(()));
    assert_eq!(s.paused, None);
    assert_eq!(s.read_line("{\"request_id\":1003,\"error\":\"success\",\"data\":true}"), Ok(()));
    assert_eq!(s.wants_line(), Ok(false));
    assert_eq!(
        s.finish(),
        MpvPoll { time_pos: 0, duration: 90.5f64.to_bits(), paused: true }
    );
}

#[test]
fn what_is_not_answered_counts_as_zero() {
    let mut s = snapshot();
    assert_eq!(s.finish(), MpvPoll { time_pos: 0, duration: 0, paused: false });
    assert_eq!(s.read_line("{\"request_id\":1001,\"error\":\"success\",\"data\":-2.5}"), Ok(()));
    assert_eq!(s.finish().time_pos, 0);
}

#[test]
fn bad_replies_are_errors() {
    let mut s = snapshot();
    let bad = s.read_line("not json").unwrap_err();
    assert_eq!(bad.message(), "mpv IPC JSON: expected ident at line 1 column 2");
    for _ in 0..4096 {
        assert_eq!(s.wants_line(), Ok(true));
    }
    assert_eq!(s.wants_line(), Err(IpcError::TooManyLines));
    assert_eq!(
        IpcError::TooManyLines.message(),
        "mpv IPC: too many lines while waiting for replies"
    );
    assert_eq!(IpcError::DrainOverflow.message(), "mpv IPC: drain reply overflow");
}

#[test]
fn replies_are_told_by_their_number() {
    let num = |u, i, f| Some(JsonValue::Number(u, i, f));
    assert!(rid_match(&num(Some(5), Some(5), None), 5));
    assert!(rid_match(&num(None, Some(-1), None), u64::MAX));
    assert!(!rid_match(&num(Some(5), None, None), 6));
    assert!(!rid_match(&None, 5));
    assert_eq!(parse_data_number(&Some(JsonValue::Null)), Some(0));
    assert_eq!(parse_data_number(&num(None, None, Some(8))), Some(8));
    assert_eq!(parse_data_number(&Some(JsonValue::Bool(true))), None);
    assert_eq!(parse_data_number(&None), None);
}

#[test]
fn a_command_waits_for_its_reply() {
    let mut d = Drain::new(7);
    assert!(!d.answered_by(""));
    assert!(!d.answered_by("garbage"));
    assert!(!d.answered_by("{\"request_id\":8}"));
    assert!(d.answered_by(" {\"request_id\":7} "));
    for _ in 0..2048 {
        assert_eq!(d.wants_line(), Ok(()));
    }
    assert_eq!(d.wants_line(), Err(IpcError::DrainOverflow));
}

#[test]
fn requests_are_numbered() {
    let mut ipc = MpvIpc::new();
    let (command, wait) = ipc.set_pause(true);
    assert_eq!(command, pause_command(true, 1001));
    assert_eq!(wait, Drain::new(1001));
    let (command, wait) = ipc.set_volume_keet("100");
    assert_eq!(command, volume_command("100", 1002));
    assert_eq!(wait, Drain::new(1002));
    let (command, wait) = ipc.seek_relative(10);
    assert_eq!(
        command,
        "{\"command\":[\"seek\",10,\"relative\"],\"request_id\":1003}"
    );
    assert_eq!(wait, Drain::new(1003));
}

#[test]
fn the_video_player_is_called_again() {
    assert_eq!(retry_after(1), Some(25));
    assert_eq!(retry_after(80), Some(25));
    assert_eq!(retry_after(81), None);
}

fn session(with_ipc: bool) -> (PlayerState, UiState, VideoSession) {
    let mut s = PlayerState::new();
    let v = VideoSession::new(&mut s, with_ipc);
    assert!(s.track_info_ready);
    (s, UiState::new(Vec::new(), false, false), v)
}

#[test]
fn a_round_with_a_dialogue() {
    let (mut s, mut ui, mut v) = session(true);
    let round = VideoEvent::Round { tick: true };
    assert_eq!(v.step(&mut s, &mut ui, 3, round), VideoAction::Poll);
    let poll = MpvPoll { time_pos: 1, duration: 2, paused: true };
    assert_eq!(v.step(&mut s, &mut ui, 3, VideoEvent::Polled(Some(poll))), VideoAction::Read);
    assert!(s.paused);
    assert_eq!(v.position, Some(VideoTimes { time_pos: 1, duration: 2 }));
    ui.pending_resume_save = true;
    s.volume = 50;
    s.seek(10);
    assert_eq!(v.step(&mut s, &mut ui, 3, VideoEvent::Read { quit: false }), VideoAction::Save);
    assert!(!ui.pending_resume_save);
    assert_eq!(
        v.step(&mut s, &mut ui, 3, VideoEvent::Done),
        VideoAction::Send { paused: true, volume: Some(50), seek: Some(10) }
    );
    assert_eq!(v.step(&mut s, &mut ui, 3, VideoEvent::Done), VideoAction::Watch);
    ui.terminal_resized = true;
    assert_eq!(
        v.step(&mut s, &mut ui, 3, VideoEvent::Child(ChildState::Running)),
        VideoAction::Draw { clear: true }
    );
    assert!(!ui.terminal_resized);
    assert_eq!(v.step(&mut s, &mut ui, 3, VideoEvent::Done), VideoAction::Sleep(10));
    assert_eq!(v.step(&mut s, &mut ui, 3, VideoEvent::Round { tick: false }), VideoAction::Read);
    assert_eq!(
        v.step(&mut s, &mut ui, 3, VideoEvent::Read { quit: false }),
        VideoAction::Send { paused: true, volume: None, seek: None }
    );
}

#[test]
fn requests_end_the_session() {
    let leave = VideoAction::Leave { kill: true, quit: false };
    let (mut s, mut ui, mut v) = session(false);
    v.stage = VideoStage::Reading;
    s.jump_to(9);
    s.next();
    assert_eq!(v.step(&mut s, &mut ui, 3, VideoEvent::Read { quit: false }), leave);
    assert_eq!((ui.current, s.current_track, s.skip_next), (2, 2, true));

    let (mut s, mut ui, mut v) = session(false);
    v.stage = VideoStage::Reading;
    ui.current = 2;
    s.next();
    assert_eq!(v.step(&mut s, &mut ui, 3, VideoEvent::Read { quit: false }), leave);
    assert_eq!(ui.current, 3);

    let (mut s, mut ui, mut v) = session(false);
    v.stage = VideoStage::Reading;
    s.prev();
    assert_eq!(v.step(&mut s, &mut ui, 3, VideoEvent::Read { quit: false }), leave);
    assert_eq!(ui.current, 0);
    assert_eq!(v.stage, VideoStage::Over);
}

#[test]
fn the_next_track_follows_the_video() {
    let (mut s, mut ui, mut v) = session(false);
    v.stage = VideoStage::Watching;
    assert_eq!(
        v.step(&mut s, &mut ui, 1, VideoEvent::Child(ChildState::Exited)),
        VideoAction::Leave { kill: false, quit: false }
    );
    assert_eq!((ui.current, s.current_track), (1, 1));
    let (mut s, mut ui, mut v) = session(false);
    v.stage = VideoStage::Watching;
    assert_eq!(
        v.step(&mut s, &mut ui, 1, VideoEvent::Child(ChildState::Running)),
        VideoAction::Sleep(20)
    );
}

#[test]
fn quitting_comes_first() {
    let (mut s, mut ui, mut v) = session(true);
    let bye = VideoAction::Leave { kill: true, quit: true };
    assert_eq!(
        {
            s.quit();
            v.step(&mut s, &mut ui, 3, VideoEvent::Round { tick: true })
        },
        bye
    );
    let (mut s, mut ui, mut v) = session(true);
    v.stage = VideoStage::Reading;
    assert_eq!(v.step(&mut s, &mut ui, 3, VideoEvent::Read { quit: true }), bye);
}

#[test]
fn a_missing_video_player_is_told_of() {
    let (mut s, mut ui, _) = session(false);
    spawn_failed(&mut s, &mut ui, 5, spawn_failure_text("gone"));
    assert_eq!(s.decode_error, Some("无法启动 mpv（请安装并加入 PATH）: gone".to_string()));
    assert_eq!((ui.current, s.current_track), (1, 1));
    assert_eq!(ipc_failure_text("x"), "mpv IPC 不可用: x");
    assert_ne!(track_info(true), track_info(false));
}
