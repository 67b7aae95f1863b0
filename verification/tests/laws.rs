use keet::lyrics::urlencod;
use keet::mpv_ipc::MpvIpc;
use keet::playlist::dedup_tracks;
use keet::samples::{crossfade_samples, interleave, take_chunks};
use keet::screen::{progress_bar_chars, Progress};
use keet::session::{restart, take_turn, Turn};
use keet::state::{
    BannerHotkey, PlayerState, UiState, ViewMode, VizStyle, RING_BUFFER_SIZE,
};
use keet::track::Track;
use keet::ui::{apply_banner_hotkey, playlist_cursor_down, playlist_cursor_up};

fn ui() -> UiState {
    UiState::new(Vec::new(), false, false)
}

fn decoded(text: &str) -> Vec<u8> {
    let bytes = text.as_bytes();
    let mut out = Vec::new();
    let mut i = 0;
    while i < bytes.len() {
        if bytes[i] == b'%' {
            out.push(u8::from_str_radix(&text[i + 1..i + 3], 16).unwrap());
            i += 3;
        } else {
            out.push(bytes[i]);
            i += 1;
        }
    }
    out
}

#[test]
fn queries_are_decoded_to_what_they_were() {
    for text in ["", "plain", "Motörhead & co. 100%", "歌词?=#", "\u{7f}\n "] {
        let sent = urlencod(text);
        assert_eq!(decoded(&sent), text.as_bytes());
        assert!(sent.bytes().all(|b| b.is_ascii_alphanumeric() || b"-_.~%".contains(&b)));
    }
}

#[test]
fn bars_grow_with_the_track() {
    for style in [VizStyle::Dots, VizStyle::Bars] {
        let empty = if style == VizStyle::Dots { '⣀' } else { '▏' };
        let mut before = 0;
        for num in 0..=60 {
            let bar = progress_bar_chars(Progress { num, den: 60 }, 5, style);
            assert_eq!(bar.chars().count(), 5);
            let full = bar.chars().take_while(|c| *c == '⣿' || *c == '█').count();
            assert!(full >= before);
            before = full;
            if num == 0 {
                assert!(bar.chars().all(|c| c == empty));
            }
        }
        assert_eq!(before, 5);
    }
}

#[test]
fn a_restart_is_done_once() {
    let mut s = PlayerState::new();
    let mut u = ui();
    s.jump_to(4);
    assert_eq!(take_turn(&mut s), Turn::Restart);
    restart(&mut s, &mut u, RING_BUFFER_SIZE);
    assert_eq!(take_turn(&mut s), Turn::GoOn);
    assert_eq!(u.current, 4);
}

#[test]
fn the_cursor_comes_back() {
    let mut u = ui();
    u.cursor = 3;
    playlist_cursor_down(&mut u, 10);
    playlist_cursor_up(&mut u);
    assert_eq!(u.cursor, 3);
    u.cursor = 9;
    playlist_cursor_down(&mut u, 10);
    assert_eq!(u.cursor, 9);
}

#[test]
fn keys_switch_off_what_they_switched_on() {
    let mut s = PlayerState::new();
    let mut u = ui();
    for hk in [BannerHotkey::Shuffle, BannerHotkey::LoopToggle] {
        apply_banner_hotkey(&mut s, &mut u, 3, hk, 0);
        assert!(u.shuffle || u.repeat);
        apply_banner_hotkey(&mut s, &mut u, 3, hk, 0);
        assert!(!u.shuffle && !u.repeat);
    }
    for hk in [BannerHotkey::List, BannerHotkey::Lyrics] {
        apply_banner_hotkey(&mut s, &mut u, 3, hk, 0);
        assert!(u.view_mode != ViewMode::Player);
        apply_banner_hotkey(&mut s, &mut u, 3, hk, 0);
        assert!(u.view_mode == ViewMode::Player);
    }
}

#[test]
fn replies_do_not_mix() {
    let mut ipc = MpvIpc::new();
    let (_, mut s) = ipc.poll_snapshot();
    let line = "{\"request_id\":1002,\"error\":\"success\",\"data\":7}";
    assert_eq!(s.read_line(line), Ok(()));
    assert_eq!((s.time, s.paused), (None, None));
    assert_eq!(s.duration, Some(7.0f64.to_bits()));
    assert_eq!(s.read_line("{\"request_id\":9,\"error\":\"success\",\"data\":1}"), Ok(()));
    assert_eq!(s.duration, Some(7.0f64.to_bits()));
}

#[test]
fn a_second_dedup_finds_nothing() {
    let list: Vec<Track> =
        ["a.mp3", "b.mp3", "c.mp3"].iter().map(|p| Track::new(p.to_string())).collect();
    let keys: Vec<String> = ["/1", "/2", "/1"].iter().map(|p| p.to_string()).collect();
    let once = dedup_tracks(&list, &keys);
    assert_eq!(once.len(), 2);
    let twice = dedup_tracks(&once, &keys[..2].to_vec());
    assert_eq!(once, twice);
}

#[test]
fn chunks_and_rest_are_the_whole() {
    let whole: Vec<u8> = (0..10).collect();
    let mut rest = whole.clone();
    let mut all: Vec<u8> = take_chunks(&mut rest, 4).concat();
    all.append(&mut rest);
    assert_eq!(all, whole);
    assert_eq!(interleave(&vec![vec![1u8, 3], vec![2, 4]], 2), vec![1, 2, 3, 4]);
    assert_eq!(crossfade_samples(0, 44100), 0);
}
