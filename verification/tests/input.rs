use keet::metadata::MetadataCache;
use keet::state::{BannerHotkey, CellRect, InputMode, PlayerState, UiState, ViewMode};
use keet::lyrics::Lyrics;
use keet::track::Track;
use keet::ui::{
    apply_banner_hotkey, choose_path_with_dialog, find_region, format_time, path_cancelled,
    playlist_saved, poll_input, read_path_from_user, remove_track, rescan, rescan_finished,
    switch_source_paths, Flow, InputEvent, Key, Opened, Outcome, UiAction,
};

struct World {
    s: PlayerState,
    ui: UiState,
    cache: MetadataCache,
    list: Vec<Track>,
}

fn world(paths: &[&str]) -> World {
    World {
        s: PlayerState::new(),
        ui: UiState::new(vec!["src".to_string()], false, false),
        cache: MetadataCache::new(paths.len()),
        list: paths.iter().map(|p| Track::new(p.to_string())).collect(),
    }
}

impl World {
    fn press(&mut self, key: Key) -> Outcome {
        let event = InputEvent::Key { press: true, key, control: false };
        poll_input(&mut self.s, &mut self.ui, &self.cache, &self.list, event, 0)
    }

    fn send(&mut self, event: InputEvent) -> Outcome {
        poll_input(&mut self.s, &mut self.ui, &self.cache, &self.list, event, 0)
    }

    fn status(&self) -> String {
        self.ui.status_message.as_ref().unwrap().0.clone()
    }
}

fn more(o: &Outcome) -> bool {
    o.action.is_none() && o.flow == Flow::More
}

#[test]
fn keys_of_the_player() {
    let mut w = world(&["a.mp3"]);
    assert!(more(&w.press(Key::Char(' '))));
    assert!(w.s.paused);
    w.press(Key::Up);
    w.press(Key::Down);
    assert!(w.s.skip_next && w.s.skip_prev);
    w.press(Key::Right);
    assert_eq!(w.s.seek_request, 10);
    w.press(Key::Left);
    assert_eq!(w.s.seek_request, -10);
    w.press(Key::Char('='));
    assert_eq!(w.s.volume, 105);
    w.press(Key::Char('-'));
    w.press(Key::Char('['));
    assert_eq!((w.s.volume, w.s.balance), (100, -5));
    w.press(Key::Char(']'));
    w.press(Key::Char('f'));
    w.press(Key::Char('i'));
    assert!(w.s.pre_fader && w.s.show_stats && w.s.balance == 0);
    assert!(more(&w.press(Key::Char('z'))));
}

#[test]
fn keys_that_end_the_program() {
    for (key, control) in [(Key::Char('q'), false), (Key::Esc, false), (Key::Char('c'), true)] {
        let mut w = world(&["a.mp3"]);
        let o = w.send(InputEvent::Key { press: true, key, control });
        assert!(o.flow == Flow::Stop { quit: true } && w.s.quit);
    }
    let mut w = world(&["a.mp3"]);
    w.s.crossfeed_preset_count = 2;
    assert!(more(&w.press(Key::Char('c'))));
    assert_eq!(w.s.crossfeed_preset_index, 1);
    let o = w.send(InputEvent::Key { press: false, key: Key::Char('q'), control: false });
    assert!(more(&o) && !w.s.quit);
}

#[test]
fn keys_that_need_help_from_outside() {
    let mut w = world(&["a.mp3"]);
    assert!(matches!(w.press(Key::Char('o')).action, Some(UiAction::AskPath)));
    assert!(matches!(w.press(Key::Char('p')).action, Some(UiAction::PickPath)));
    assert!(matches!(w.press(Key::Char('r')).action, Some(UiAction::Rescan)));
}

#[test]
fn shuffle_and_repeat_are_told() {
    let mut w = world(&["a.mp3"]);
    w.press(Key::Char('g'));
    assert!(w.ui.shuffle && w.ui.pending_resume_save);
    assert_eq!(w.status(), "随机播放：开（再次列表循环时重排）");
    w.press(Key::Char('g'));
    assert_eq!(w.status(), "随机播放：关");
    w.ui.session_idle = true;
    w.ui.current = 1;
    w.press(Key::Char('t'));
    assert!(w.ui.repeat && !w.ui.session_idle);
    assert_eq!((w.ui.current, w.status().as_str()), (0, "列表循环：开"));
    w.press(Key::Char('t'));
    assert_eq!(w.status(), "列表循环：关");
}

#[test]
fn the_list_has_keys_of_its_own() {
    let mut w = world(&["a.mp3", "b.mp3", "c.mp3"]);
    w.ui.current = 1;
    w.ui.scroll_offset = 5;
    w.press(Key::Char('l'));
    assert!(w.ui.view_mode == ViewMode::Playlist);
    assert_eq!((w.ui.cursor, w.ui.scroll_offset), (1, 1));
    assert!(more(&w.press(Key::Down)));
    w.press(Key::Down);
    assert_eq!(w.ui.cursor, 2);
    w.press(Key::Up);
    w.press(Key::Up);
    w.press(Key::Up);
    assert_eq!((w.ui.cursor, w.ui.scroll_offset), (0, 0));
    assert!(!w.s.skip_next && !w.s.skip_prev);
    let o = w.press(Key::Enter);
    assert!(o.flow == Flow::Stop { quit: false });
    assert_eq!(w.s.take_jump(), Some(0));
    assert!(matches!(w.press(Key::Delete).action, Some(UiAction::Remove(0))));
    w.press(Key::Esc);
    assert!(w.ui.view_mode == ViewMode::Player && !w.s.quit);
    let mut one = world(&["a.mp3"]);
    one.press(Key::Char('l'));
    assert!(one.press(Key::Char('d')).action.is_none());
    assert_eq!(one.status(), "Can't remove the last track");
}

#[test]
fn searching_filters_the_list() {
    let mut w = world(&["x/Alpha.mp3", "x/Beta.mp3", "x/alphabet.mp3"]);
    w.press(Key::Char('l'));
    w.press(Key::Char('/'));
    for c in "ALPHA".chars() {
        let o = w.press(Key::Char(c));
        assert!(o.flow == Flow::Stop { quit: false });
    }
    assert_eq!(w.ui.filtered_indices, vec![0, 2]);
    w.press(Key::Char('b'));
    assert_eq!(w.ui.filtered_indices, vec![2]);
    w.press(Key::Backspace);
    assert_eq!(w.ui.filtered_indices, vec![0, 2]);
    w.press(Key::Down);
    w.press(Key::Enter);
    assert_eq!(w.s.take_jump(), Some(2));
    assert!(matches!(w.ui.input_mode, InputMode::Normal) && w.ui.filtered_indices.is_empty());
    w.press(Key::Char('/'));
    w.press(Key::Char('q'));
    assert!(!w.s.quit);
    w.press(Key::Esc);
    assert!(matches!(w.ui.input_mode, InputMode::Normal));
}

#[test]
fn playlists_are_saved_under_a_name() {
    let mut w = world(&["a.mp3"]);
    w.press(Key::Char('s'));
    assert!(w.press(Key::Enter).action.is_none());
    w.press(Key::Char('s'));
    w.press(Key::Char('m'));
    w.press(Key::Char('x'));
    w.press(Key::Backspace);
    w.press(Key::Char('y'));
    match w.press(Key::Enter).action {
        Some(UiAction::Save(name)) => assert_eq!(name, "my"),
        _ => panic!("a name was typed"),
    }
    playlist_saved(&mut w.ui, 3, Ok("my.m3u".to_string()), 0);
    assert_eq!(w.status(), "Saved 3 tracks to my.m3u");
    playlist_saved(&mut w.ui, 3, Err("disk full".to_string()), 0);
    assert_eq!(w.status(), "Save failed: disk full");
}

#[test]
fn the_lyrics_have_keys_of_their_own() {
    let mut w = world(&["a.mp3"]);
    w.press(Key::Char('y'));
    assert!(w.ui.view_mode == ViewMode::Lyrics);
    w.ui.lyrics = Some(Lyrics::Plain(vec!["1".to_string(), "2".to_string()]));
    w.press(Key::Char('s'));
    w.press(Key::Char('s'));
    assert_eq!(w.ui.lyrics_scroll, 1);
    assert!(!w.ui.lyrics_auto_scroll);
    w.press(Key::Char('w'));
    w.press(Key::Char('w'));
    assert_eq!(w.ui.lyrics_scroll, 0);
    w.press(Key::Char('d'));
    w.press(Key::Char('d'));
    w.press(Key::Char('a'));
    assert_eq!(w.ui.lyrics_offset, 0);
    w.ui.lyrics = Some(Lyrics::Synced(Vec::new()));
    w.press(Key::Char('d'));
    w.press(Key::Char('d'));
    w.press(Key::Char('a'));
    assert_eq!(w.ui.lyrics_offset, 1);
    w.press(Key::Up);
    assert!(w.s.skip_next);
    w.press(Key::Esc);
    assert!(w.ui.view_mode == ViewMode::Player && !w.s.quit);
}

#[test]
fn clicks_press_the_keys_of_the_banner() {
    let mut w = world(&["a.mp3"]);
    let rect = CellRect { x: 3, y: 1, w: 3, h: 1 };
    w.ui.banner_hotkey_regions = vec![(rect, BannerHotkey::Fader), (rect, BannerHotkey::Info)];
    assert_eq!(find_region(&w.ui.banner_hotkey_regions, 5, 1), Some(BannerHotkey::Fader));
    assert_eq!(find_region(&w.ui.banner_hotkey_regions, 6, 1), None);
    assert_eq!(find_region(&w.ui.banner_hotkey_regions, 3, 2), None);
    w.send(InputEvent::Mouse { left_down: true, col: 4, row: 1 });
    assert!(w.s.pre_fader && !w.s.show_stats);
    w.send(InputEvent::Mouse { left_down: false, col: 4, row: 1 });
    assert!(w.s.pre_fader);
    w.ui.input_mode = InputMode::Search(String::new());
    w.send(InputEvent::Mouse { left_down: true, col: 4, row: 1 });
    assert!(w.s.pre_fader);
    w.send(InputEvent::Resize);
    assert!(w.ui.terminal_resized);
    assert!(more(&w.send(InputEvent::Other)));
    assert!(apply_banner_hotkey(&mut w.s, &mut w.ui, 1, BannerHotkey::Fader, 0).is_none());
    assert!(!w.s.pre_fader);
}

#[test]
fn removing_tracks() {
    let mut w = world(&["a.mp3", "b.mp3", "c.mp3"]);
    w.ui.current = 1;
    remove_track(&mut w.s, &mut w.ui, &mut w.cache, &mut w.list, 0, "/a".to_string(), 0);
    assert_eq!((w.ui.current, w.s.total_tracks, w.s.current_track), (0, 2, 0));
    assert!(w.ui.playlist_dirty && !w.ui.current_track_removed && !w.s.skip_next);
    assert_eq!(w.status(), "Removed: a.mp3");
    w.ui.current = 1;
    w.ui.cursor = 1;
    remove_track(&mut w.s, &mut w.ui, &mut w.cache, &mut w.list, 1, "/a".to_string(), 0);
    assert_eq!((w.ui.current, w.ui.cursor), (0, 0));
    assert!(w.ui.current_track_removed && w.s.skip_next);
    assert_eq!(w.ui.removed_paths, vec!["/a".to_string()]);
    assert_eq!(w.list[0].path, "b.mp3");
    assert_eq!(w.cache.entries.len(), 1);
}

#[test]
fn opening_another_source() {
    let mut w = world(&["a.mp3"]);
    let go = |w: &mut World, o: Opened| {
        switch_source_paths(&mut w.s, &mut w.ui, &mut w.cache, &mut w.list, "d".to_string(), o, 0)
    };
    assert!(!go(&mut w, Opened::Missing));
    assert_eq!(w.status(), "路径不存在: d");
    assert!(!go(&mut w, Opened::Unreadable("why".to_string())));
    assert_eq!(w.status(), "无法读取: d (why)");
    assert!(!go(&mut w, Opened::Tracks(Vec::new(), Vec::new())));
    assert_eq!(w.status(), "目录内没有可播放音频");
    assert_eq!(w.list.len(), 1);
    let tracks = vec![Track::new("d/x.mp3".to_string()), Track::new("d/y.mp3".to_string())];
    w.ui.session_idle = true;
    assert!(go(&mut w, Opened::Tracks(tracks, vec!["k".to_string(), "k".to_string()])));
    assert_eq!(w.status(), "已切换目录: d");
    assert_eq!((w.list.len(), w.s.total_tracks, w.s.take_jump()), (1, 1, Some(0)));
    assert_eq!(w.ui.source_paths, vec!["d".to_string()]);
    assert!(w.ui.playlist_dirty && !w.ui.session_idle);
}

#[test]
fn paths_that_are_typed_or_picked() {
    let mut w = world(&["a.mp3"]);
    assert_eq!(read_path_from_user(&mut w.ui, Some(" /m \n")), Some("/m".to_string()));
    assert!(w.ui.terminal_resized);
    assert_eq!(read_path_from_user(&mut w.ui, Some("\n")), None);
    assert_eq!(read_path_from_user(&mut w.ui, None), None);
    assert_eq!(choose_path_with_dialog(Some("/m\n")), Some("/m".to_string()));
    assert_eq!(choose_path_with_dialog(Some("")), None);
    assert_eq!(choose_path_with_dialog(None), None);
    path_cancelled(&mut w.ui, 0);
    assert_eq!(w.status(), "已取消");
}

#[test]
fn rescans_are_told() {
    let mut w = world(&["m/a.mp3", "m/b.mp3"]);
    w.ui.current = 1;
    let keys = |l: &Vec<Track>| l.iter().map(|t| t.path.clone()).collect::<Vec<String>>();
    let fresh = vec![Some(vec![
        Track::new("m/b.mp3".to_string()),
        Track::new("m/c.mp3".to_string()),
    ])];
    rescan(&mut w.s, &mut w.ui, &mut w.cache, &mut w.list, &fresh, keys, 0);
    assert_eq!(w.status(), "+1 added, -1 removed");
    assert_eq!((w.ui.current, w.s.total_tracks, w.list.len()), (0, 2, 2));
    let same = vec![Some(w.list.clone())];
    rescan(&mut w.s, &mut w.ui, &mut w.cache, &mut w.list, &same, keys, 0);
    assert_eq!(w.status(), "No changes found");
    rescan(&mut w.s, &mut w.ui, &mut w.cache, &mut w.list, &vec![None], keys, 0);
    assert_eq!(w.status(), "Rescan failed for some sources");
    rescan(&mut w.s, &mut w.ui, &mut w.cache, &mut w.list, &vec![Some(Vec::new())], keys, 0);
    assert_eq!(w.status(), "All files removed, finishing current track");
    rescan_finished(&mut w.s, &mut w.ui, 4, true, None, 0, 0, false, 0);
    assert_eq!(w.ui.current, 0);
}

#[test]
fn a_rescan_of_unchanged_folders_is_told() {
    let mut w = world(&["m/a.mp3", "m/b.mp3", "n/c.mp3"]);
    w.ui.current = 2;
    w.cache.cancel = true;
    let keys = |l: &Vec<Track>| l.iter().map(|t| t.path.clone()).collect::<Vec<String>>();
    let before = w.list.clone();
    w.ui.source_paths = vec!["m".to_string(), "n".to_string()];
    let fresh = vec![Some(before[0..2].to_vec()), Some(before[2..3].to_vec())];
    rescan(&mut w.s, &mut w.ui, &mut w.cache, &mut w.list, &fresh, keys, 0);
    assert_eq!(w.list, before);
    assert_eq!((w.ui.current, w.s.total_tracks), (2, 3));
    assert_eq!(w.status(), "No changes found");
    assert!(w.cache.cancel);
}

#[test]
fn times_as_clocks() {
    assert_eq!(format_time(0), "00:00");
    assert_eq!(format_time(61), "01:01");
    assert_eq!(format_time(6000), "100:00");
    assert_eq!(format_time(u64::MAX), "4294967295:15");
}
