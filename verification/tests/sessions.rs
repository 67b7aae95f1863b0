use keet::args::{parse_args, parse_number, rg_mode_named, ArgError, Command};
use keet::audio::Platform;
use keet::eq::{builtin_presets, find_preset, name_order, not_after};
use keet::metadata::MetadataCache;
use keet::resume::{
    build_resume_state, resume_device, resume_exclusive, resume_track, restore_session,
    rg_mode_word, state_file_path, ResumeState,
};
use keet::session::{
    banner_frame, banner_line_count, begin_round, choose_stream_rate, combine, duration_hint,
    failed_to_start, finished, first_key, first_playlist, follow_decoder, info_text,
    output_buffer, output_text, playlist_over, prepare_decoder, rate_changed, read_sources,
    ready_for_rate, restart, resume_position, skip_failed, still_filling, take_turn, target_rate,
    track_info, whats_next, FirstKey, Next, OutputRange, Turn,
};
use keet::state::{PlayerState, RgMode, Seconds, UiState, RING_BUFFER_SIZE};
use keet::track::Track;
use keet::ui::Key;

fn strings(list: &[&str]) -> Vec<String> {
    list.iter().map(|p| p.to_string()).collect()
}

fn tracks(paths: &[&str]) -> Vec<Track> {
    paths.iter().map(|p| Track::new(p.to_string())).collect()
}

fn ui() -> UiState {
    UiState::new(Vec::new(), false, false)
}

#[test]
fn command_lines() {
    assert!(matches!(parse_args(&strings(&["keet", "a", "-h"])), Ok(Command::Help)));
    assert!(matches!(parse_args(&strings(&["keet", "--list-devices"])), Ok(Command::ListDevices)));
    assert!(matches!(parse_args(&strings(&["keet"])), Ok(Command::Resume(_))));
    let args = strings(&[
        "keet", "music", "-s", "--eq", "Bass Boost", "more", "-x", "3", "--rg-mode", "ALBUM",
        "--device", "usb", "--exclusive",
    ]);
    match parse_args(&args) {
        Ok(Command::Play(sources, o)) => {
            assert_eq!(sources, strings(&["music", "more"]));
            assert!(o.shuffle && !o.repeat && !o.quality && o.exclusive);
            assert_eq!(o.eq.as_deref(), Some("Bass Boost"));
            assert_eq!(o.fx, None);
            assert_eq!((o.crossfade_secs, o.rg_mode), (3, RgMode::Album));
            assert_eq!(o.device.as_deref(), Some("usb"));
        }
        _ => panic!("sources were named"),
    }
}

#[test]
fn command_lines_that_are_refused() {
    match parse_args(&strings(&["keet", "a", "--what"])) {
        Err(e) => assert_eq!(
            e.message(),
            "Unknown option: --what\nRun with --help for usage information"
        ),
        _ => panic!("the option is not known"),
    }
    assert!(matches!(parse_args(&strings(&["keet", "-z"])), Err(ArgError::Unknown(_))));
    match parse_args(&strings(&["keet", "--shuffle", "--eq", "x"])) {
        Err(e) => assert_eq!(e.message(), "No input files or folders specified"),
        _ => panic!("nothing is named"),
    }
    assert!(matches!(parse_args(&strings(&["keet", "-long"])), Ok(Command::Play(_, _))));
}

#[test]
fn numbers_on_the_command_line() {
    assert_eq!(parse_number("0"), Some(0));
    assert_eq!(parse_number("+12"), Some(12));
    assert_eq!(parse_number("4294967295"), Some(u32::MAX));
    assert_eq!(parse_number("4294967296"), None);
    assert_eq!(parse_number("99999999999999999999999"), None);
    for s in ["", "+", "-1", "1.5", " 1", "1a"] {
        assert_eq!(parse_number(s), None, "{s}");
    }
    assert_eq!(rg_mode_named("off"), RgMode::Off);
    assert_eq!(rg_mode_named("Off"), RgMode::Track);
}

#[test]
fn presets_of_the_equalizer() {
    let presets = builtin_presets();
    let names: Vec<String> = presets.iter().map(|p| p.name.clone()).collect();
    assert_eq!(names, strings(&["Flat", "Bass Boost", "Treble Boost", "Vocal", "Loudness"]));
    assert!(!presets[0].is_active() && presets[3].is_active());
    let b = presets[3].bands[0];
    assert_eq!((b.freq, b.gain, b.q), (125, -20, 10));
    assert_eq!(find_preset(&names, &"bass boost".to_string(), true), Some(1));
    assert_eq!(find_preset(&names, &"bass boost".to_string(), false), None);
    assert_eq!(find_preset(&names, &"Vocal".to_string(), false), Some(3));
}

#[test]
fn names_in_the_order_of_a_dictionary() {
    assert!(not_after("Abc", "abc") && !not_after("abc", "Abc"));
    assert!(not_after("ab", "abc") && not_after("ab", "ab") && not_after("", "a"));
    assert_eq!(name_order(&strings(&["b", "a", "B", "a", "é"])), vec![2, 1, 3, 0, 4]);
}

fn kept() -> ResumeState {
    ResumeState {
        source_paths: strings(&["m"]),
        track_path: "m/b.mp3".to_string(),
        position: Seconds { num: 0, den: 1 },
        shuffle: true,
        repeat: false,
        volume: 70,
        eq_preset: "Vocal".to_string(),
        effects_preset: "gone".to_string(),
        rg_mode: Some("album".to_string()),
        device: Some("usb".to_string()),
        exclusive: Some(true),
        crossfeed_preset: Some("LIGHT".to_string()),
        balance: Some(-250),
    }
}

#[test]
fn a_session_is_taken_up() {
    let mut s = PlayerState::new();
    s.effects_preset_index = 1;
    restore_session(
        &mut s,
        &kept(),
        &strings(&["Flat", "Vocal"]),
        &strings(&["None", "Echo"]),
        &strings(&["Off", "Light"]),
    );
    assert_eq!((s.volume, s.eq_preset_index, s.effects_preset_index), (70, 1, 1));
    assert_eq!((s.crossfeed_preset_index, s.balance), (1, -100));
    assert!(s.rg_mode() == RgMode::Album);
    assert_eq!(resume_device(None, &kept()), Some("usb".to_string()));
    assert_eq!(resume_device(Some("x".to_string()), &kept()), Some("x".to_string()));
    assert!(resume_exclusive(false, &kept()));
    assert_eq!(resume_track(&tracks(&["m/a.mp3", "m/b.mp3"]), &kept(), 0), 1);
    assert_eq!(resume_track(&tracks(&["m/a.mp3"]), &kept(), 0), 0);
}

#[test]
fn a_session_is_kept() {
    let mut s = PlayerState::new();
    s.volume = 80;
    s.eq_preset_index = 1;
    s.rg_mode = 2;
    s.samples_played = 441;
    let mut u = UiState::new(strings(&["src"]), true, true);
    let list = tracks(&["a.mp3"]);
    let names = strings(&["A", "B"]);
    let r = build_resume_state(&u, &list, &s, &names, &names, &names, &None);
    assert_eq!((r.track_path.as_str(), r.volume, r.eq_preset.as_str()), ("a.mp3", 80, "B"));
    assert_eq!(r.rg_mode.as_deref(), Some("off"));
    assert!(r.position == Seconds { num: 441, den: 44100 } && r.shuffle && r.repeat);
    let mut t = PlayerState::new();
    restore_session(&mut t, &r, &names, &names, &names);
    assert_eq!((t.volume, t.eq_preset_index, t.rg_mode), (80, 1, 2));
    u.current = 5;
    assert_eq!(build_resume_state(&u, &list, &s, &names, &names, &names, &None).track_path, "");
    assert_eq!(rg_mode_word(RgMode::Track), "track");
    let dir = || Some("c".to_string());
    assert_eq!(state_file_path(false, None), None);
    assert_eq!(state_file_path(false, dir()), Some("c/state.json".to_string()));
    assert_eq!(state_file_path(true, dir()), Some("c\\state.json".to_string()));
}

#[test]
fn the_banner() {
    let info = info_text(true, true, true, "Vocal", "None", 3, "Light", -5);
    assert_eq!(info, "shuffle | repeat | HQ | EQ: Vocal | xfade: 3s | crossfeed: Light | bal: L5%");
    assert_eq!(info_text(false, false, false, "Flat", "Echo", 0, "Off", 5), "sequential | FX: Echo | bal: R5%");
    let frame = banner_frame("sequential");
    let lines: Vec<&str> = frame.lines().collect();
    assert_eq!(lines.len(), 5);
    for l in &lines {
        assert_eq!(l.chars().count(), 59);
    }
    assert_eq!(lines[1].trim_matches('║').trim(), "Keet");
    assert_eq!(banner_line_count(&frame), 5);
    assert_eq!(
        output_text("DAC", Some(48000), 48000, 2),
        "\nDevice: DAC\nBluetooth device detected, using native 48000Hz\nInitial output: 48000Hz (device default: 2ch)\n"
    );
}

#[test]
fn information_on_a_track() {
    let mut s = PlayerState::new();
    s.total_samples = 44100 * 125;
    assert_eq!(track_info(&s, 44100), "02:05 • 16bit stereo • 44100Hz");
    s.channels = 1;
    assert_eq!(track_info(&s, 48000), "02:05 • 16bit mono • 44100→48000Hz");
    s.channels = 6;
    assert_eq!(track_info(&s, 44100), "02:05 • 16bit 6ch • 44100Hz");
    assert_eq!(duration_hint(&s), Some(125));
    s.total_samples = 0;
    assert_eq!(duration_hint(&s), None);
}

#[test]
fn the_output_of_a_session() {
    let r = |channels, min_rate, max_rate| OutputRange { channels, min_rate, max_rate };
    let ranges = vec![r(1, 8000, 192000), r(2, 44100, 48000)];
    assert_eq!(choose_stream_rate(&ranges, 48000, Some(44100)), 48000);
    assert_eq!(choose_stream_rate(&ranges, 96000, Some(44100)), 44100);
    assert_eq!(choose_stream_rate(&ranges, 96000, None), 48000);
    assert_eq!(output_buffer(Platform::Windows, None), Some(2048));
    assert_eq!(output_buffer(Platform::Linux, Some("5.15-microsoft-standard")), Some(2048));
    assert_eq!(output_buffer(Platform::Linux, Some("6.1")), None);
    assert_eq!(output_buffer(Platform::MacOs, Some("WSL")), None);
    assert_eq!((target_rate(96000, 48000), target_rate(44100, 48000)), (48000, 44100));
}

#[test]
fn the_first_playlist() {
    let all = combine(&vec![tracks(&["a.mp3"]), tracks(&["b.mp3", "a.mp3"])]);
    let keys: Vec<String> = all.iter().map(|t| t.path.clone()).collect();
    let list = first_playlist(&all, &keys, None).unwrap();
    assert_eq!(list, tracks(&["a.mp3", "b.mp3"]));
    assert!(first_playlist(&Vec::new(), &Vec::new(), Some(1)).is_none());
}

#[test]
fn the_next_round() {
    let mut s = PlayerState::new();
    let mut u = ui();
    let mut cache = MetadataCache::new(2);
    let mut list = tracks(&["a.mp3", "b.mp3"]);
    u.removed_paths = strings(&["/b"]);
    u.current = 2;
    begin_round(&mut s, &mut u, &mut cache, &mut list, &strings(&["/a", "/b"]), None, None);
    assert_eq!(list, tracks(&["a.mp3"]));
    assert_eq!((s.total_tracks, u.current, cache.entries.len()), (1, 0, 1));
    let fresh = Some((tracks(&["b.mp3", "c.mp3", "x.mp3"]), strings(&["/b", "/c", "/c"])));
    begin_round(&mut s, &mut u, &mut cache, &mut list, &strings(&["/a"]), fresh, None);
    assert_eq!(list, tracks(&["c.mp3"]));
    let none = Some((Vec::new(), Vec::new()));
    begin_round(&mut s, &mut u, &mut cache, &mut list, &strings(&["/c"]), none, Some(3));
    assert_eq!(list, tracks(&["c.mp3"]));
}

#[test]
fn what_comes_next() {
    let mut s = PlayerState::new();
    let mut u = ui();
    assert_eq!(whats_next(&s, &mut u, 2), Next::Track(0));
    playlist_over(&mut u, 2);
    assert_eq!(whats_next(&s, &mut u, 2), Next::Idle);
    assert!(u.session_idle);
    u.repeat = true;
    assert_eq!(whats_next(&s, &mut u, 2), Next::Round);
    s.quit();
    assert_eq!(whats_next(&s, &mut u, 2), Next::Quit);
}

#[test]
fn a_decoder_starts() {
    let mut s = PlayerState::new();
    s.skip_next = true;
    s.producer_done = true;
    s.decode_error = Some("x".to_string());
    prepare_decoder(&mut s, 4);
    assert!(!s.skip_next && !s.producer_done && s.decode_error.is_none());
    assert_eq!(s.current_track, 4);
    assert!(still_filling(&s));
    s.track_info_ready = true;
    s.buffer_level = RING_BUFFER_SIZE / 4;
    assert!(!still_filling(&s));
    s.track_info_ready = false;
    s.producer_done = true;
    assert!(failed_to_start(&s) && !still_filling(&s));
    let mut position = 30;
    resume_position(&mut s, &mut position);
    assert_eq!((s.seek_request, position), (30, 0));
    s.seek_request = 0;
    resume_position(&mut s, &mut position);
    assert_eq!(s.seek_request, 0);
}

#[test]
fn the_decoder_is_followed() {
    let mut s = PlayerState::new();
    let mut u = ui();
    let mut last = 0;
    assert_eq!(follow_decoder(&mut s, &mut u, 3, &mut last), None);
    s.signal_next_track(2);
    u.lyrics_scroll = 9;
    assert_eq!(follow_decoder(&mut s, &mut u, 3, &mut last), Some(2));
    assert_eq!((u.current, s.current_track, last, u.lyrics_scroll), (2, 2, 1, 0));
    s.signal_next_track(7);
    u.playlist_dirty = true;
    assert_eq!(follow_decoder(&mut s, &mut u, 3, &mut last), None);
    assert_eq!(s.take_jump(), Some(2));
    s.signal_next_track(0);
    u.playlist_dirty = true;
    u.current_track_removed = true;
    u.current = 1;
    assert_eq!(follow_decoder(&mut s, &mut u, 3, &mut last), Some(0));
    assert_eq!(s.take_jump(), Some(1));
    assert!(!u.playlist_dirty && !u.current_track_removed);
}

#[test]
fn turns_of_a_session() {
    let mut s = PlayerState::new();
    assert_eq!(take_turn(&mut s), Turn::GoOn);
    s.producer_done = true;
    assert_eq!(take_turn(&mut s), Turn::Finished);
    assert!(finished(&s));
    s.stream_error = true;
    s.rate_change_needed = true;
    assert_eq!(take_turn(&mut s), Turn::ChangeRate);
    assert_eq!(take_turn(&mut s), Turn::Recover);
    assert_eq!(take_turn(&mut s), Turn::Finished);
    s.prev();
    assert_eq!(take_turn(&mut s), Turn::Restart);
    let mut u = ui();
    u.current = 3;
    restart(&mut s, &mut u, RING_BUFFER_SIZE - 8);
    assert_eq!((u.current, s.discard_samples, s.skip_prev), (2, 8, false));
    s.jump_to(9);
    restart(&mut s, &mut u, RING_BUFFER_SIZE);
    assert_eq!((u.current, s.jump_to_track), (9, -1));
    s.producer_track_index = 1;
    rate_changed(&mut s, &mut u, 3, 96000);
    assert_eq!((u.current, s.output_rate), (1, 96000));
}

#[test]
fn the_first_start() {
    assert_eq!(first_key(Key::Esc, Platform::Linux), FirstKey::Leave);
    assert_eq!(first_key(Key::Char('q'), Platform::Linux), FirstKey::Leave);
    assert_eq!(first_key(Key::Char('o'), Platform::Linux), FirstKey::Ask);
    assert_eq!(first_key(Key::Char('p'), Platform::MacOs), FirstKey::Pick);
    assert_eq!(first_key(Key::Char('p'), Platform::Linux), FirstKey::Ignore);
    assert_eq!(first_key(Key::Up, Platform::MacOs), FirstKey::Ignore);
}

#[test]
fn sources_that_fail_are_skipped() {
    let list = |p: &str| Ok(vec![Track::new(p.to_string())]);
    let bad = |why: &str| Err(why.to_string());
    assert_eq!(read_sources(vec![bad("gone")]).err(), Some("gone".to_string()));
    let read = read_sources(vec![bad("gone"), list("a.mp3"), bad("empty"), list("b.mp3")]);
    let read = read.ok().unwrap();
    let paths: Vec<String> = combine(&read.lists).into_iter().map(|t| t.path).collect();
    assert_eq!(paths, ["a.mp3", "b.mp3"]);
    assert_eq!(read.skipped, [(0, "gone".to_string()), (2, "empty".to_string())]);
    let none = read_sources(vec![bad("x"), bad("y")]).ok().unwrap();
    assert_eq!((none.lists.len(), none.skipped.len()), (0, 2));
    assert!(read_sources(vec![list("a.mp3")]).is_ok());
}

#[test]
fn a_failed_start_goes_on() {
    let mut u = UiState::new(Vec::new(), false, false);
    u.current = 3;
    skip_failed(&mut u);
    assert_eq!(u.current, 4);
}

#[test]
fn rates_change_when_all_is_played() {
    let mut s = PlayerState::new();
    assert!(ready_for_rate(&s));
    s.buffer_level = 5;
    assert!(!ready_for_rate(&s));
    s.toggle_pause();
    assert!(ready_for_rate(&s));
    s.toggle_pause();
    s.quit();
    assert!(ready_for_rate(&s));
}
