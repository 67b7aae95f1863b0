use keet::lyrics::{time_key, LrcLine, Lyrics};
use keet::metadata::MetadataCache;
use keet::screen::{
    balance_text, banner_height, banner_heights, banner_help, banner_pieces, banner_regions,
    bar_width, buffer_percent, display_name, ext_note_color, header_lines, idle_line,
    lyrics_footer, lyrics_moment, lyrics_rows, marked_row, offset_text, place_banner_keys,
    places_inside, playlist_footer, playlist_rows, progress, progress_bar_chars, row_rect,
    status_line_back, status_line_front, stays_idle, strip_ansi, sync_playlist_scroll,
    track_number_label, visible_rows, viz_height, Moment, NoteColor, Progress,
};
use keet::state::{
    BannerHotkey, CellRect, InputMode, PlayerState, Seconds, UiState, VizMode, VizStyle,
};
use keet::track::Track;

fn ui() -> UiState {
    UiState::new(Vec::new(), false, false)
}

#[test]
fn styles_are_stripped() {
    assert_eq!(strip_ansi("\u{1b}[2m{Q}\u{1b}[0m Quit"), "{Q} Quit");
    assert_eq!(strip_ansi("a\u{1b}b"), "ab");
    assert_eq!(strip_ansi("a\u{1b}[31"), "a");
    assert_eq!(strip_ansi("plain ⏸"), "plain ⏸");
    assert_eq!(strip_ansi(""), "");
}

#[test]
fn notes_are_coloured() {
    assert_eq!(ext_note_color("mp3"), NoteColor::Green);
    assert_eq!(ext_note_color("ogg"), NoteColor::Magenta);
    assert_eq!(ext_note_color("m4a"), NoteColor::Red);
    assert_eq!(ext_note_color("aif"), NoteColor::Cyan);
    assert_eq!(ext_note_color("wav"), NoteColor::Yellow);
    assert_eq!(ext_note_color("mkv"), NoteColor::Green);
}

#[test]
fn bars_of_progress() {
    let half = Progress { num: 1, den: 2 };
    assert_eq!(progress_bar_chars(half, 4, VizStyle::Dots), "⣿⣿⣀⣀");
    assert_eq!(progress_bar_chars(half, 3, VizStyle::Dots), "⣿⣦⣀");
    assert_eq!(progress_bar_chars(half, 3, VizStyle::Bars), "█▌▏");
    assert_eq!(progress_bar_chars(half, 2, VizStyle::Bars), "█▏");
    let none = Progress { num: 0, den: 1 };
    assert_eq!(progress_bar_chars(none, 3, VizStyle::Bars), "▏▏▏");
    let all = Progress { num: 9, den: 9 };
    assert_eq!(progress_bar_chars(all, 3, VizStyle::Dots), "⣿⣿⣿");
    assert_eq!(progress_bar_chars(all, 3, VizStyle::Bars), "███");
    let big = Progress { num: u128::MAX - 1, den: u128::MAX };
    assert_eq!(progress_bar_chars(big, 2, VizStyle::Bars), "█▉");
}

#[test]
fn progress_is_at_most_one() {
    let s = |num, den| Seconds { num, den };
    assert_eq!(progress(s(30, 1), s(120, 2)), Progress { num: 60, den: 120 });
    assert_eq!(progress(s(90, 1), s(60, 1)), Progress { num: 60, den: 60 });
    assert_eq!(progress(s(5, 1), s(0, 1)), Progress { num: 0, den: 1 });
    assert_eq!(bar_width(10), 8);
    assert_eq!(bar_width(40), 16);
    assert_eq!(bar_width(200), 20);
}

#[test]
fn names_are_cut_to_their_room() {
    let label = track_number_label(3, 12);
    assert_eq!(label, "[3/12] ");
    let long = "abcdefghijklmnopqrstuvwxyz0123456789XYZ";
    let cut = display_name(long, &label, "info", 200);
    assert_eq!(cut.chars().count(), 35);
    assert!(cut.ends_with('…'));
    assert_eq!(display_name("short", &label, "info", 200), "short");
    assert_eq!(display_name("longer", &label, "info", 0), "lon…");
}

#[test]
fn the_line_of_the_player() {
    let mut s = PlayerState::new();
    s.samples_played = 44100 * 61;
    s.total_samples = 44100 * 122;
    let front = status_line_front(&s, true, false, 4, "Flat", "None", "Off");
    assert_eq!(front, " [01:01/02:02] ⣿⣿⣀⣀ shuf/once vol:100% ");
    let front = status_line_front(&s, false, true, 4, "Vocal", "Echo", "Light");
    assert_eq!(front, " [01:01/02:02] ⣿⣿⣀⣀ seq/loop vol:100% eq:Vocal fx:Echo cf:Light ");
    s.balance = -30;
    s.pre_fader = true;
    assert_eq!(
        status_line_back(&s, 42, " cpu:1.0%"),
        " BAL:L30% pre buf:42% cpu:1.0% {V}:VU {B}:Bars"
    );
    assert_eq!(balance_text(0), "");
    assert_eq!(balance_text(5), " BAL:R5%");
    assert_eq!(buffer_percent(192000), 50);
}

#[test]
fn heights_and_rows() {
    assert_eq!(banner_height(7, 40), 7);
    assert_eq!(banner_height(7, 3), 3);
    assert_eq!(banner_height(0, 3), 1);
    let h = banner_heights(8);
    assert_eq!((h.text, h.keys), (6, 2));
    let h = banner_heights(1);
    assert_eq!((h.text, h.keys), (1, 1));
    assert_eq!((header_lines(true), header_lines(false)), (3, 2));
    assert_eq!((viz_height(VizMode::Off, 9), viz_height(VizMode::VuMeter, 9)), (0, 10));
    assert_eq!(visible_rows(30, 3, 10), 15);
    assert_eq!(visible_rows(5, 3, 10), 1);
    let r = CellRect { x: 1, y: 2, w: 3, h: 2 };
    assert_eq!(row_rect(r, 1), CellRect { x: 1, y: 3, w: 3, h: 1 });
    assert_eq!(row_rect(r, 2), CellRect { x: 1, y: 4, w: 3, h: 0 });
}

#[test]
fn the_cursor_is_seen() {
    let mut u = ui();
    u.cursor = 50;
    sync_playlist_scroll(&mut u, 100, 10);
    assert_eq!(u.scroll_offset, 45);
    u.cursor = 46;
    sync_playlist_scroll(&mut u, 100, 10);
    assert_eq!(u.scroll_offset, 42);
    u.cursor = 99;
    sync_playlist_scroll(&mut u, 100, 10);
    assert_eq!(u.scroll_offset, 90);
    u.cursor = 0;
    sync_playlist_scroll(&mut u, 100, 10);
    assert_eq!(u.scroll_offset, 0);
}

#[test]
fn rows_of_the_list() {
    let list: Vec<Track> =
        ["d/a.mp3", "d/b.mp3", "d/c.mp3"].iter().map(|p| Track::new(p.to_string())).collect();
    let cache = MetadataCache::new(3);
    let mut u = ui();
    u.current = 1;
    u.cursor = 2;
    u.scroll_offset = 1;
    let rows = playlist_rows(&u, &cache, &list, 5).unwrap();
    assert_eq!(rows.len(), 2);
    assert_eq!((rows[0].number.as_str(), rows[0].name.as_str()), ("   2", "b.mp3"));
    assert!(rows[0].playing && !rows[0].cursor);
    assert!(!rows[1].playing && rows[1].cursor);
    assert_eq!(marked_row(&u, 2), Some(1));
    assert_eq!(marked_row(&u, 1), None);
    u.input_mode = InputMode::Search("zzz".to_string());
    assert!(playlist_rows(&u, &cache, &list, 5).is_none());
    u.filtered_indices = vec![2];
    u.scroll_offset = 0;
    assert!(places_inside(&u, 3) && !places_inside(&u, 2));
    let rows = playlist_rows(&u, &cache, &list, 5).unwrap();
    assert_eq!(rows[0].name, "c.mp3");
}

#[test]
fn footers() {
    let mut u = ui();
    assert_eq!(
        playlist_footer(&u, None),
        "[L] close  [↑↓] scroll  [Enter] play  [/] search  [D] remove  [S] save"
    );
    assert_eq!(playlist_footer(&u, Some("hi")), "hi");
    u.input_mode = InputMode::Search("q".to_string());
    assert_eq!(playlist_footer(&u, Some("hi")), "/ q_");
    u.input_mode = InputMode::SavePlaylist("n".to_string());
    assert_eq!(playlist_footer(&u, None), "Save playlist as: n_");
    assert_eq!(lyrics_footer(&u), "[Y] close  [W/S] scroll");
    u.lyrics = Some(Lyrics::Synced(Vec::new()));
    assert_eq!(lyrics_footer(&u), "[Y] close  [W/S] scroll  [A/D] sync");
    u.lyrics_offset = -3;
    assert_eq!(lyrics_footer(&u), "[Y] close  [W/S] scroll  [A/D] sync  offset:-1.5s");
    assert_eq!(offset_text(1), "+0.5");
    assert_eq!(offset_text(-1), "-0.5");
    assert_eq!(offset_text(4), "+2.0");
}

#[test]
fn lyrics_follow_the_music() {
    let line = |n: i32| LrcLine {
        time: time_key((n as f64 * 10.0).to_bits()),
        text: format!("line {n}"),
    };
    let mut u = ui();
    assert!(lyrics_rows(&mut u, 0, 3).is_none());
    u.lyrics = Some(Lyrics::Synced((0..9).map(line).collect()));
    let rows = lyrics_rows(&mut u, time_key(50.0f64.to_bits()), 3).unwrap();
    assert_eq!(u.lyrics_scroll, 4);
    assert_eq!(rows[1].text, "  line 5");
    assert!(rows[1].current && !rows[0].current);
    u.lyrics_auto_scroll = false;
    u.lyrics_scroll = 8;
    let rows = lyrics_rows(&mut u, time_key(0.0f64.to_bits()), 3).unwrap();
    assert_eq!(u.lyrics_scroll, 6);
    assert_eq!(rows[2].text, "  line 8");
    u.lyrics = Some(Lyrics::Plain(vec!["only".to_string()]));
    let rows = lyrics_rows(&mut u, 0, 2).unwrap();
    assert_eq!((u.lyrics_scroll, rows[0].text.as_str(), rows[1].text.as_str()), (0, "  only", ""));
}

#[test]
fn an_offset_delays_the_lyrics() {
    let mut u = ui();
    let at = Seconds { num: 10 * 44100, den: 44100 };
    let moment = |below_zero, num| Moment { below_zero, num, den: 88200 };
    assert_eq!(lyrics_moment(&u, at), moment(false, 882_000));
    u.lyrics_offset = 3;
    assert_eq!(lyrics_moment(&u, at), moment(false, 749_700));
    u.lyrics_offset = -1;
    assert_eq!(lyrics_moment(&u, at), moment(false, 926_100));
    u.lyrics_offset = 21;
    assert_eq!(lyrics_moment(&u, at), moment(true, 44_100));
    u.lyrics_offset = i64::MIN;
    let far = Seconds { num: u64::MAX, den: u64::MAX };
    assert_eq!(
        lyrics_moment(&u, far).num,
        2 * u64::MAX as u128 + (1u128 << 63) * u64::MAX as u128
    );
}

#[test]
fn the_banner_has_keys() {
    let pieces = banner_pieces();
    assert_eq!(pieces.len(), 25);
    assert_eq!(pieces[0].text, " E ");
    let regions = banner_regions(&pieces, 1, 7);
    assert_eq!(regions.len(), 13);
    assert_eq!(regions[0], (CellRect { x: 1, y: 7, w: 3, h: 1 }, BannerHotkey::Eq));
    assert_eq!(regions[1], (CellRect { x: 9, y: 7, w: 3, h: 1 }, BannerHotkey::Fx));
    assert_eq!(regions[12].1, BannerHotkey::LoopToggle);
    assert!(banner_help().contains("{Q} Quit"));
}

#[test]
fn idle_players() {
    assert_eq!(
        idle_line(false, true, "Flat", "None", "Off"),
        "seq/loop  ·  eq:Flat  ·  fx:None  ·  cf:Off"
    );
    let mut s = PlayerState::new();
    let mut u = ui();
    assert!(!stays_idle(&s, &u));
    u.session_idle = true;
    assert!(stays_idle(&s, &u));
    s.quit();
    assert!(!stays_idle(&s, &u));
}

#[test]
fn the_keys_of_the_banner_are_placed() {
    let mut u = ui();
    place_banner_keys(&mut u, 1, 6, 80, 2);
    assert_eq!(u.banner_hotkey_regions, banner_regions(&banner_pieces(), 1, 7));
    place_banner_keys(&mut u, 4, 0, 80, 2);
    assert_eq!(u.banner_hotkey_regions[0].0, CellRect { x: 4, y: 1, w: 3, h: 1 });
    place_banner_keys(&mut u, 1, 6, 80, 1);
    assert!(u.banner_hotkey_regions.is_empty());
    place_banner_keys(&mut u, 1, 6, 80, 2);
    place_banner_keys(&mut u, 1, 6, 0, 2);
    assert!(u.banner_hotkey_regions.is_empty());
}
