//! Keys and clicks: what they do to the player and to the interface.
use vstd::prelude::*;

use crate::metadata::{entry_at, is_name_text, name_or_empty, reindexed, CachedMeta, MetadataCache};
use crate::playlist::{
    dedup_tracks, first_of_each, found_in, has_text, is_place_of, is_rescan, known_lists,
    known_of_sources, law_unchanged_sources, lemma_distinct_kept, may_stand_at, paths_of, place_of,
    rescan_sources, some_failed, stands_at, tells_apart, track_paths,
};
use crate::state::{
    law_controls_stay_in_range, BannerHotkey, CellRect, InputMode, InputView, PlayerState, UiState,
    UiView, ViewMode,
};
use crate::text::{
    decimal, decimal_text, holds, law_digits_stand_for_the_number, lowercased, number_of, pad_left,
    padded, texts, trim, trimmed,
};
use crate::track::{file_name_of, may_be_named, text_view, Track};

verus! {

/// A key.
#[derive(Clone, Copy, Debug, PartialEq, Eq, Structural)]
pub enum Key {
    Char(char),
    Enter,
    Esc,
    Backspace,
    Delete,
    Up,
    Down,
    Left,
    Right,
    Other,
}

/// What came from the terminal. Of keys `press` tells a press from a release and
/// `control` whether the control key, and no other, was held.
#[derive(Clone, Copy, Debug, PartialEq, Eq, Structural)]
pub enum InputEvent {
    Resize,
    Mouse { left_down: bool, col: u16, row: u16 },
    Key { press: bool, key: Key, control: bool },
    Other,
}

/// What is left to be done for an event outside the library.
pub enum UiAction {
    /// Ask for a path to open.
    AskPath,
    /// Let a folder be picked.
    PickPath,
    /// Scan the sources again.
    Rescan,
    /// Remove the track at this place.
    Remove(usize),
    /// Save the playlist under this name.
    Save(String),
}

/// What is left to be done, with texts as characters.
pub ghost enum ActionView {
    AskPath,
    PickPath,
    Rescan,
    Remove(usize),
    Save(Seq<char>),
}

impl View for UiAction {
    type V = ActionView;

    open spec fn view(&self) -> ActionView {
        match self {
            UiAction::AskPath => ActionView::AskPath,
            UiAction::PickPath => ActionView::PickPath,
            UiAction::Rescan => ActionView::Rescan,
            UiAction::Remove(i) => ActionView::Remove(*i),
            UiAction::Save(name) => ActionView::Save(name@),
        }
    }
}

/// Whether more events are read, or reading ends, with the program or without.
#[derive(Clone, Copy, Debug, PartialEq, Eq, Structural)]
pub enum Flow {
    More,
    Stop { quit: bool },
}

/// What an event leads to.
pub struct Outcome {
    pub action: Option<UiAction>,
    pub flow: Flow,
}

/// What an event leads to, with the player and the interface after it.
#[verifier::ext_equal]
pub ghost struct Handled {
    pub state: PlayerState,
    pub ui: UiView,
    pub action: Option<ActionView>,
    pub flow: Flow,
}

/// The view of an action that may be missing.
pub open spec fn action_view(a: Option<UiAction>) -> Option<ActionView> {
    match a {
        Some(a) => Some(a@),
        None => None,
    }
}

/// A state whose controls can be stepped: none stands at the end of its machine
/// type.
pub open spec fn steerable(s: PlayerState) -> bool {
    &&& s.volume <= u32::MAX - 5
    &&& i32::MIN + 5 <= s.balance <= i32::MAX - 5
    &&& s.eq_preset_index < usize::MAX
    &&& s.effects_preset_index < usize::MAX
    &&& s.crossfeed_preset_index < usize::MAX
}

/// The list scrolled so that the cursor is not above it.
pub open spec fn cursor_shown(u: UiView) -> UiView {
    UiView {
        scroll_offset: if u.cursor < u.scroll_offset {
            u.cursor
        } else {
            u.scroll_offset
        },
        ..u
    }
}

/// The cursor one line up.
pub open spec fn cursor_up(u: UiView) -> UiView {
    if u.cursor > 0 {
        cursor_shown(UiView { cursor: (u.cursor - 1) as usize, ..u })
    } else {
        u
    }
}

/// The number of lines that the cursor can stand on: those that a search found,
/// or the whole playlist.
pub open spec fn lines_listed(u: UiView, len: nat) -> nat {
    if u.filtered.len() == 0 {
        len
    } else {
        u.filtered.len()
    }
}

/// The cursor one line down.
pub open spec fn cursor_down(u: UiView, len: nat) -> UiView {
    if u.cursor + 1 < lines_listed(u, len) {
        UiView { cursor: (u.cursor + 1) as usize, ..u }
    } else {
        u
    }
}

/// The track under the cursor: `other` where the cursor is below what a search
/// found.
pub open spec fn under_cursor(u: UiView, other: usize) -> usize {
    if u.filtered.len() == 0 {
        u.cursor
    } else if u.cursor < u.filtered.len() {
        u.filtered[u.cursor as int]
    } else {
        other
    }
}

fn ensure_cursor_visible(ui: &mut UiState)
    ensures
        final(ui)@ == cursor_shown(old(ui)@),
{
    if ui.cursor < ui.scroll_offset {
        ui.scroll_offset = ui.cursor;
    }
}

/// Moves the cursor of the list up.
pub fn playlist_cursor_up(ui: &mut UiState)
    ensures
        final(ui)@ == cursor_up(old(ui)@),
{
    if ui.cursor > 0 {
        ui.cursor = ui.cursor - 1;
        ensure_cursor_visible(ui);
    }
}

/// Moves the cursor of the list down.
pub fn playlist_cursor_down(ui: &mut UiState, len: usize)
    ensures
        final(ui)@ == cursor_down(old(ui)@, len as nat),
{
    let n = if ui.filtered_indices.len() == 0 {
        len
    } else {
        ui.filtered_indices.len()
    };
    if n > 0 && ui.cursor < n - 1 {
        ui.cursor = ui.cursor + 1;
    }
}

fn cursor_track(ui: &UiState, other: usize) -> (r: usize)
    ensures
        r == under_cursor(ui@, other),
{
    if ui.filtered_indices.len() == 0 {
        ui.cursor
    } else if ui.cursor < ui.filtered_indices.len() {
        ui.filtered_indices[ui.cursor]
    } else {
        other
    }
}

/// What a key of the banner does to the player.
pub open spec fn hotkey_state(s: PlayerState, hk: BannerHotkey) -> PlayerState {
    match hk {
        BannerHotkey::Eq => s.after_cycle_eq(),
        BannerHotkey::Fx => s.after_cycle_effects(),
        BannerHotkey::Crossfeed => s.after_cycle_crossfeed(),
        BannerHotkey::Fader => s.after_toggle_pre_fader(),
        BannerHotkey::VizMode => s.after_cycle_viz_mode(),
        BannerHotkey::VizStyle => s.after_toggle_viz_style(),
        BannerHotkey::Info => s.after_toggle_stats(),
        _ => s,
    }
}

/// What a key of the banner does to the interface. Opening the list puts its
/// cursor on the current track, opening the lyrics lets them follow the music;
/// turning on repetition wakes a player that has reached the end.
pub open spec fn hotkey_ui(u: UiView, len: nat, hk: BannerHotkey, now: u64) -> UiView {
    match hk {
        BannerHotkey::List => if u.view_mode is Playlist {
            UiView { view_mode: ViewMode::Player, ..u }
        } else {
            UiView {
                view_mode: ViewMode::Playlist,
                ..cursor_shown(UiView { cursor: u.current, ..u })
            }
        },
        BannerHotkey::Lyrics => if u.view_mode is Lyrics {
            UiView { view_mode: ViewMode::Player, ..u }
        } else {
            UiView {
                view_mode: ViewMode::Lyrics,
                lyrics_scroll: 0,
                lyrics_auto_scroll: true,
                ..u
            }
        },
        BannerHotkey::Shuffle => (UiView {
            shuffle: !u.shuffle,
            pending_resume_save: true,
            ..u
        }).with_status(
            if !u.shuffle {
                "随机播放：开（再次列表循环时重排）"@
            } else {
                "随机播放：关"@
            },
            now,
        ),
        BannerHotkey::LoopToggle => {
            let wakes = u.session_idle && !u.repeat && len > 0;
            (UiView {
                repeat: !u.repeat,
                pending_resume_save: true,
                current: if wakes {
                    0
                } else {
                    u.current
                },
                session_idle: u.session_idle && !wakes,
                ..u
            }).with_status(
                if !u.repeat {
                    "列表循环：开"@
                } else {
                    "列表循环：关"@
                },
                now,
            )
        },
        _ => u,
    }
}

/// What is left to be done for a key of the banner.
pub open spec fn hotkey_action(hk: BannerHotkey) -> Option<ActionView> {
    match hk {
        BannerHotkey::Open => Some(ActionView::AskPath),
        BannerHotkey::Pick => Some(ActionView::PickPath),
        _ => None,
    }
}

/// Does what a key of the banner stands for, in a playlist of this length.
pub fn apply_banner_hotkey(
    s: &mut PlayerState,
    ui: &mut UiState,
    len: usize,
    hk: BannerHotkey,
    now: u64,
) -> (r: Option<UiAction>)
    requires
        steerable(*old(s)),
    ensures
        *final(s) == hotkey_state(*old(s), hk),
        final(ui)@ == hotkey_ui(old(ui)@, len as nat, hk, now),
        action_view(r) == hotkey_action(hk),
{
    match hk {
        BannerHotkey::Eq => s.cycle_eq(),
        BannerHotkey::Fx => s.cycle_effects(),
        BannerHotkey::Crossfeed => s.cycle_crossfeed(),
        BannerHotkey::Fader => s.toggle_pre_fader(),
        BannerHotkey::VizMode => s.cycle_viz_mode(),
        BannerHotkey::VizStyle => s.toggle_viz_style(),
        BannerHotkey::Info => s.toggle_stats(),
        BannerHotkey::List => toggle_list(ui),
        BannerHotkey::Lyrics => toggle_lyrics(ui),
        BannerHotkey::Open => {
            return Some(UiAction::AskPath);
        },
        BannerHotkey::Pick => {
            return Some(UiAction::PickPath);
        },
        BannerHotkey::Shuffle => toggle_shuffle(ui, now),
        BannerHotkey::LoopToggle => toggle_repeat(ui, len, now),
    }
    None
}

fn toggle_list(ui: &mut UiState)
    ensures
        final(ui)@ == hotkey_ui(old(ui)@, 0, BannerHotkey::List, 0),
{
    if ui.view_mode == ViewMode::Playlist {
        ui.view_mode = ViewMode::Player;
    } else {
        ui.cursor = ui.current;
        ensure_cursor_visible(ui);
        ui.view_mode = ViewMode::Playlist;
    }
}

fn toggle_lyrics(ui: &mut UiState)
    ensures
        final(ui)@ == hotkey_ui(old(ui)@, 0, BannerHotkey::Lyrics, 0),
{
    if ui.view_mode == ViewMode::Lyrics {
        ui.view_mode = ViewMode::Player;
    } else {
        ui.lyrics_scroll = 0;
        ui.lyrics_auto_scroll = true;
        ui.view_mode = ViewMode::Lyrics;
    }
}

fn toggle_shuffle(ui: &mut UiState, now: u64)
    ensures
        final(ui)@ == hotkey_ui(old(ui)@, 0, BannerHotkey::Shuffle, now),
{
    ui.shuffle = !ui.shuffle;
    ui.pending_resume_save = true;
    let text = if ui.shuffle {
        "随机播放：开（再次列表循环时重排）".to_string()
    } else {
        "随机播放：关".to_string()
    };
    ui.set_status(text, now);
}

fn toggle_repeat(ui: &mut UiState, len: usize, now: u64)
    ensures
        final(ui)@ == hotkey_ui(old(ui)@, len as nat, BannerHotkey::LoopToggle, now),
{
    ui.repeat = !ui.repeat;
    ui.pending_resume_save = true;
    if ui.session_idle && ui.repeat && len > 0 {
        ui.current = 0;
        ui.session_idle = false;
    }
    let text = if ui.repeat {
        "列表循环：开".to_string()
    } else {
        "列表循环：关".to_string()
    };
    ui.set_status(text, now);
}

/// Whether a cell lies in a rectangle, whose far edges end at the largest
/// coordinate.
pub open spec fn inside(r: CellRect, col: u16, row: u16) -> bool {
    &&& r.x <= col && r.y <= row
    &&& col < (if r.x + r.w > u16::MAX {
        u16::MAX as int
    } else {
        r.x + r.w
    })
    &&& row < (if r.y + r.h > u16::MAX {
        u16::MAX as int
    } else {
        r.y + r.h
    })
}

/// The key of the first of the regions from `from` on that a cell lies in.
pub open spec fn region_at(
    regions: Seq<(CellRect, BannerHotkey)>,
    col: u16,
    row: u16,
    from: int,
) -> Option<BannerHotkey>
    decreases regions.len() - from,
{
    if from >= regions.len() {
        None
    } else if inside(regions[from].0, col, row) {
        Some(regions[from].1)
    } else {
        region_at(regions, col, row, from + 1)
    }
}

fn is_inside(r: CellRect, col: u16, row: u16) -> (b: bool)
    ensures
        b == inside(r, col, row),
{
    col >= r.x && col < r.x.saturating_add(r.w) && row >= r.y && row < r.y.saturating_add(r.h)
}

/// The key of the banner that a cell of the screen belongs to.
pub fn find_region(regions: &Vec<(CellRect, BannerHotkey)>, col: u16, row: u16) -> (r: Option<
    BannerHotkey,
>)
    ensures
        r == region_at(regions@, col, row, 0),
{
    let mut i: usize = 0;
    while i < regions.len()
        invariant
            i <= regions.len(),
            region_at(regions@, col, row, i as int) == region_at(regions@, col, row, 0),
        decreases regions.len() - i,
    {
        let (rect, hk) = regions[i];
        if is_inside(rect, col, row) {
            return Some(hk);
        }
        i = i + 1;
    }
    None
}

/// What a click does: it presses the key of the banner that it hits, while no
/// text is typed.
pub open spec fn clicked(s: PlayerState, u: UiView, len: nat, col: u16, row: u16, now: u64) -> Handled {
    let hit = if u.input is Normal {
        region_at(u.regions, col, row, 0)
    } else {
        None
    };
    match hit {
        Some(hk) => Handled {
            state: hotkey_state(s, hk),
            ui: hotkey_ui(u, len, hk, now),
            action: hotkey_action(hk),
            flow: Flow::More,
        },
        None => Handled { state: s, ui: u, action: None, flow: Flow::More },
    }
}

fn click(s: &mut PlayerState, ui: &mut UiState, len: usize, col: u16, row: u16, now: u64) -> (r: Outcome)
    requires
        steerable(*old(s)),
    ensures
        (Handled { state: *final(s), ui: final(ui)@, action: action_view(r.action), flow: r.flow })
            == clicked(*old(s), old(ui)@, len as nat, col, row, now),
{
    match &ui.input_mode {
        InputMode::Normal => {},
        _ => {
            return Outcome { action: None, flow: Flow::More };
        },
    }
    match find_region(&ui.banner_hotkey_regions, col, row) {
        Some(hk) => {
            let action = apply_banner_hotkey(s, ui, len, hk, now);
            Outcome { action, flow: Flow::More }
        },
        None => Outcome { action: None, flow: Flow::More },
    }
}

/// The interface with the offset of the lyrics moved by so many half seconds;
/// only lyrics in time have an offset to move.
pub open spec fn shifted(u: UiView, half: int) -> UiView {
    if u.lyrics matches Some(l) && l is Synced {
        UiView { lyrics_offset: (u.lyrics_offset + half) as i64, ..u }
    } else {
        u
    }
}

/// What a key does to the interface while the lyrics are shown, where it has a
/// meaning of its own there.
pub open spec fn lyrics_key(u: UiView, key: Key) -> Option<UiView> {
    match key {
        Key::Char('w') => Some(
            UiView {
                lyrics_auto_scroll: false,
                lyrics_scroll: if u.lyrics_scroll == 0 {
                    0
                } else {
                    (u.lyrics_scroll - 1) as usize
                },
                ..u
            },
        ),
        Key::Char('s') => Some(
            UiView {
                lyrics_auto_scroll: false,
                lyrics_scroll: match u.lyrics {
                    Some(l) => if u.lyrics_scroll + 1 < l.count() {
                        (u.lyrics_scroll + 1) as usize
                    } else {
                        u.lyrics_scroll
                    },
                    None => u.lyrics_scroll,
                },
                ..u
            },
        ),
        Key::Char('d') => Some(shifted(u, 1)),
        Key::Char('a') => Some(shifted(u, -1)),
        Key::Esc | Key::Char('y') => Some(UiView { view_mode: ViewMode::Player, ..u }),
        _ => None,
    }
}

/// The offset of the lyrics can be moved by another half second.
pub open spec fn offset_free(u: UiView) -> bool {
    i64::MIN < u.lyrics_offset < i64::MAX
}

/// Whether there are lyrics, and in time.
fn lyrics_in_time(ui: &UiState) -> (r: bool)
    ensures
        r == (ui@.lyrics matches Some(l) && l is Synced),
{
    match &ui.lyrics {
        Some(l) => l.is_synced(),
        None => false,
    }
}

/// Handles a key that has a meaning of its own while the lyrics are shown; tells
/// whether it has one.
fn press_in_lyrics(ui: &mut UiState, key: Key) -> (r: bool)
    requires
        offset_free(old(ui)@),
    ensures
        r == lyrics_key(old(ui)@, key) is Some,
        final(ui)@ == (match lyrics_key(old(ui)@, key) {
            Some(u) => u,
            None => old(ui)@,
        }),
{
    match key {
        Key::Char('w') => {
            ui.lyrics_auto_scroll = false;
            if ui.lyrics_scroll > 0 {
                ui.lyrics_scroll = ui.lyrics_scroll - 1;
            }
            true
        },
        Key::Char('s') => {
            ui.lyrics_auto_scroll = false;
            let n: usize = match &ui.lyrics {
                Some(l) => l.line_count(),
                None => 0,
            };
            if n > 0 && ui.lyrics_scroll < n - 1 {
                ui.lyrics_scroll = ui.lyrics_scroll + 1;
            }
            true
        },
        Key::Char('d') => {
            if lyrics_in_time(ui) {
                ui.lyrics_offset = ui.lyrics_offset + 1;
            }
            true
        },
        Key::Char('a') => {
            if lyrics_in_time(ui) {
                ui.lyrics_offset = ui.lyrics_offset - 1;
            }
            true
        },
        Key::Esc | Key::Char('y') => {
            ui.view_mode = ViewMode::Player;
            true
        },
        _ => false,
    }
}

/// What a key does while the list is shown, where it has a meaning of its own
/// there.
pub open spec fn list_key(s: PlayerState, u: UiView, len: nat, key: Key, now: u64) -> Option<Handled> {
    match key {
        Key::Up => Some(
            Handled { state: s, ui: cursor_up(u), action: None, flow: Flow::More },
        ),
        Key::Down => Some(
            Handled { state: s, ui: cursor_down(u, len), action: None, flow: Flow::More },
        ),
        Key::Enter => Some(
            Handled {
                state: s.after_jump_to(under_cursor(u, u.cursor)),
                ui: u,
                action: None,
                flow: Flow::Stop { quit: false },
            },
        ),
        Key::Char('/') => Some(
            Handled {
                state: s,
                ui: UiView { input: InputView::Search(Seq::empty()), ..u },
                action: None,
                flow: Flow::Stop { quit: false },
            },
        ),
        Key::Char('d') | Key::Delete => Some(
            Handled {
                state: s,
                ui: if len <= 1 {
                    u.with_status("Can't remove the last track"@, now)
                } else {
                    u
                },
                action: if len > 1 && under_cursor(u, usize::MAX) < len {
                    Some(ActionView::Remove(under_cursor(u, usize::MAX)))
                } else {
                    None
                },
                flow: Flow::Stop { quit: false },
            },
        ),
        Key::Esc => Some(
            Handled {
                state: s,
                ui: UiView { view_mode: ViewMode::Player, ..u },
                action: None,
                flow: Flow::Stop { quit: false },
            },
        ),
        _ => None,
    }
}

/// Handles a key that has a meaning of its own while the list is shown.
fn press_in_list(s: &mut PlayerState, ui: &mut UiState, len: usize, key: Key, now: u64) -> (r: Option<
    Outcome,
>)
    ensures
        match r {
            Some(o) => list_key(*old(s), old(ui)@, len as nat, key, now) == Some(
                Handled {
                    state: *final(s),
                    ui: final(ui)@,
                    action: action_view(o.action),
                    flow: o.flow,
                },
            ),
            None => list_key(*old(s), old(ui)@, len as nat, key, now) is None && *final(s)
                == *old(s) && final(ui)@ == old(ui)@,
        },
{
    match key {
        Key::Up => {
            playlist_cursor_up(ui);
            Some(Outcome { action: None, flow: Flow::More })
        },
        Key::Down => {
            playlist_cursor_down(ui, len);
            Some(Outcome { action: None, flow: Flow::More })
        },
        Key::Enter => {
            let target = cursor_track(ui, ui.cursor);
            s.jump_to(target);
            Some(Outcome { action: None, flow: Flow::Stop { quit: false } })
        },
        Key::Char('/') => {
            ui.input_mode = InputMode::Search(String::new());
            assert(ui.input_mode@ == InputView::Search(Seq::empty()));
            Some(Outcome { action: None, flow: Flow::Stop { quit: false } })
        },
        Key::Char('d') | Key::Delete => {
            let place = cursor_track(ui, usize::MAX);
            let action = if len > 1 && place < len {
                Some(UiAction::Remove(place))
            } else {
                None
            };
            if len <= 1 {
                ui.set_status("Can't remove the last track".to_string(), now);
            }
            Some(Outcome { action, flow: Flow::Stop { quit: false } })
        },
        Key::Esc => {
            ui.view_mode = ViewMode::Player;
            Some(Outcome { action: None, flow: Flow::Stop { quit: false } })
        },
        _ => None,
    }
}

/// The key of the banner that a key stands for.
pub open spec fn hotkey_of(key: Key) -> Option<BannerHotkey> {
    match key {
        Key::Char('v') => Some(BannerHotkey::VizMode),
        Key::Char('e') => Some(BannerHotkey::Eq),
        Key::Char('x') => Some(BannerHotkey::Fx),
        Key::Char('f') => Some(BannerHotkey::Fader),
        Key::Char('b') => Some(BannerHotkey::VizStyle),
        Key::Char('l') => Some(BannerHotkey::List),
        Key::Char('y') => Some(BannerHotkey::Lyrics),
        Key::Char('g') => Some(BannerHotkey::Shuffle),
        Key::Char('t') => Some(BannerHotkey::LoopToggle),
        Key::Char('o') => Some(BannerHotkey::Open),
        Key::Char('p') => Some(BannerHotkey::Pick),
        Key::Char('c') => Some(BannerHotkey::Crossfeed),
        Key::Char('i') => Some(BannerHotkey::Info),
        _ => None,
    }
}

fn find_hotkey(key: Key) -> (r: Option<BannerHotkey>)
    ensures
        r == hotkey_of(key),
{
    match key {
        Key::Char('v') => Some(BannerHotkey::VizMode),
        Key::Char('e') => Some(BannerHotkey::Eq),
        Key::Char('x') => Some(BannerHotkey::Fx),
        Key::Char('f') => Some(BannerHotkey::Fader),
        Key::Char('b') => Some(BannerHotkey::VizStyle),
        Key::Char('l') => Some(BannerHotkey::List),
        Key::Char('y') => Some(BannerHotkey::Lyrics),
        Key::Char('g') => Some(BannerHotkey::Shuffle),
        Key::Char('t') => Some(BannerHotkey::LoopToggle),
        Key::Char('o') => Some(BannerHotkey::Open),
        Key::Char('p') => Some(BannerHotkey::Pick),
        Key::Char('c') => Some(BannerHotkey::Crossfeed),
        Key::Char('i') => Some(BannerHotkey::Info),
        _ => None,
    }
}

/// Whether a key ends the program: `q`, escape, or `c` with the control key.
pub open spec fn is_quit_key(key: Key, control: bool) -> bool {
    key == Key::Char('q') || key is Esc || (key == Key::Char('c') && control)
}

/// What a key without a place on the banner does to the player.
pub open spec fn plain_key_state(s: PlayerState, key: Key) -> PlayerState {
    match key {
        Key::Char(' ') => s.after_toggle_pause(),
        Key::Up => s.after_next(),
        Key::Down => s.after_prev(),
        Key::Right => s.after_seek(10),
        Key::Left => s.after_seek(-10i64),
        Key::Char('+') | Key::Char('=') => s.after_volume_up(),
        Key::Char('-') => s.after_volume_down(),
        Key::Char('[') => s.after_balance_left(),
        Key::Char(']') => s.after_balance_right(),
        _ => s,
    }
}

fn press_plain(s: &mut PlayerState, key: Key)
    requires
        steerable(*old(s)),
    ensures
        *final(s) == plain_key_state(*old(s), key),
{
    match key {
        Key::Char(' ') => s.toggle_pause(),
        Key::Up => s.next(),
        Key::Down => s.prev(),
        Key::Right => s.seek(10),
        Key::Left => s.seek(-10),
        Key::Char('+') | Key::Char('=') => s.volume_up(),
        Key::Char('-') => s.volume_down(),
        Key::Char('[') => s.balance_left(),
        Key::Char(']') => s.balance_right(),
        _ => {},
    }
}

/// What a key does wherever it has no meaning of its own.
pub open spec fn global_key(
    s: PlayerState,
    u: UiView,
    len: nat,
    key: Key,
    control: bool,
    now: u64,
) -> Handled {
    if is_quit_key(key, control) {
        Handled {
            state: s.after_quit(),
            ui: u,
            action: None,
            flow: Flow::Stop { quit: true },
        }
    } else {
        match hotkey_of(key) {
            Some(hk) => Handled {
                state: hotkey_state(s, hk),
                ui: hotkey_ui(u, len, hk, now),
                action: hotkey_action(hk),
                flow: Flow::More,
            },
            None => Handled {
                state: plain_key_state(s, key),
                ui: if key == Key::Char('s') {
                    UiView { input: InputView::SavePlaylist(Seq::empty()), ..u }
                } else {
                    u
                },
                action: if key == Key::Char('r') {
                    Some(ActionView::Rescan)
                } else {
                    None
                },
                flow: Flow::More,
            },
        }
    }
}

fn press_global(
    s: &mut PlayerState,
    ui: &mut UiState,
    len: usize,
    key: Key,
    control: bool,
    now: u64,
) -> (r: Outcome)
    requires
        steerable(*old(s)),
    ensures
        (Handled { state: *final(s), ui: final(ui)@, action: action_view(r.action), flow: r.flow })
            == global_key(*old(s), old(ui)@, len as nat, key, control, now),
{
    let quits = match key {
        Key::Char('q') | Key::Esc => true,
        Key::Char('c') => control,
        _ => false,
    };
    if quits {
        s.quit();
        return Outcome { action: None, flow: Flow::Stop { quit: true } };
    }
    match find_hotkey(key) {
        Some(hk) => {
            let action = apply_banner_hotkey(s, ui, len, hk, now);
            return Outcome { action, flow: Flow::More };
        },
        None => {},
    }
    press_plain(s, key);
    match key {
        Key::Char('s') => {
            ui.input_mode = InputMode::SavePlaylist(String::new());
            assert(ui.input_mode@ == InputView::SavePlaylist(Seq::empty()));
            Outcome { action: None, flow: Flow::More }
        },
        Key::Char('r') => Outcome { action: Some(UiAction::Rescan), flow: Flow::More },
        _ => Outcome { action: None, flow: Flow::More },
    }
}

/// Whether a search in small letters finds a track of which nothing is known: by
/// the file name in its path.
pub open spec fn found_by_path(path: Seq<char>, query: Seq<char>, found: bool) -> bool {
    exists|name: Seq<char>| #[trigger]
        is_name_text(path, name) && found == holds(lowercased(name), query)
}

/// Whether `found` tells which tracks a search in small letters finds.
pub open spec fn found_for(
    entries: Seq<Option<CachedMeta>>,
    paths: Seq<Seq<char>>,
    query: Seq<char>,
    found: Seq<bool>,
) -> bool {
    &&& found.len() == paths.len()
    &&& query.len() > 0 ==> forall|i: int|
        0 <= i < paths.len() ==> match entry_at(entries, i) {
            Some(m) => #[trigger] found[i] == holds(m.search_text@, query),
            None => found_by_path(paths[i], query, found[i]),
        }
}

/// Which tracks a search finds where slashes alone separate.
spec fn found_by_name(
    entries: Seq<Option<CachedMeta>>,
    paths: Seq<Seq<char>>,
    query: Seq<char>,
) -> Seq<bool> {
    Seq::new(
        paths.len(),
        |i: int|
            match entry_at(entries, i) {
                Some(m) => holds(m.search_text@, query),
                None => holds(lowercased(name_or_empty(paths[i])), query),
            },
    )
}

proof fn lemma_found_by_name(
    entries: Seq<Option<CachedMeta>>,
    paths: Seq<Seq<char>>,
    query: Seq<char>,
)
    ensures
        found_for(entries, paths, query, found_by_name(entries, paths, query)),
{
    let found = found_by_name(entries, paths, query);
    assert forall|i: int| 0 <= i < paths.len() && entry_at(entries, i) is None implies found_by_path(
        paths[i],
        query,
        #[trigger] found[i],
    ) by {
        assert(may_be_named(paths[i], file_name_of(paths[i])));
        assert(is_name_text(paths[i], name_or_empty(paths[i])));
    }
}

/// Which tracks a search in small letters finds.
pub fn search_tracks(cache: &MetadataCache, playlist: &Vec<Track>, query: &str) -> (r: Vec<bool>)
    ensures
        found_for(cache.entries@, paths_of(playlist@), query@, r@),
{
    let mut found: Vec<bool> = Vec::new();
    let ghost paths = paths_of(playlist@);
    let mut i: usize = 0;
    while i < playlist.len()
        invariant
            paths == paths_of(playlist@),
            i <= playlist.len(),
            found.len() == i,
            query@.len() > 0 ==> forall|k: int|
                0 <= k < i ==> match entry_at(cache.entries@, k) {
                    Some(m) => #[trigger] found@[k] == holds(m.search_text@, query@),
                    None => found_by_path(paths[k], query@, found@[k]),
                },
        decreases playlist.len() - i,
    {
        assert(paths[i as int] == playlist@[i as int].path@);
        found.push(cache.search_matches(i, playlist[i].path.as_str(), query));
        i = i + 1;
    }
    found
}

/// The places among the first `n` that were found.
pub open spec fn places_found(found: Seq<bool>, n: int) -> Seq<usize>
    decreases n,
{
    if n <= 0 {
        Seq::empty()
    } else if found[n - 1] {
        places_found(found, n - 1).push((n - 1) as usize)
    } else {
        places_found(found, n - 1)
    }
}

fn collect_places(found: &Vec<bool>) -> (r: Vec<usize>)
    ensures
        r@ == places_found(found@, found.len() as int),
{
    let mut out: Vec<usize> = Vec::new();
    let mut i: usize = 0;
    while i < found.len()
        invariant
            i <= found.len(),
            out@ == places_found(found@, i as int),
        decreases found.len() - i,
    {
        if found[i] {
            out.push(i);
        }
        i = i + 1;
    }
    out
}

/// The list after a search: an empty one shows the whole playlist; nothing
/// changes where no search is typed.
pub open spec fn filtered_by(u: UiView, found: Seq<bool>) -> UiView {
    match u.input {
        InputView::Search(q) => UiView {
            filtered: if lowercased(q).len() == 0 {
                Seq::empty()
            } else {
                places_found(found, found.len() as int)
            },
            cursor: 0,
            scroll_offset: 0,
            ..u
        },
        _ => u,
    }
}

/// What is searched for, in small letters.
pub open spec fn query_of(u: UiView) -> Seq<char> {
    match u.input {
        InputView::Search(q) => lowercased(q),
        _ => Seq::empty(),
    }
}

/// Searches again for what is typed.
pub fn rebuild_filter(ui: &mut UiState, cache: &MetadataCache, playlist: &Vec<Track>)
    ensures
        exists|found: Seq<bool>|
            found_for(cache.entries@, paths_of(playlist@), query_of(old(ui)@), found)
                && #[trigger] filtered_by(old(ui)@, found) == final(ui)@,
{
    let query = match &ui.input_mode {
        InputMode::Search(q) => q.as_str().to_lowercase(),
        _ => {
            proof {
                let found = found_by_name(
                    cache.entries@,
                    paths_of(playlist@),
                    query_of(ui@),
                );
                lemma_found_by_name(cache.entries@, paths_of(playlist@), query_of(ui@));
                assert(filtered_by(ui@, found) == ui@);
            }
            return ;
        },
    };
    let found = search_tracks(cache, playlist, query.as_str());
    ui.cursor = 0;
    ui.scroll_offset = 0;
    if query.as_str().is_empty() {
        ui.filtered_indices = Vec::new();
    } else {
        ui.filtered_indices = collect_places(&found);
    }
    assert(filtered_by(old(ui)@, found@) =~= ui@);
}

/// The interface when a search is over: the list is whole again.
pub open spec fn search_over(u: UiView) -> UiView {
    UiView {
        input: InputView::Normal,
        filtered: Seq::empty(),
        cursor: 0,
        scroll_offset: 0,
        ..u
    }
}

/// The interface with what is typed after a key.
pub open spec fn typed(u: UiView, key: Key) -> UiView {
    match (u.input, key) {
        (InputView::Search(q), Key::Backspace) => UiView {
            input: InputView::Search(shortened(q)),
            ..u
        },
        (InputView::Search(q), Key::Char(c)) => UiView {
            input: InputView::Search(q.push(c)),
            ..u
        },
        (InputView::SavePlaylist(n), Key::Backspace) => UiView {
            input: InputView::SavePlaylist(shortened(n)),
            ..u
        },
        (InputView::SavePlaylist(n), Key::Char(c)) => UiView {
            input: InputView::SavePlaylist(n.push(c)),
            ..u
        },
        _ => u,
    }
}

/// A text without its last character, if it has one.
pub open spec fn shortened(s: Seq<char>) -> Seq<char> {
    if s.len() == 0 {
        s
    } else {
        s.drop_last()
    }
}

/// What a key does while a text is typed: letters go into it; enter jumps to the
/// track that a search found, or saves the playlist under a name that is not
/// empty; escape ends it.
pub open spec fn text_key(s: PlayerState, u: UiView, len: nat, key: Key, found: Seq<bool>) -> Handled {
    let flow = Flow::Stop { quit: false };
    let same = Handled { state: s, ui: u, action: None, flow };
    match u.input {
        InputView::Search(_) => match key {
            Key::Esc => Handled { ui: search_over(u), ..same },
            Key::Enter => Handled {
                state: s.after_jump_to(under_cursor(u, 0)),
                ui: search_over(u),
                ..same
            },
            Key::Backspace | Key::Char(_) => Handled {
                ui: filtered_by(typed(u, key), found),
                ..same
            },
            Key::Up => Handled { ui: cursor_up(u), ..same },
            Key::Down => Handled { ui: cursor_down(u, len), ..same },
            _ => same,
        },
        InputView::SavePlaylist(name) => match key {
            Key::Esc => Handled { ui: UiView { input: InputView::Normal, ..u }, ..same },
            Key::Enter => Handled {
                ui: UiView { input: InputView::Normal, ..u },
                action: if name.len() > 0 {
                    Some(ActionView::Save(name))
                } else {
                    None
                },
                ..same
            },
            Key::Backspace | Key::Char(_) => Handled { ui: typed(u, key), ..same },
            _ => same,
        },
        InputView::Normal => same,
    }
}

fn end_search(ui: &mut UiState)
    ensures
        final(ui)@ == search_over(old(ui)@),
{
    ui.input_mode = InputMode::Normal;
    ui.filtered_indices = Vec::new();
    ui.cursor = 0;
    ui.scroll_offset = 0;
    assert(ui@ =~= search_over(old(ui)@));
}

/// Puts a key into the text that is typed.
fn type_key(ui: &mut UiState, key: Key)
    ensures
        final(ui)@ == typed(old(ui)@, key),
{
    let mut mode = InputMode::Normal;
    std::mem::swap(&mut mode, &mut ui.input_mode);
    match mode {
        InputMode::Search(q) => {
            let mut q = q;
            edit_text(&mut q, key);
            ui.input_mode = InputMode::Search(q);
        },
        InputMode::SavePlaylist(n) => {
            let mut n = n;
            edit_text(&mut n, key);
            ui.input_mode = InputMode::SavePlaylist(n);
        },
        InputMode::Normal => {},
    }
    assert(ui@ =~= typed(old(ui)@, key));
}

fn edit_text(text: &mut String, key: Key)
    ensures
        final(text)@ == (match key {
            Key::Backspace => shortened(old(text)@),
            Key::Char(c) => old(text)@.push(c),
            _ => old(text)@,
        }),
{
    match key {
        Key::Backspace => {
            let _ = text.pop();
        },
        Key::Char(c) => text.push(c),
        _ => {},
    }
}

/// Handles a key while a text is typed.
#[verifier::spinoff_prover]
pub fn handle_text_input(
    s: &mut PlayerState,
    ui: &mut UiState,
    cache: &MetadataCache,
    playlist: &Vec<Track>,
    key: Key,
) -> (r: Outcome)
    ensures
        exists|found: Seq<bool>|
            found_for(cache.entries@, paths_of(playlist@), query_of(typed(old(ui)@, key)), found)
                && #[trigger] text_key(*old(s), old(ui)@, playlist.len() as nat, key, found)
                == (Handled {
                state: *final(s),
                ui: final(ui)@,
                action: action_view(r.action),
                flow: r.flow,
            }),
{
    let ghost query = query_of(typed(ui@, key));
    let ghost mut found: Seq<bool> = found_by_name(cache.entries@, paths_of(playlist@), query);
    proof {
        lemma_found_by_name(cache.entries@, paths_of(playlist@), query);
    }
    let ghost before = ui@;
    let mut action: Option<UiAction> = None;
    let mut saving: Option<String> = None;
    let searching = match &ui.input_mode {
        InputMode::Search(_) => true,
        InputMode::SavePlaylist(name) => {
            saving = Some(name.clone());
            false
        },
        InputMode::Normal => false,
    };
    if searching {
        match key {
            Key::Esc => end_search(ui),
            Key::Enter => {
                let target = cursor_track(ui, 0);
                s.jump_to(target);
                end_search(ui);
            },
            Key::Backspace | Key::Char(_) => {
                type_key(ui, key);
                let ghost mid = ui@;
                rebuild_filter(ui, cache, playlist);
                proof {
                    found = choose|f: Seq<bool>|
                        found_for(cache.entries@, paths_of(playlist@), query_of(mid), f)
                            && #[trigger] filtered_by(mid, f) == ui@;
                }
            },
            Key::Up => playlist_cursor_up(ui),
            Key::Down => playlist_cursor_down(ui, playlist.len()),
            _ => {},
        }
    } else {
        match saving {
            Some(name) => match key {
                Key::Esc => {
                    ui.input_mode = InputMode::Normal;
                },
                Key::Enter => {
                    ui.input_mode = InputMode::Normal;
                    if !name.as_str().is_empty() {
                        action = Some(UiAction::Save(name));
                    }
                },
                Key::Backspace | Key::Char(_) => type_key(ui, key),
                _ => {},
            },
            None => {},
        }
    }
    let r = Outcome { action, flow: Flow::Stop { quit: false } };
    assert(text_key(*old(s), before, playlist.len() as nat, key, found) == (Handled {
        state: *s,
        ui: ui@,
        action: action_view(r.action),
        flow: r.flow,
    }));
    r
}

/// What a key does: it goes to the text that is typed, then to the view that is
/// shown, then to the player.
pub open spec fn pressed(
    s: PlayerState,
    u: UiView,
    len: nat,
    key: Key,
    control: bool,
    found: Seq<bool>,
    now: u64,
) -> Handled {
    if u.input !is Normal {
        text_key(s, u, len, key, found)
    } else if u.view_mode is Lyrics && lyrics_key(u, key) is Some {
        Handled { state: s, ui: lyrics_key(u, key)->0, action: None, flow: Flow::More }
    } else if u.view_mode is Playlist && list_key(s, u, len, key, now) is Some {
        list_key(s, u, len, key, now)->0
    } else {
        global_key(s, u, len, key, control, now)
    }
}

/// What an event does. Only presses of keys and of the left button count.
pub open spec fn handled(
    s: PlayerState,
    u: UiView,
    len: nat,
    event: InputEvent,
    found: Seq<bool>,
    now: u64,
) -> Handled {
    match event {
        InputEvent::Resize => Handled {
            state: s,
            ui: UiView { terminal_resized: true, ..u },
            action: None,
            flow: Flow::More,
        },
        InputEvent::Mouse { left_down: true, col, row } => clicked(s, u, len, col, row, now),
        InputEvent::Key { press: true, key, control } => pressed(
            s,
            u,
            len,
            key,
            control,
            found,
            now,
        ),
        _ => Handled { state: s, ui: u, action: None, flow: Flow::More },
    }
}

/// What is searched for after an event.
pub open spec fn query_after(u: UiView, event: InputEvent) -> Seq<char> {
    match event {
        InputEvent::Key { press: true, key, control: _ } => query_of(typed(u, key)),
        _ => Seq::empty(),
    }
}

fn press(
    s: &mut PlayerState,
    ui: &mut UiState,
    cache: &MetadataCache,
    playlist: &Vec<Track>,
    key: Key,
    control: bool,
    now: u64,
) -> (r: Outcome)
    requires
        steerable(*old(s)),
        offset_free(old(ui)@),
    ensures
        exists|found: Seq<bool>|
            found_for(cache.entries@, paths_of(playlist@), query_of(typed(old(ui)@, key)), found)
                && #[trigger] pressed(
                *old(s),
                old(ui)@,
                playlist.len() as nat,
                key,
                control,
                found,
                now,
            ) == (Handled {
                state: *final(s),
                ui: final(ui)@,
                action: action_view(r.action),
                flow: r.flow,
            }),
{
    let ghost len = playlist.len() as nat;
    let ghost query = query_of(typed(ui@, key));
    let ghost found = found_by_name(cache.entries@, paths_of(playlist@), query);
    proof {
        lemma_found_by_name(cache.entries@, paths_of(playlist@), query);
    }
    let ghost s0 = *s;
    let ghost u0 = ui@;
    let typing = match &ui.input_mode {
        InputMode::Normal => false,
        _ => true,
    };
    if typing {
        let r = handle_text_input(s, ui, cache, playlist, key);
        proof {
            let f = choose|f: Seq<bool>|
                found_for(cache.entries@, paths_of(playlist@), query, f) && #[trigger] text_key(
                    s0,
                    u0,
                    len,
                    key,
                    f,
                ) == (Handled {
                    state: *s,
                    ui: ui@,
                    action: action_view(r.action),
                    flow: r.flow,
                });
            assert(pressed(s0, u0, len, key, control, f, now) == text_key(s0, u0, len, key, f));
        }
        return r;
    }
    if ui.view_mode == ViewMode::Lyrics {
        if press_in_lyrics(ui, key) {
            let r = Outcome { action: None, flow: Flow::More };
            assert(pressed(s0, u0, len, key, control, found, now) == (Handled {
                state: *s,
                ui: ui@,
                action: action_view(r.action),
                flow: r.flow,
            }));
            return r;
        }
    }
    if ui.view_mode == ViewMode::Playlist {
        match press_in_list(s, ui, playlist.len(), key, now) {
            Some(r) => {
                assert(pressed(s0, u0, len, key, control, found, now) == (Handled {
                    state: *s,
                    ui: ui@,
                    action: action_view(r.action),
                    flow: r.flow,
                }));
                return r;
            },
            None => {},
        }
    }
    let r = press_global(s, ui, playlist.len(), key, control, now);
    assert(pressed(s0, u0, len, key, control, found, now) == (Handled {
        state: *s,
        ui: ui@,
        action: action_view(r.action),
        flow: r.flow,
    }));
    r
}

/// Handles an event from the terminal; `now` is the present millisecond.
pub fn poll_input(
    s: &mut PlayerState,
    ui: &mut UiState,
    cache: &MetadataCache,
    playlist: &Vec<Track>,
    event: InputEvent,
    now: u64,
) -> (r: Outcome)
    requires
        steerable(*old(s)),
        offset_free(old(ui)@),
    ensures
        exists|found: Seq<bool>|
            found_for(cache.entries@, paths_of(playlist@), query_after(old(ui)@, event), found)
                && #[trigger] handled(
                *old(s),
                old(ui)@,
                playlist.len() as nat,
                event,
                found,
                now,
            ) == (Handled {
                state: *final(s),
                ui: final(ui)@,
                action: action_view(r.action),
                flow: r.flow,
            }),
{
    let ghost len = playlist.len() as nat;
    let ghost s0 = *s;
    let ghost u0 = ui@;
    let ghost found = found_by_name(
        cache.entries@,
        paths_of(playlist@),
        query_after(ui@, event),
    );
    proof {
        lemma_found_by_name(cache.entries@, paths_of(playlist@), query_after(ui@, event));
    }
    match event {
        InputEvent::Resize => {
            ui.terminal_resized = true;
            let r = Outcome { action: None, flow: Flow::More };
            assert(handled(s0, u0, len, event, found, now) == (Handled {
                state: *s,
                ui: ui@,
                action: action_view(r.action),
                flow: r.flow,
            }));
            r
        },
        InputEvent::Mouse { left_down: true, col, row } => {
            let r = click(s, ui, playlist.len(), col, row, now);
            assert(handled(s0, u0, len, event, found, now) == (Handled {
                state: *s,
                ui: ui@,
                action: action_view(r.action),
                flow: r.flow,
            }));
            r
        },
        InputEvent::Key { press: true, key, control } => {
            let r = press(s, ui, cache, playlist, key, control, now);
            proof {
                let f = choose|f: Seq<bool>|
                    found_for(
                        cache.entries@,
                        paths_of(playlist@),
                        query_of(typed(u0, key)),
                        f,
                    ) && #[trigger] pressed(s0, u0, len, key, control, f, now) == (Handled {
                        state: *s,
                        ui: ui@,
                        action: action_view(r.action),
                        flow: r.flow,
                    });
                assert(handled(s0, u0, len, event, f, now) == pressed(
                    s0,
                    u0,
                    len,
                    key,
                    control,
                    f,
                    now,
                ));
            }
            r
        },
        _ => {
            let r = Outcome { action: None, flow: Flow::More };
            assert(handled(s0, u0, len, event, found, now) == (Handled {
                state: *s,
                ui: ui@,
                action: action_view(r.action),
                flow: r.flow,
            }));
            r
        },
    }
}

/// Whether a text is how a track is shown: by its tags, or by its file name where
/// nothing is known of it.
pub open spec fn shown_as(
    entries: Seq<Option<CachedMeta>>,
    index: int,
    path: Seq<char>,
    name: Seq<char>,
) -> bool {
    match entry_at(entries, index) {
        Some(m) => name == m.display@,
        None => is_name_text(path, name),
    }
}

/// A list of texts with one more, unless it is there.
pub open spec fn with_text(list: Seq<Seq<char>>, text: Seq<char>) -> Seq<Seq<char>> {
    if list.contains(text) {
        list
    } else {
        list.push(text)
    }
}

/// The place of the current track when the track at `index` has left a playlist
/// of which `left` tracks remain.
pub open spec fn current_after(current: usize, index: usize, left: int) -> usize {
    if index == current {
        if current < left {
            current
        } else if left == 0 {
            0
        } else {
            (left - 1) as usize
        }
    } else if index < current {
        (current - 1) as usize
    } else {
        current
    }
}

/// The cursor on the last line at most.
pub open spec fn cursor_held(u: UiView, len: nat) -> UiView {
    let n = lines_listed(u, len);
    UiView {
        cursor: if u.cursor < n {
            u.cursor
        } else if n == 0 {
            0
        } else {
            (n - 1) as usize
        },
        ..u
    }
}

/// The interface when the track at `index` has left the playlist: `key` tells
/// that it is not to come back.
pub open spec fn removed_ui(
    u: UiView,
    left: nat,
    index: usize,
    key: Seq<char>,
    name: Seq<char>,
    found: Seq<bool>,
    now: u64,
) -> UiView {
    let u1 = UiView {
        removed: with_text(u.removed, key),
        current: current_after(u.current, index, left as int),
        current_track_removed: u.current_track_removed || index == u.current,
        playlist_dirty: true,
        ..u
    };
    let u2 = if u1.filtered.len() > 0 {
        filtered_by(u1, found)
    } else {
        u1
    };
    cursor_held(u2, left).with_status("Removed: "@ + name, now)
}

/// The player when a track has left the playlist: the current one is skipped.
pub open spec fn removed_state(s: PlayerState, left: usize, current: usize, skips: bool) -> PlayerState {
    let t = if skips {
        s.after_next()
    } else {
        s
    };
    PlayerState { total_tracks: left, current_track: current, ..t }
}

fn note_tracks(s: &mut PlayerState, total: usize, current: usize)
    ensures
        *final(s) == (PlayerState { total_tracks: total, current_track: current, ..*old(s) }),
{
    s.total_tracks = total;
    s.current_track = current;
}

fn hold_cursor(ui: &mut UiState, len: usize)
    ensures
        final(ui)@ == cursor_held(old(ui)@, len as nat),
{
    let n = if ui.filtered_indices.len() == 0 {
        len
    } else {
        ui.filtered_indices.len()
    };
    if ui.cursor >= n {
        ui.cursor = if n == 0 {
            0
        } else {
            n - 1
        };
    }
}

fn forget_path(ui: &mut UiState, key: String)
    ensures
        final(ui)@ == (UiView { removed: with_text(old(ui)@.removed, key@), ..old(ui)@ }),
{
    if !has_text(&ui.removed_paths, &key) {
        let ghost before = texts(ui.removed_paths@);
        ui.removed_paths.push(key);
        assert(texts(ui.removed_paths@) =~= before.push(key@));
    }
    assert(ui@ =~= (UiView { removed: with_text(old(ui)@.removed, key@), ..old(ui)@ }));
}

/// Finds the current track again when the track at `index` has left.
fn move_current(ui: &mut UiState, index: usize, left: usize)
    ensures
        final(ui)@ == (UiView {
            current: current_after(old(ui)@.current, index, left as int),
            current_track_removed: old(ui)@.current_track_removed || index == old(ui)@.current,
            playlist_dirty: true,
            ..old(ui)@
        }),
{
    let current = ui.current;
    if index == current {
        ui.current_track_removed = true;
    }
    ui.current = if index == current {
        if current < left {
            current
        } else if left == 0 {
            0
        } else {
            left - 1
        }
    } else if index < current {
        current - 1
    } else {
        current
    };
    ui.playlist_dirty = true;
}

fn skip_current(s: &mut PlayerState, left: usize, current: usize, skips: bool)
    ensures
        *final(s) == removed_state(*old(s), left, current, skips),
{
    if skips {
        s.next();
    }
    note_tracks(s, left, current);
}

/// Removes the track at `index` from the playlist. `key` is the path that its
/// file system knows it by.
pub fn remove_track(
    s: &mut PlayerState,
    ui: &mut UiState,
    cache: &mut MetadataCache,
    playlist: &mut Vec<Track>,
    index: usize,
    key: String,
    now: u64,
)
    requires
        index < old(playlist).len(),
    ensures
        final(playlist)@ == old(playlist)@.remove(index as int),
        final(cache).cancel == old(cache).cancel,
        final(cache).entries@ == if index < old(cache).entries.len() {
            old(cache).entries@.remove(index as int)
        } else {
            old(cache).entries@
        },
        *final(s) == removed_state(
            *old(s),
            final(playlist).len(),
            final(ui)@.current,
            index == old(ui)@.current,
        ),
        exists|name: Seq<char>, found: Seq<bool>| #[trigger]
            shown_as(
                old(cache).entries@,
                index as int,
                old(playlist)@[index as int].path@,
                name,
            ) && #[trigger] found_for(
                final(cache).entries@,
                paths_of(final(playlist)@),
                query_of(old(ui)@),
                found,
            ) && final(ui)@ == removed_ui(
                old(ui)@,
                final(playlist)@.len(),
                index,
                key@,
                name,
                found,
                now,
            ),
{
    let ghost u0 = ui@;
    let ghost entries0 = cache.entries@;
    let ghost path0 = playlist@[index as int].path@;
    let name = cache.display_name(index, playlist[index].path.as_str());
    forget_path(ui, key);
    let _ = playlist.remove(index);
    cache.remove_at(index);
    let left = playlist.len();
    let skips = index == ui.current;
    move_current(ui, index, left);
    skip_current(s, left, ui.current, skips);
    let ghost u1 = ui@;
    let ghost mut found: Seq<bool> = found_by_name(
        cache.entries@,
        paths_of(playlist@),
        query_of(u0),
    );
    proof {
        lemma_found_by_name(cache.entries@, paths_of(playlist@), query_of(u0));
    }
    if ui.filtered_indices.len() > 0 {
        rebuild_filter(ui, cache, playlist);
        proof {
            found = choose|f: Seq<bool>|
                found_for(cache.entries@, paths_of(playlist@), query_of(u1), f)
                    && #[trigger] filtered_by(u1, f) == ui@;
        }
    }
    hold_cursor(ui, left);
    let mut text = "Removed: ".to_string();
    text.append(name.as_str());
    ui.set_status(text, now);
    proof {
        assert(shown_as(entries0, index as int, path0, name@));
        assert(found_for(cache.entries@, paths_of(playlist@), query_of(u0), found));
        assert(ui@ == removed_ui(u0, playlist@.len(), index, key@, name@, found, now));
    }
}

/// What was found at a path that is to be opened: nothing, something that cannot
/// be read and why, or tracks with the paths that their file systems know them
/// by.
pub enum Opened {
    Missing,
    Unreadable(String),
    Tracks(Vec<Track>, Vec<String>),
}

/// The tracks that a path gives: of those at one place the first.
pub open spec fn opened_tracks(opened: Opened) -> Seq<Track> {
    match opened {
        Opened::Tracks(list, keys) => first_of_each(list@, texts(keys@)),
        _ => Seq::empty(),
    }
}

/// The interface when a path was opened: at the first track, or as it was, with
/// what is told.
pub open spec fn switched_ui(u: UiView, source: Seq<char>, opened: Opened, now: u64) -> UiView {
    match opened {
        Opened::Missing => u.with_status("路径不存在: "@ + source, now),
        Opened::Unreadable(why) => u.with_status(
            "无法读取: "@ + source + " ("@ + why@ + ")"@,
            now,
        ),
        Opened::Tracks(_, _) => if opened_tracks(opened).len() == 0 {
            u.with_status("目录内没有可播放音频"@, now)
        } else {
            (UiView {
                sources: seq![source],
                current: 0,
                cursor: 0,
                scroll_offset: 0,
                filtered: Seq::empty(),
                view_mode: ViewMode::Player,
                playlist_dirty: true,
                session_idle: false,
                ..u
            }).with_status("已切换目录: "@ + source, now)
        },
    }
}

/// The player at the first of so many tracks, which is asked for.
pub open spec fn switched_state(s: PlayerState, total: usize) -> PlayerState {
    (PlayerState { total_tracks: total, current_track: 0, ..s }).after_jump_to(0)
}

fn show_source(ui: &mut UiState, source: String, now: u64)
    ensures
        final(ui)@ == (UiView {
            sources: seq![source@],
            current: 0,
            cursor: 0,
            scroll_offset: 0,
            filtered: Seq::empty(),
            view_mode: ViewMode::Player,
            playlist_dirty: true,
            session_idle: false,
            ..old(ui)@
        }).with_status("已切换目录: "@ + source@, now),
{
    let mut text = "已切换目录: ".to_string();
    text.append(source.as_str());
    let mut sources: Vec<String> = Vec::new();
    sources.push(source);
    assert(texts(sources@) =~= seq![source@]);
    ui.source_paths = sources;
    ui.current = 0;
    ui.cursor = 0;
    ui.scroll_offset = 0;
    ui.filtered_indices = Vec::new();
    ui.view_mode = ViewMode::Player;
    ui.playlist_dirty = true;
    ui.session_idle = false;
    ui.set_status(text, now);
}

/// Plays what was found at a path in place of the playlist; tells whether
/// anything was. Else only what is told changes.
pub fn switch_source_paths(
    s: &mut PlayerState,
    ui: &mut UiState,
    cache: &mut MetadataCache,
    playlist: &mut Vec<Track>,
    source: String,
    opened: Opened,
    now: u64,
) -> (r: bool)
    requires
        opened matches Opened::Tracks(list, keys) ==> list.len() == keys.len(),
    ensures
        r == (opened_tracks(opened).len() > 0),
        final(ui)@ == switched_ui(old(ui)@, source@, opened, now),
        final(cache).cancel == old(cache).cancel,
        !r ==> *final(s) == *old(s) && final(playlist)@ == old(playlist)@ && final(cache).entries@
            == old(cache).entries@,
        r ==> final(playlist)@ == opened_tracks(opened),
        r ==> *final(s) == switched_state(*old(s), final(playlist).len()),
        r ==> exists|ids: Seq<usize>| #[trigger]
            tells_apart(paths_of(old(playlist)@) + paths_of(final(playlist)@), ids)
                && final(cache).entries@ == reindexed(
                old(cache).entries@,
                ids.skip(old(playlist).len() as int),
                ids.take(old(playlist).len() as int),
            ),
{
    match opened {
        Opened::Missing => {
            let mut text = "路径不存在: ".to_string();
            text.append(source.as_str());
            ui.set_status(text, now);
            false
        },
        Opened::Unreadable(why) => {
            let mut text = "无法读取: ".to_string();
            text.append(source.as_str());
            text.append(" (");
            text.append(why.as_str());
            text.append(")");
            ui.set_status(text, now);
            false
        },
        Opened::Tracks(list, keys) => {
            let fresh = dedup_tracks(&list, &keys);
            if fresh.len() == 0 {
                ui.set_status("目录内没有可播放音频".to_string(), now);
                return false;
            }
            let old_paths = track_paths(playlist);
            let new_paths = track_paths(&fresh);
            assert(old_paths.len() == texts(old_paths@).len());
            cache.reindex(&new_paths, &old_paths);
            *playlist = fresh;
            show_source(ui, source, now);
            note_tracks(s, playlist.len(), 0);
            s.jump_to(0);
            true
        },
    }
}

/// The path that was typed into a prompt; none where nothing was.
pub fn read_path_from_user(ui: &mut UiState, line: Option<&str>) -> (r: Option<String>)
    ensures
        final(ui)@ == (UiView { terminal_resized: true, ..old(ui)@ }),
        text_view(r) == (match line {
            Some(l) if trimmed(l@).len() > 0 => Some(trimmed(l@)),
            _ => None,
        }),
{
    ui.terminal_resized = true;
    match line {
        Some(l) => {
            let t = trim(l);
            if t.as_str().is_empty() {
                None
            } else {
                Some(t)
            }
        },
        None => None,
    }
}

/// The path that a dialogue printed, where the system has one; none where it was
/// left without a choice.
pub fn choose_path_with_dialog(printed: Option<&str>) -> (r: Option<String>)
    ensures
        text_view(r) == (match printed {
            Some(p) if trimmed(p@).len() > 0 => Some(trimmed(p@)),
            _ => None,
        }),
{
    match printed {
        Some(p) => {
            let t = trim(p);
            if t.as_str().is_empty() {
                None
            } else {
                Some(t)
            }
        },
        None => None,
    }
}

/// Tells that no path was given.
pub fn path_cancelled(ui: &mut UiState, now: u64)
    ensures
        final(ui)@ == old(ui)@.with_status("已取消"@, now),
{
    ui.set_status("已取消".to_string(), now);
}

/// Tells how saving a playlist of so many tracks went: the file name that it was
/// saved under, or why it was not.
pub fn playlist_saved(ui: &mut UiState, count: usize, result: Result<String, String>, now: u64)
    ensures
        final(ui)@ == old(ui)@.with_status(
            match result {
                Ok(name) => "Saved "@ + decimal(count as nat) + " tracks to "@ + name@,
                Err(why) => "Save failed: "@ + why@,
            },
            now,
        ),
{
    let mut text: String;
    match result {
        Ok(name) => {
            text = "Saved ".to_string();
            text.append(decimal_text(count as u64).as_str());
            text.append(" tracks to ");
            text.append(name.as_str());
        },
        Err(why) => {
            text = "Save failed: ".to_string();
            text.append(why.as_str());
        },
    }
    ui.set_status(text, now);
}

/// What is told of a rescan that left so many tracks.
pub open spec fn rescan_text(left: nat, had_current: bool, added: nat, removed: nat, failed: bool) -> Seq<
    char,
> {
    if left == 0 || (left == 1 && removed > 0 && had_current) {
        "All files removed, finishing current track"@
    } else if added == 0 && removed == 0 {
        if failed {
            "Rescan failed for some sources"@
        } else {
            "No changes found"@
        }
    } else {
        "+"@ + decimal(added) + " added, -"@ + decimal(removed) + " removed"@
    }
}

/// The place of the current track after a rescan: where it was found, else the
/// last place at most; unchanged where there was none.
pub open spec fn place_after_rescan(
    current: usize,
    had_current: bool,
    found: Option<usize>,
    left: nat,
) -> usize {
    if !had_current {
        current
    } else {
        match found {
            Some(i) => i,
            None => if current < left {
                current
            } else if left == 0 {
                0
            } else {
                (left - 1) as usize
            },
        }
    }
}

/// Tells how a rescan went and finds the current track again.
pub fn rescan_finished(
    s: &mut PlayerState,
    ui: &mut UiState,
    left: usize,
    had_current: bool,
    found: Option<usize>,
    added: usize,
    removed: usize,
    failed: bool,
    now: u64,
)
    ensures
        ({
            let place = place_after_rescan(old(ui)@.current, had_current, found, left as nat);
            &&& *final(s) == (PlayerState {
                total_tracks: left,
                current_track: place,
                ..*old(s)
            })
            &&& final(ui)@ == (UiView { current: place, ..old(ui)@ }).with_status(
                rescan_text(left as nat, had_current, added as nat, removed as nat, failed),
                now,
            )
        }),
{
    if had_current {
        ui.current = match found {
            Some(i) => i,
            None => if ui.current < left {
                ui.current
            } else if left == 0 {
                0
            } else {
                left - 1
            },
        };
    }
    note_tracks(s, left, ui.current);
    let mut text: String;
    if left == 0 || (left == 1 && removed > 0 && had_current) {
        text = "All files removed, finishing current track".to_string();
    } else if added == 0 && removed == 0 {
        text = if failed {
            "Rescan failed for some sources".to_string()
        } else {
            "No changes found".to_string()
        };
    } else {
        text = "+".to_string();
        text.append(decimal_text(added as u64).as_str());
        text.append(" added, -");
        text.append(decimal_text(removed as u64).as_str());
        text.append(" removed");
    }
    ui.set_status(text, now);
}

/// Takes over what fresh scans of the sources found, all together; what may be of a
/// source that could not be scanned stays. Of tracks at one place the first stays:
/// `keys_of` gives the paths that file systems know tracks by.
pub fn rescan<K: Fn(&Vec<Track>) -> Vec<String>>(
    s: &mut PlayerState,
    ui: &mut UiState,
    cache: &mut MetadataCache,
    playlist: &mut Vec<Track>,
    fresh: &Vec<Option<Vec<Track>>>,
    keys_of: K,
    now: u64,
)
    requires
        fresh.len() == old(ui)@.sources.len(),
        forall|l: &Vec<Track>| #[trigger] call_requires(keys_of, (l,)),
        forall|l: &Vec<Track>, k: Vec<String>| #[trigger]
            call_ensures(keys_of, (l,), k) ==> k.len() == l.len(),
    ensures
        exists|
            all: Vec<Track>,
            keys: Vec<String>,
            counts: (usize, usize),
            found: Option<usize>,
            ids: Seq<usize>,
        |
            {
                &&& is_full_rescan(
                    old(ui)@,
                    old(playlist)@,
                    fresh@,
                    all,
                    counts,
                    final(playlist)@,
                    keys,
                    found,
                )
                &&& #[trigger] call_ensures(keys_of, (&all,), keys)
                &&& #[trigger] full_rescan_told(
                    *old(s),
                    old(ui)@,
                    old(playlist)@,
                    fresh@,
                    counts,
                    found,
                    final(playlist)@,
                    *final(s),
                    final(ui)@,
                    now,
                )
                &&& #[trigger] tells_apart(
                    paths_of(old(playlist)@) + paths_of(final(playlist)@),
                    ids,
                )
                &&& final(cache).entries@ == reindexed(
                    old(cache).entries@,
                    ids.skip(old(playlist).len() as int),
                    ids.take(old(playlist).len() as int),
                )
            },
        final(cache).cancel == old(cache).cancel,
{
    let ghost u0 = ui@;
    let ghost before = playlist@;
    let old_paths = track_paths(playlist);
    let current: Option<String> = if ui.current < playlist.len() {
        Some(playlist[ui.current].path.clone())
    } else {
        None
    };
    let (added, removed, failed) = match &current {
        Some(c) => rescan_sources(&ui.source_paths, fresh, playlist, Some(c.as_str())),
        None => rescan_sources(&ui.source_paths, fresh, playlist, None),
    };
    let ghost cur = text_view(current);
    let ghost counts = (added, removed);
    assert(cur == current_path(u0, before));
    let ghost all = *playlist;
    let keys = keys_of(playlist);
    assert(call_ensures(keys_of, (&all,), keys));
    let kept = dedup_tracks(playlist, &keys);
    *playlist = kept;
    let found = match &current {
        Some(c) => place_of(playlist, c.as_str()),
        None => None,
    };
    assert(is_full_rescan(u0, before, fresh@, all, counts, playlist@, keys, found));
    let had_current = current.is_some();
    rescan_finished(
        s,
        ui,
        playlist.len(),
        had_current,
        found,
        added,
        removed,
        failed,
        now,
    );
    assert(full_rescan_told(
        *old(s),
        u0,
        before,
        fresh@,
        counts,
        found,
        playlist@,
        *s,
        ui@,
        now,
    ));
    let new_paths = track_paths(playlist);
    assert(old_paths.len() == texts(old_paths@).len());
    cache.reindex(&new_paths, &old_paths);
}

/// The path of the current track, where there is one.
pub open spec fn current_path(u: UiView, playlist: Seq<Track>) -> Option<Seq<char>> {
    if u.current < playlist.len() {
        Some(playlist[u.current as int].path@)
    } else {
        None
    }
}

/// What a rescan makes of a playlist: the rescan of the sources gives `all`, of
/// which the tracks at one place stay once; the current track is then at
/// `found`.
pub open spec fn is_full_rescan(
    u: UiView,
    before: Seq<Track>,
    fresh: Seq<Option<Vec<Track>>>,
    all: Vec<Track>,
    counts: (usize, usize),
    after: Seq<Track>,
    keys: Vec<String>,
    found: Option<usize>,
) -> bool {
    &&& exists|lists: Seq<bool>, n: Seq<usize>|
        known_lists(u.sources, lists) && #[trigger] is_rescan(
            known_of_sources(u.sources, lists, fresh, before),
            before,
            current_path(u, before),
            n,
            all@,
            counts,
        )
    &&& after == first_of_each(all@, texts(keys@))
    &&& match current_path(u, before) {
        Some(path) => is_place_of(after, path, found),
        None => found is None,
    }
}

/// What the player and the interface hold after a rescan.
pub open spec fn full_rescan_told(
    s: PlayerState,
    u: UiView,
    before: Seq<Track>,
    fresh: Seq<Option<Vec<Track>>>,
    counts: (usize, usize),
    found: Option<usize>,
    after: Seq<Track>,
    s_after: PlayerState,
    u_after: UiView,
    now: u64,
) -> bool {
    let had_current = current_path(u, before) is Some;
    let place = place_after_rescan(u.current, had_current, found, after.len());
    &&& s_after == (PlayerState {
        total_tracks: after.len() as usize,
        current_track: place,
        ..s
    })
    &&& u_after == (UiView { current: place, ..u }).with_status(
        rescan_text(
            after.len(),
            had_current,
            counts.0 as nat,
            counts.1 as nat,
            some_failed(fresh),
        ),
        now,
    )
}

/// A number of seconds as minutes and seconds, two digits each at least; more
/// minutes than can be counted show as the largest number.
pub open spec fn clock(secs: nat) -> Seq<char> {
    let minutes = if secs / 60 > u32::MAX {
        u32::MAX as nat
    } else {
        secs / 60
    };
    padded(decimal(minutes), 2, '0') + seq![':'] + padded(decimal(secs % 60), 2, '0')
}

/// A number of seconds as minutes and seconds.
pub fn format_time(secs: u64) -> (r: String)
    ensures
        r@ == clock(secs as nat),
{
    let minutes: u64 = if secs / 60 > u32::MAX as u64 {
        u32::MAX as u64
    } else {
        secs / 60
    };
    let mut out = pad_left(decimal_text(minutes).as_str(), 2, '0');
    out.push(':');
    out.append(pad_left(decimal_text(secs % 60).as_str(), 2, '0').as_str());
    assert(out@ =~= clock(secs as nat));
    out
}

/// A rescan of sources that hold what the playlist holds, with no file at one place
/// twice, changes nothing but what is told. The current track stays the current one
/// where none in front of it can be taken for it.
pub proof fn law_unchanged_rescan(
    s: PlayerState,
    u: UiView,
    before: Seq<Track>,
    fresh: Seq<Option<Vec<Track>>>,
    all: Vec<Track>,
    counts: (usize, usize),
    after: Seq<Track>,
    keys: Vec<String>,
    found: Option<usize>,
    s_after: PlayerState,
    u_after: UiView,
    now: u64,
)
    requires
        u.current < before.len(),
        !some_failed(fresh),
        forall|p: Seq<char>|
            paths_of(before).contains(p) <==> exists|i: int|
                0 <= i < fresh.len() && #[trigger] found_in(fresh[i], p),
        keys.len() == all.len(),
        texts(keys@).no_duplicates(),
        is_full_rescan(u, before, fresh, all, counts, after, keys, found),
        full_rescan_told(s, u, before, fresh, counts, found, after, s_after, u_after, now),
    ensures
        after == before,
        s_after.total_tracks == before.len(),
        s_after.current_track == u_after.current,
        u_after == (UiView { current: u_after.current, ..u }).with_status(
            "No changes found"@,
            now,
        ),
        u_after.current <= u.current,
        may_stand_at(before[u_after.current as int], before[u.current as int].path@),
        (forall|k: int|
            0 <= k < u.current ==> !may_stand_at(
                #[trigger] before[k],
                before[u.current as int].path@,
            )) ==> u_after.current == u.current,
{
    let path = current_path(u, before);
    let (lists, n) = choose|lists: Seq<bool>, n: Seq<usize>|
        known_lists(u.sources, lists) && #[trigger] is_rescan(
            known_of_sources(u.sources, lists, fresh, before),
            before,
            path,
            n,
            all@,
            counts,
        );
    law_unchanged_sources(u.sources, lists, fresh, before, path, n, all@, counts);
    lemma_distinct_kept(all@, texts(keys@));
    assert(stands_at(before[u.current as int], before[u.current as int].path@));
}

/// No key and no click takes the volume, the balance or a chosen preset out of
/// its range.
pub proof fn law_input_keeps_range(
    s: PlayerState,
    u: UiView,
    len: nat,
    event: InputEvent,
    found: Seq<bool>,
    now: u64,
)
    requires
        s.in_range(),
    ensures
        handled(s, u, len, event, found, now).state.in_range(),
{
    law_controls_stay_in_range(s);
    match event {
        InputEvent::Mouse { left_down: true, col, row } => {
            lemma_click_in_range(s, u, len, col, row, now);
        },
        InputEvent::Key { press: true, key, control } => {
            lemma_text_in_range(s, u, len, key, found);
            lemma_list_in_range(s, u, len, key, now);
            lemma_global_in_range(s, u, len, key, control, now);
        },
        _ => {},
    }
}

proof fn lemma_hotkey_in_range(s: PlayerState, hk: BannerHotkey)
    requires
        s.in_range(),
    ensures
        hotkey_state(s, hk).in_range(),
{
    law_controls_stay_in_range(s);
}

proof fn lemma_click_in_range(s: PlayerState, u: UiView, len: nat, col: u16, row: u16, now: u64)
    requires
        s.in_range(),
    ensures
        clicked(s, u, len, col, row, now).state.in_range(),
{
    match region_at(u.regions, col, row, 0) {
        Some(hk) => lemma_hotkey_in_range(s, hk),
        None => {},
    }
}

proof fn lemma_text_in_range(s: PlayerState, u: UiView, len: nat, key: Key, found: Seq<bool>)
    requires
        s.in_range(),
    ensures
        text_key(s, u, len, key, found).state.in_range(),
{
}

proof fn lemma_list_in_range(s: PlayerState, u: UiView, len: nat, key: Key, now: u64)
    requires
        s.in_range(),
    ensures
        list_key(s, u, len, key, now) matches Some(h) ==> h.state.in_range(),
{
}

proof fn lemma_global_in_range(
    s: PlayerState,
    u: UiView,
    len: nat,
    key: Key,
    control: bool,
    now: u64,
)
    requires
        s.in_range(),
    ensures
        global_key(s, u, len, key, control, now).state.in_range(),
{
    law_controls_stay_in_range(s);
    match hotkey_of(key) {
        Some(hk) => lemma_hotkey_in_range(s, hk),
        None => {},
    }
}

/// Whether the cursor stands on a line of the list, or at its beginning.
pub open spec fn cursor_on_list(u: UiView, len: nat) -> bool {
    u.cursor == 0 || u.cursor < lines_listed(u, len)
}

/// Moving the cursor, searching and ending a search leave it on the list.
pub proof fn law_cursor_stays_on_list(u: UiView, len: nat, found: Seq<bool>)
    requires
        cursor_on_list(u, len),
    ensures
        cursor_on_list(cursor_up(u), len),
        cursor_on_list(cursor_down(u, len), len),
        cursor_on_list(filtered_by(u, found), len),
        cursor_on_list(search_over(u), len),
        forall|n: nat| cursor_on_list(#[trigger] cursor_held(u, n), n),
{
}

/// Down and up again is where the cursor was, unless it stood on the last line.
pub proof fn law_cursor_steps_undo(u: UiView, len: nat)
    requires
        u.cursor + 1 < lines_listed(u, len),
        u.scroll_offset <= u.cursor,
        u.cursor < usize::MAX,
    ensures
        cursor_up(cursor_down(u, len)) == u,
{
}

/// What a search finds: the places are in order, inside the playlist, and they
/// are exactly those that were found.
pub proof fn law_search_places(found: Seq<bool>, n: int)
    requires
        0 <= n <= found.len() <= usize::MAX,
    ensures
        forall|k: int| 0 <= k < n && found[k] ==> places_found(found, n).contains(k as usize),
        forall|j: int|
            0 <= j < places_found(found, n).len() ==> {
                let p = #[trigger] places_found(found, n)[j];
                p < n && found[p as int]
            },
        forall|i: int, j: int|
            0 <= i < j < places_found(found, n).len() ==> #[trigger] places_found(found, n)[i]
                < #[trigger] places_found(found, n)[j],
    decreases n,
{
    if n > 0 {
        law_search_places(found, n - 1);
        let front = places_found(found, n - 1);
        let all = places_found(found, n);
        assert forall|k: int| 0 <= k < n && found[k] implies all.contains(k as usize) by {
            if k < n - 1 {
                let j = choose|j: int| 0 <= j < front.len() && front[j] == k as usize;
                assert(all[j] == k as usize);
            } else {
                assert(all[front.len() as int] == k as usize);
            }
        }
    }
}

/// When another track is removed, the current one stays the current one; when
/// it is removed itself, the next one takes its place, or the last one.
pub proof fn law_current_follows_track(playlist: Seq<Track>, current: usize, index: usize)
    requires
        playlist.len() > 1,
        playlist.len() <= usize::MAX,
        current < playlist.len(),
        index < playlist.len(),
    ensures
        ({
            let after = playlist.remove(index as int);
            let place = current_after(current, index, after.len() as int);
            &&& place < after.len()
            &&& index != current ==> after[place as int] == playlist[current as int]
            &&& index == current && current + 1 < playlist.len() ==> after[place as int]
                == playlist[current + 1]
            &&& index == current && current + 1 == playlist.len() ==> after[place as int]
                == after.last()
        }),
{
}

/// A letter that is typed and taken back leaves the text as it was.
pub proof fn law_typing_undo(u: UiView, c: char)
    ensures
        typed(typed(u, Key::Char(c)), Key::Backspace) == u,
{
    match u.input {
        InputView::Search(q) => {
            assert(q.push(c).drop_last() =~= q);
        },
        InputView::SavePlaylist(n) => {
            assert(n.push(c).drop_last() =~= n);
        },
        InputView::Normal => {},
    }
}

/// Shuffling, repeating, the list and the lyrics are switched off by the key
/// that switched them on.
pub proof fn law_hotkeys_toggle(u: UiView, len: nat, now: u64, later: u64)
    ensures
        hotkey_ui(
            hotkey_ui(u, len, BannerHotkey::Shuffle, now),
            len,
            BannerHotkey::Shuffle,
            later,
        ).shuffle == u.shuffle,
        hotkey_ui(
            hotkey_ui(u, len, BannerHotkey::LoopToggle, now),
            len,
            BannerHotkey::LoopToggle,
            later,
        ).repeat == u.repeat,
        u.view_mode is Player ==> hotkey_ui(
            hotkey_ui(u, len, BannerHotkey::List, now),
            len,
            BannerHotkey::List,
            later,
        ).view_mode is Player,
        u.view_mode is Player ==> hotkey_ui(
            hotkey_ui(u, len, BannerHotkey::Lyrics, now),
            len,
            BannerHotkey::Lyrics,
            later,
        ).view_mode is Player,
{
}

/// A click on a region of the banner does what the key of that region does.
pub proof fn law_click_is_key(
    s: PlayerState,
    u: UiView,
    len: nat,
    col: u16,
    row: u16,
    key: Key,
    now: u64,
)
    requires
        u.input is Normal,
        region_at(u.regions, col, row, 0) is Some,
        hotkey_of(key) == region_at(u.regions, col, row, 0),
    ensures
        clicked(s, u, len, col, row, now) == global_key(s, u, len, key, false, now),
{
}

/// A search finds a track whose tags hold what is searched for, wherever it stands in them, and
/// no other of which the tags are known.
pub proof fn law_search_looks_in_tags(
    entries: Seq<Option<CachedMeta>>,
    paths: Seq<Seq<char>>,
    query: Seq<char>,
    found: Seq<bool>,
    i: int,
)
    requires
        found_for(entries, paths, query, found),
        query.len() > 0,
        0 <= i < paths.len(),
        i < entries.len(),
        entries[i] is Some,
    ensures
        found[i] <==> exists|k: int|
            0 <= k && k + query.len() <= entries[i]->0.search_text@.len()
                && #[trigger] entries[i]->0.search_text@.subrange(k, k + query.len()) == query,
{
    let m = entries[i]->0;
    assert(entry_at(entries, i) == Some(m));
    assert(found[i] == holds(m.search_text@, query));
    if holds(m.search_text@, query) {
        let k = choose|k: int| crate::text::occurs_at(m.search_text@, query, k);
        assert(m.search_text@.subrange(k, k + query.len()) == query);
    }
    if exists|k: int|
        0 <= k && k + query.len() <= m.search_text@.len() && #[trigger] m.search_text@.subrange(
            k,
            k + query.len(),
        ) == query {
        let k = choose|k: int|
            0 <= k && k + query.len() <= m.search_text@.len()
                && #[trigger] m.search_text@.subrange(k, k + query.len()) == query;
        assert(crate::text::occurs_at(m.search_text@, query, k));
    }
}

/// A search lists what it finds from the first line on; without one the list stays.
pub proof fn law_list_shows_what_is_found(u: UiView, q: Seq<char>, found: Seq<bool>, k: int)
    requires
        found.len() <= usize::MAX,
        0 <= k < found.len(),
        lowercased(q).len() > 0,
    ensures
        ({
            let v = filtered_by(UiView { input: InputView::Search(q), ..u }, found);
            &&& v.filtered.contains(k as usize) <==> found[k]
            &&& v.cursor == 0 && v.scroll_offset == 0
            &&& v == UiView {
                input: InputView::Search(q),
                filtered: v.filtered,
                cursor: 0,
                scroll_offset: 0,
                ..u
            }
        }),
        !(u.input is Search) ==> filtered_by(u, found) == u,
{
    let n = found.len() as int;
    law_search_places(found, n);
    let p = places_found(found, n);
    if p.contains(k as usize) {
        let j = choose|j: int| 0 <= j < p.len() && p[j] == k as usize;
        assert(found[p[j] as int]);
    }
}

/// When a track is removed the player knows how many are left and which one is current; the
/// current one is skipped where it is the one that was removed.
pub proof fn law_removed_track_is_skipped(s: PlayerState, left: usize, current: usize)
    ensures
        removed_state(s, left, current, true) == (PlayerState {
            total_tracks: left,
            current_track: current,
            skip_next: true,
            ..s
        }),
        removed_state(s, left, current, false) == (PlayerState {
            total_tracks: left,
            current_track: current,
            ..s
        }),
{
}

/// A track that is removed is kept from coming back, and is told of. The cursor stays on the
/// list, and the current track the current one.
pub proof fn law_removed_track_is_gone(
    u: UiView,
    left: usize,
    index: usize,
    key: Seq<char>,
    name: Seq<char>,
    found: Seq<bool>,
    now: u64,
)
    requires
        u.filtered.len() == 0,
    ensures
        ({
            let v = removed_ui(u, left as nat, index, key, name, found, now);
            &&& v.removed.contains(key)
            &&& u.removed.is_prefix_of(v.removed) && v.removed.len() <= u.removed.len() + 1
            &&& u.removed.contains(key) ==> v.removed == u.removed
            &&& v.playlist_dirty
            &&& v.current_track_removed <==> u.current_track_removed || index == u.current
            &&& v.status == Some(("Removed: "@ + name, now))
            &&& left > 0 ==> v.cursor < left
            &&& u.cursor < left ==> v.cursor == u.cursor
            &&& u.cursor >= left > 0 ==> v.cursor == left - 1
            &&& index > u.current ==> v.current == u.current
            &&& index < u.current ==> v.current == u.current - 1
            &&& v == UiView {
                removed: v.removed,
                playlist_dirty: true,
                current_track_removed: v.current_track_removed,
                status: v.status,
                cursor: v.cursor,
                current: v.current,
                ..u
            }
        }),
{
    let v = removed_ui(u, left as nat, index, key, name, found, now);
    if !u.removed.contains(key) {
        assert(v.removed.last() == key);
        assert(v.removed.contains(key));
    }
    assert(v.removed.take(u.removed.len() as int) =~= u.removed);
    assert(u.removed.is_prefix_of(v.removed)) by {
        assert(v.removed.subrange(0, u.removed.len() as int) =~= u.removed);
    }
}

/// A path that gives tracks takes the place of all sources: its first track is asked for, and
/// the player is shown. A path that gives none changes nothing but what is told.
pub proof fn law_source_is_switched(
    s: PlayerState,
    u: UiView,
    source: Seq<char>,
    opened: Opened,
    total: usize,
    now: u64,
)
    ensures
        ({
            let v = switched_ui(u, source, opened, now);
            let t = switched_state(s, total);
            let good = opened_tracks(opened).len() > 0;
            &&& !(opened is Tracks) ==> !good
            &&& good ==> {
                &&& v.sources == seq![source]
                &&& v.current == 0 && v.cursor == 0 && v.scroll_offset == 0
                &&& v.filtered.len() == 0
                &&& v.view_mode is Player && v.playlist_dirty && !v.session_idle
                &&& v == UiView {
                    sources: v.sources,
                    current: 0,
                    cursor: 0,
                    scroll_offset: 0,
                    filtered: v.filtered,
                    view_mode: ViewMode::Player,
                    playlist_dirty: true,
                    session_idle: false,
                    status: v.status,
                    ..u
                }
            }
            &&& !good ==> v == UiView { status: v.status, ..u }
            &&& v.status matches Some((_, at)) && at == now
            &&& t.total_tracks == total && t.current_track == 0
            &&& t.wanted_track() == Some(0usize)
            &&& s == PlayerState {
                total_tracks: s.total_tracks,
                current_track: s.current_track,
                jump_to_track: s.jump_to_track,
                ..t
            }
        }),
{
}

/// What is told of a path: that it is not there, why it cannot be read, that it holds nothing,
/// or that it is played.
pub proof fn law_source_is_told(u: UiView, source: Seq<char>, opened: Opened, now: u64)
    ensures
        ({
            let (told, _) = switched_ui(u, source, opened, now).status->0;
            &&& opened is Missing ==> told == "路径不存在: "@ + source
            &&& opened matches Opened::Unreadable(why) ==> told == "无法读取: "@ + source + " ("@
                + why@ + ")"@
            &&& opened is Tracks && opened_tracks(opened).len() == 0 ==> told
                == "目录内没有可播放音频"@
            &&& opened_tracks(opened).len() > 0 ==> told == "已切换目录: "@ + source
        }),
{
}

/// After a rescan the current track is where it was found; one that is lost gives its place to
/// what stands there, or to the last one. Nothing moves where nothing was current.
pub proof fn law_current_after_a_rescan(current: usize, i: usize, left: nat)
    requires
        left <= usize::MAX,
    ensures
        place_after_rescan(current, true, Some(i), left) == i,
        current < left ==> place_after_rescan(current, true, None, left) == current,
        current >= left > 0 ==> place_after_rescan(current, true, None, left) == left - 1,
        left == 0 ==> place_after_rescan(current, true, None, left) == 0,
        place_after_rescan(current, false, Some(i), left) == current,
        place_after_rescan(current, false, None, left) == current,
{
}

/// What is told of a rescan: how many tracks came and went, that none did, or that none is
/// left but the one that plays.
pub proof fn law_rescan_is_told(left: nat, had: bool, added: nat, removed: nat, failed: bool)
    ensures
        ({
            let told = rescan_text(left, had, added, removed, failed);
            &&& left == 0 ==> told == "All files removed, finishing current track"@
            &&& left == 1 && removed > 0 && had ==> told
                == "All files removed, finishing current track"@
            &&& left > 1 && (added > 0 || removed > 0) ==> told == "+"@ + decimal(added)
                + " added, -"@ + decimal(removed) + " removed"@
            &&& left > 1 && added == 0 && removed == 0 && !failed ==> told == "No changes found"@
            &&& left > 1 && added == 0 && removed == 0 && failed ==> told
                == "Rescan failed for some sources"@
        }),
{
}

/// The clock shows minutes and seconds, which together are the time; the seconds have two
/// digits and stay below sixty, and the minutes have two at least.
pub proof fn law_clock_shows_the_time(secs: nat)
    requires
        secs / 60 <= u32::MAX,
    ensures
        exists|m: Seq<char>, s: Seq<char>|
            {
                &&& clock(secs) == #[trigger] (m + seq![':'] + s)
                &&& m.len() >= 2 && s.len() == 2
                &&& 0 <= number_of(s) < 60
                &&& number_of(m) * 60 + number_of(s) == secs
                &&& forall|i: int| 0 <= i < m.len() ==> '0' <= #[trigger] m[i] <= '9'
                &&& forall|i: int| 0 <= i < s.len() ==> '0' <= #[trigger] s[i] <= '9'
            },
{
    let m = padded(decimal(secs / 60), 2, '0');
    let s = padded(decimal(secs % 60), 2, '0');
    lemma_padded_number(secs / 60);
    lemma_padded_number(secs % 60);
    let n = secs % 60;
    if n >= 10 {
        assert(decimal(n / 10).len() == 1);
        assert(decimal(n).len() == 2);
    } else {
        assert(decimal(n).len() == 1);
    }
    assert(clock(secs) == m + seq![':'] + s);
}

/// Zeros in front do not change a number.
proof fn lemma_padded_number(n: nat)
    ensures
        number_of(padded(decimal(n), 2, '0')) == n,
        forall|i: int|
            0 <= i < padded(decimal(n), 2, '0').len() ==> '0' <= #[trigger] padded(
                decimal(n),
                2,
                '0',
            )[i] <= '9',
{
    law_digits_stand_for_the_number(n);
    let d = decimal(n);
    let p = padded(d, 2, '0');
    if d.len() < 2 {
        assert(d.len() == 1);
        assert(p =~= seq!['0', d[0]]);
        assert(p.drop_last() =~= seq!['0']);
        assert(p.drop_last().drop_last() =~= Seq::empty());
        assert(d.drop_last() =~= Seq::empty());
        reveal_with_fuel(number_of, 4);
        assert(number_of(p.drop_last()) == 0);
    }
}

/// A click hits the first of the regions that it lies in, and none where it lies in none.
pub proof fn law_click_hits_the_first(
    regions: Seq<(CellRect, BannerHotkey)>,
    col: u16,
    row: u16,
    from: int,
    i: int,
)
    requires
        0 <= from <= i < regions.len(),
        forall|k: int|
            from <= k < i ==> {
                let r = (#[trigger] regions[k]).0;
                col < r.x || col >= r.x + r.w || row < r.y || row >= r.y + r.h
            },
        regions[i].0.x + regions[i].0.w <= u16::MAX,
        regions[i].0.y + regions[i].0.h <= u16::MAX,
    ensures
        regions[i].0.x <= col < regions[i].0.x + regions[i].0.w && regions[i].0.y <= row
            < regions[i].0.y + regions[i].0.h ==> region_at(regions, col, row, from) == Some(
            regions[i].1,
        ),
        !(regions[i].0.x <= col < regions[i].0.x + regions[i].0.w && regions[i].0.y <= row
            < regions[i].0.y + regions[i].0.h) && i == regions.len() - 1 ==> region_at(
            regions,
            col,
            row,
            from,
        ) is None,
    decreases i - from,
{
    if from < i {
        let r = regions[from].0;
        assert(!inside(r, col, row));
        law_click_hits_the_first(regions, col, row, from + 1, i);
    } else {
        assert(region_at(regions, col, row, i + 1) is None || i + 1 < regions.len());
    }
}

/// A track is shown by its tags where they are known.
pub proof fn law_tracks_are_shown_by_tags(
    entries: Seq<Option<CachedMeta>>,
    index: int,
    path: Seq<char>,
    name: Seq<char>,
)
    requires
        0 <= index < entries.len(),
        entries[index] is Some,
    ensures
        shown_as(entries, index, path, name) <==> name == entries[index]->0.display@,
{
}

/// The current track is the one at the current place, and none behind the last.
pub proof fn law_current_path_is_that_of_the_place(u: UiView, playlist: Seq<Track>)
    ensures
        u.current < playlist.len() ==> current_path(u, playlist) == Some(
            playlist[u.current as int].path@,
        ),
        u.current >= playlist.len() ==> current_path(u, playlist) is None,
{
}

} // verus!
