//! What keys and clicks are for: key by key, what each changes and what it leaves.
use vstd::prelude::*;

use crate::state::{BannerHotkey, CellRect, InputView, PlayerState, UiView, ViewMode};
use crate::ui::{handled, ActionView, Flow, Handled, InputEvent, Key};

verus! {

/// A key that is pressed without the control key.
pub open spec fn stroke(key: Key) -> InputEvent {
    InputEvent::Key { press: true, key, control: false }
}

/// An event that changes the player alone: reading goes on and nothing is left to be done.
pub open spec fn player_only(u: UiView, h: Handled) -> bool {
    &&& h.ui == u
    &&& h.action is None
    &&& h.flow == Flow::More
}

/// An event that changes the interface alone.
pub open spec fn interface_only(s: PlayerState, h: Handled) -> bool {
    &&& h.state == s
    &&& h.action is None
    &&& h.flow == Flow::More
}

/// `e` goes to the next preset of the equalizer, around the end, and marks it as changed.
pub proof fn law_e_is_for_the_equalizer(s: PlayerState, u: UiView, len: nat, found: Seq<bool>, now: u64)
    requires
        u.input is Normal,
        s.eq_preset_count > 0,
        s.eq_preset_index < s.eq_preset_count,
    ensures
        ({
            let h = handled(s, u, len, stroke(Key::Char('e')), found, now);
            &&& player_only(u, h)
            &&& s.eq_preset_index + 1 < s.eq_preset_count ==> h.state.eq_preset_index
                == s.eq_preset_index + 1
            &&& s.eq_preset_index + 1 == s.eq_preset_count ==> h.state.eq_preset_index == 0
            &&& h.state.eq_changed
            &&& h.state == PlayerState {
                eq_preset_index: h.state.eq_preset_index,
                eq_changed: h.state.eq_changed,
                ..s
            }
        }),
{
    vstd::arithmetic::div_mod::lemma_mod_self_0(s.eq_preset_count as int);
    if s.eq_preset_index + 1 < s.eq_preset_count {
        vstd::arithmetic::div_mod::lemma_small_mod(
            (s.eq_preset_index + 1) as nat,
            s.eq_preset_count as nat,
        );
    }
}

/// `x` goes to the next preset of the effects, around the end, and marks it as changed.
pub proof fn law_x_is_for_the_effects(s: PlayerState, u: UiView, len: nat, found: Seq<bool>, now: u64)
    requires
        u.input is Normal,
        s.effects_preset_count > 0,
        s.effects_preset_index < s.effects_preset_count,
    ensures
        ({
            let h = handled(s, u, len, stroke(Key::Char('x')), found, now);
            &&& player_only(u, h)
            &&& s.effects_preset_index + 1 < s.effects_preset_count
                ==> h.state.effects_preset_index == s.effects_preset_index + 1
            &&& s.effects_preset_index + 1 == s.effects_preset_count
                ==> h.state.effects_preset_index == 0
            &&& h.state.effects_changed
            &&& h.state == PlayerState {
                effects_preset_index: h.state.effects_preset_index,
                effects_changed: h.state.effects_changed,
                ..s
            }
        }),
{
    vstd::arithmetic::div_mod::lemma_mod_self_0(s.effects_preset_count as int);
    if s.effects_preset_index + 1 < s.effects_preset_count {
        vstd::arithmetic::div_mod::lemma_small_mod(
            (s.effects_preset_index + 1) as nat,
            s.effects_preset_count as nat,
        );
    }
}

/// `c` goes to the next preset of the crossfeed, around the end, and marks it as changed.
pub proof fn law_c_is_for_the_crossfeed(s: PlayerState, u: UiView, len: nat, found: Seq<bool>, now: u64)
    requires
        u.input is Normal,
        s.crossfeed_preset_count > 0,
        s.crossfeed_preset_index < s.crossfeed_preset_count,
    ensures
        ({
            let h = handled(s, u, len, stroke(Key::Char('c')), found, now);
            &&& player_only(u, h)
            &&& s.crossfeed_preset_index + 1 < s.crossfeed_preset_count
                ==> h.state.crossfeed_preset_index == s.crossfeed_preset_index + 1
            &&& s.crossfeed_preset_index + 1 == s.crossfeed_preset_count
                ==> h.state.crossfeed_preset_index == 0
            &&& h.state.crossfeed_changed
            &&& h.state == PlayerState {
                crossfeed_preset_index: h.state.crossfeed_preset_index,
                crossfeed_changed: h.state.crossfeed_changed,
                ..s
            }
        }),
{
    vstd::arithmetic::div_mod::lemma_mod_self_0(s.crossfeed_preset_count as int);
    if s.crossfeed_preset_index + 1 < s.crossfeed_preset_count {
        vstd::arithmetic::div_mod::lemma_small_mod(
            (s.crossfeed_preset_index + 1) as nat,
            s.crossfeed_preset_count as nat,
        );
    }
}

/// Without presets the keys for them change nothing.
pub proof fn law_no_presets_no_change(s: PlayerState, u: UiView, len: nat, found: Seq<bool>, now: u64)
    requires
        u.input is Normal,
    ensures
        s.eq_preset_count == 0 ==> handled(s, u, len, stroke(Key::Char('e')), found, now).state
            == s,
        s.effects_preset_count == 0 ==> handled(
            s,
            u,
            len,
            stroke(Key::Char('x')),
            found,
            now,
        ).state == s,
        s.crossfeed_preset_count == 0 ==> handled(
            s,
            u,
            len,
            stroke(Key::Char('c')),
            found,
            now,
        ).state == s,
{
}

/// The space bar pauses what plays and plays what is paused.
pub proof fn law_space_is_for_pause(s: PlayerState, u: UiView, len: nat, found: Seq<bool>, now: u64)
    requires
        u.input is Normal,
    ensures
        ({
            let h = handled(s, u, len, stroke(Key::Char(' ')), found, now);
            player_only(u, h) && h.state == PlayerState { paused: !s.paused, ..s }
        }),
{
}

/// Outside the list up asks for the next track and down for the one before.
pub proof fn law_arrows_ask_for_tracks(s: PlayerState, u: UiView, len: nat, found: Seq<bool>, now: u64)
    requires
        u.input is Normal,
        u.view_mode !is Playlist,
    ensures
        ({
            let up = handled(s, u, len, stroke(Key::Up), found, now);
            let down = handled(s, u, len, stroke(Key::Down), found, now);
            &&& player_only(u, up) && up.state == PlayerState { skip_next: true, ..s }
            &&& player_only(u, down) && down.state == PlayerState { skip_prev: true, ..s }
        }),
{
}

/// Right asks for ten seconds on, left for ten seconds back.
pub proof fn law_arrows_ask_for_seconds(s: PlayerState, u: UiView, len: nat, found: Seq<bool>, now: u64)
    requires
        u.input is Normal,
    ensures
        ({
            let right = handled(s, u, len, stroke(Key::Right), found, now);
            let left = handled(s, u, len, stroke(Key::Left), found, now);
            &&& player_only(u, right) && right.state == PlayerState { seek_request: 10, ..s }
            &&& player_only(u, left) && left.state == PlayerState { seek_request: -10i64, ..s }
        }),
{
}

/// Plus is louder and minus softer, by five points between nothing and one and a half times
/// the signal.
pub proof fn law_plus_and_minus_are_for_volume(
    s: PlayerState,
    u: UiView,
    len: nat,
    found: Seq<bool>,
    now: u64,
)
    requires
        u.input is Normal,
        s.volume <= 150,
    ensures
        ({
            let plus = handled(s, u, len, stroke(Key::Char('+')), found, now);
            let same = handled(s, u, len, stroke(Key::Char('=')), found, now);
            let minus = handled(s, u, len, stroke(Key::Char('-')), found, now);
            &&& player_only(u, plus) && player_only(u, minus)
            &&& same == plus
            &&& s.volume <= 145 ==> plus.state.volume == s.volume + 5
            &&& s.volume > 145 ==> plus.state.volume == 150
            &&& s.volume >= 5 ==> minus.state.volume == s.volume - 5
            &&& s.volume < 5 ==> minus.state.volume == 0
            &&& plus.state == PlayerState { volume: plus.state.volume, ..s }
            &&& minus.state == PlayerState { volume: minus.state.volume, ..s }
        }),
{
}

/// Brackets move the balance by five points, to the left and to the right, no farther than
/// a hundred.
pub proof fn law_brackets_are_for_balance(
    s: PlayerState,
    u: UiView,
    len: nat,
    found: Seq<bool>,
    now: u64,
)
    requires
        u.input is Normal,
        -100 <= s.balance <= 100,
    ensures
        ({
            let left = handled(s, u, len, stroke(Key::Char('[')), found, now);
            let right = handled(s, u, len, stroke(Key::Char(']')), found, now);
            &&& player_only(u, left) && player_only(u, right)
            &&& s.balance >= -95 ==> left.state.balance == s.balance - 5
            &&& s.balance < -95 ==> left.state.balance == -100
            &&& s.balance <= 95 ==> right.state.balance == s.balance + 5
            &&& s.balance > 95 ==> right.state.balance == 100
            &&& left.state == PlayerState { balance: left.state.balance, ..s }
            &&& right.state == PlayerState { balance: right.state.balance, ..s }
        }),
{
}

/// `f` and `i` switch the meters in front of the volume and the statistics.
pub proof fn law_f_and_i_switch(s: PlayerState, u: UiView, len: nat, found: Seq<bool>, now: u64)
    requires
        u.input is Normal,
    ensures
        ({
            let f = handled(s, u, len, stroke(Key::Char('f')), found, now);
            let i = handled(s, u, len, stroke(Key::Char('i')), found, now);
            &&& player_only(u, f) && f.state == PlayerState { pre_fader: !s.pre_fader, ..s }
            &&& player_only(u, i) && i.state == PlayerState { show_stats: !s.show_stats, ..s }
        }),
{
}

/// `v` goes through nothing, meters, and the spectrum in rows and in columns; `b` changes
/// between bars and dots.
pub proof fn law_v_and_b_are_for_the_display(
    s: PlayerState,
    u: UiView,
    len: nat,
    found: Seq<bool>,
    now: u64,
)
    requires
        u.input is Normal,
        s.viz_mode <= 3,
        s.viz_style <= 1,
    ensures
        ({
            let v = handled(s, u, len, stroke(Key::Char('v')), found, now);
            let b = handled(s, u, len, stroke(Key::Char('b')), found, now);
            &&& player_only(u, v) && player_only(u, b)
            &&& s.viz_mode < 3 ==> v.state.viz_mode == s.viz_mode + 1
            &&& s.viz_mode == 3 ==> v.state.viz_mode == 0
            &&& v.state == PlayerState { viz_mode: v.state.viz_mode, ..s }
            &&& b.state.viz_style == 1 - s.viz_style
            &&& b.state == PlayerState { viz_style: b.state.viz_style, ..s }
        }),
{
}

/// `q` ends the program.
pub proof fn law_q_quits(s: PlayerState, u: UiView, len: nat, found: Seq<bool>, now: u64)
    requires
        u.input is Normal,
    ensures
        ({
            let q = handled(s, u, len, stroke(Key::Char('q')), found, now);
            &&& q.state == PlayerState { quit: true, ..s } && q.flow == Flow::Stop { quit: true }
            &&& q.ui == u && q.action is None
        }),
{
}

/// Escape ends the program in the player's view, and leads there from the others.
pub proof fn law_escape_leads_out(s: PlayerState, u: UiView, len: nat, found: Seq<bool>, now: u64)
    requires
        u.input is Normal,
    ensures
        ({
            let esc = handled(s, u, len, stroke(Key::Esc), found, now);
            &&& u.view_mode is Player ==> esc.state == PlayerState { quit: true, ..s } && esc.flow
                == Flow::Stop { quit: true } && esc.ui == u
            &&& u.view_mode !is Player ==> esc.state == s && esc.ui == UiView {
                view_mode: ViewMode::Player,
                ..u
            } && esc.flow != Flow::Stop { quit: true }
        }),
{
}

/// `c` with the control key ends the program; alone it does not.
pub proof fn law_control_c_quits(s: PlayerState, u: UiView, len: nat, found: Seq<bool>, now: u64)
    requires
        u.input is Normal,
    ensures
        ({
            let held = InputEvent::Key { press: true, key: Key::Char('c'), control: true };
            let ctrl = handled(s, u, len, held, found, now);
            let c = handled(s, u, len, stroke(Key::Char('c')), found, now);
            &&& ctrl.state == PlayerState { quit: true, ..s }
            &&& ctrl.flow == Flow::Stop { quit: true } && ctrl.ui == u
            &&& c.state.quit == s.quit && c.flow == Flow::More
        }),
{
}

/// `l` opens the list with its cursor on the current track and closes it again.
pub proof fn law_l_is_for_the_list(s: PlayerState, u: UiView, len: nat, found: Seq<bool>, now: u64)
    requires
        u.input is Normal,
    ensures
        ({
            let h = handled(s, u, len, stroke(Key::Char('l')), found, now);
            &&& interface_only(s, h)
            &&& u.view_mode is Playlist ==> h.ui == UiView { view_mode: ViewMode::Player, ..u }
            &&& u.view_mode !is Playlist ==> {
                &&& h.ui.view_mode is Playlist
                &&& h.ui.cursor == u.current
                &&& h.ui.scroll_offset <= h.ui.cursor && h.ui.scroll_offset <= u.scroll_offset
                &&& u.scroll_offset <= u.current ==> h.ui.scroll_offset == u.scroll_offset
                &&& h.ui == UiView {
                    view_mode: h.ui.view_mode,
                    cursor: h.ui.cursor,
                    scroll_offset: h.ui.scroll_offset,
                    ..u
                }
            }
        }),
{
}

/// `y` opens the lyrics, which then follow the music from the top, and closes them again.
pub proof fn law_y_is_for_the_lyrics(s: PlayerState, u: UiView, len: nat, found: Seq<bool>, now: u64)
    requires
        u.input is Normal,
    ensures
        ({
            let h = handled(s, u, len, stroke(Key::Char('y')), found, now);
            &&& interface_only(s, h)
            &&& u.view_mode is Lyrics ==> h.ui == UiView { view_mode: ViewMode::Player, ..u }
            &&& u.view_mode !is Lyrics ==> h.ui == UiView {
                view_mode: ViewMode::Lyrics,
                lyrics_scroll: 0,
                lyrics_auto_scroll: true,
                ..u
            }
        }),
{
}

/// `g` switches shuffling, tells so, and has the session saved.
pub proof fn law_g_is_for_shuffling(s: PlayerState, u: UiView, len: nat, found: Seq<bool>, now: u64)
    requires
        u.input is Normal,
    ensures
        ({
            let h = handled(s, u, len, stroke(Key::Char('g')), found, now);
            &&& interface_only(s, h)
            &&& h.ui.shuffle != u.shuffle
            &&& h.ui.pending_resume_save
            &&& h.ui.shuffle ==> h.ui.status == Some(("随机播放：开（再次列表循环时重排）"@, now))
            &&& !h.ui.shuffle ==> h.ui.status == Some(("随机播放：关"@, now))
            &&& h.ui == UiView {
                shuffle: h.ui.shuffle,
                pending_resume_save: h.ui.pending_resume_save,
                status: h.ui.status,
                ..u
            }
        }),
{
}

/// `t` switches repetition, tells so, and has the session saved; where it is switched on at
/// the end of a playlist, that begins again.
pub proof fn law_t_is_for_repetition(s: PlayerState, u: UiView, len: nat, found: Seq<bool>, now: u64)
    requires
        u.input is Normal,
    ensures
        ({
            let h = handled(s, u, len, stroke(Key::Char('t')), found, now);
            &&& interface_only(s, h)
            &&& h.ui.repeat != u.repeat
            &&& h.ui.pending_resume_save
            &&& h.ui.repeat ==> h.ui.status == Some(("列表循环：开"@, now))
            &&& !h.ui.repeat ==> h.ui.status == Some(("列表循环：关"@, now))
            &&& u.session_idle && h.ui.repeat && len > 0 ==> h.ui.current == 0
                && !h.ui.session_idle
            &&& !(u.session_idle && h.ui.repeat && len > 0) ==> h.ui.current == u.current
                && h.ui.session_idle == u.session_idle
            &&& h.ui.shuffle == u.shuffle && h.ui.view_mode == u.view_mode
        }),
{
}

/// `o` asks for a path, `p` lets a folder be picked, `r` scans the sources again; none of
/// them changes anything by itself.
pub proof fn law_keys_that_ask(s: PlayerState, u: UiView, len: nat, found: Seq<bool>, now: u64)
    requires
        u.input is Normal,
    ensures
        ({
            let o = handled(s, u, len, stroke(Key::Char('o')), found, now);
            let p = handled(s, u, len, stroke(Key::Char('p')), found, now);
            let r = handled(s, u, len, stroke(Key::Char('r')), found, now);
            &&& o.action == Some(ActionView::AskPath) && o.state == s && o.ui == u
            &&& p.action == Some(ActionView::PickPath) && p.state == s && p.ui == u
            &&& r.action == Some(ActionView::Rescan) && r.state == s && r.ui == u
        }),
{
}

/// `s` begins a name for the playlist, but in the lyrics, where it scrolls.
pub proof fn law_s_is_for_saving(s: PlayerState, u: UiView, len: nat, found: Seq<bool>, now: u64)
    requires
        u.input is Normal,
        u.view_mode !is Lyrics,
    ensures
        ({
            let h = handled(s, u, len, stroke(Key::Char('s')), found, now);
            &&& interface_only(s, h)
            &&& h.ui == UiView { input: InputView::SavePlaylist(Seq::empty()), ..u }
        }),
{
}

/// In the lyrics `w` and `s` scroll by a line, as far as there are lines, and they no longer
/// follow the music; `a` and `d` show lyrics in time half a second earlier and later.
pub proof fn law_keys_in_the_lyrics(s: PlayerState, u: UiView, len: nat, found: Seq<bool>, now: u64)
    requires
        u.input is Normal,
        u.view_mode is Lyrics,
        i64::MIN < u.lyrics_offset < i64::MAX,
        u.lyrics matches Some(l) ==> l.count() <= usize::MAX,
    ensures
        ({
            let w = handled(s, u, len, stroke(Key::Char('w')), found, now);
            let down = handled(s, u, len, stroke(Key::Char('s')), found, now);
            let d = handled(s, u, len, stroke(Key::Char('d')), found, now);
            let a = handled(s, u, len, stroke(Key::Char('a')), found, now);
            let in_time = u.lyrics matches Some(l) && l is Synced;
            let lines = match u.lyrics {
                Some(l) => l.count() as int,
                None => 0,
            };
            &&& interface_only(s, w) && interface_only(s, down)
            &&& interface_only(s, d) && interface_only(s, a)
            &&& !w.ui.lyrics_auto_scroll && !down.ui.lyrics_auto_scroll
            &&& u.lyrics_scroll > 0 ==> w.ui.lyrics_scroll == u.lyrics_scroll - 1
            &&& u.lyrics_scroll == 0 ==> w.ui.lyrics_scroll == 0
            &&& u.lyrics_scroll + 1 < lines ==> down.ui.lyrics_scroll == u.lyrics_scroll + 1
            &&& u.lyrics_scroll + 1 >= lines ==> down.ui.lyrics_scroll == u.lyrics_scroll
            &&& in_time ==> d.ui.lyrics_offset == u.lyrics_offset + 1 && a.ui.lyrics_offset
                == u.lyrics_offset - 1
            &&& !in_time ==> d.ui == u && a.ui == u
            &&& d.ui == UiView { lyrics_offset: d.ui.lyrics_offset, ..u }
            &&& a.ui == UiView { lyrics_offset: a.ui.lyrics_offset, ..u }
        }),
{
}

/// In the list the cursor goes up and down by a line, as far as there are lines: those that
/// a search found, or the whole playlist.
pub proof fn law_arrows_in_the_list(s: PlayerState, u: UiView, len: nat, found: Seq<bool>, now: u64)
    requires
        u.input is Normal,
        u.view_mode is Playlist,
        len <= usize::MAX && u.filtered.len() <= usize::MAX,
    ensures
        ({
            let up = handled(s, u, len, stroke(Key::Up), found, now);
            let down = handled(s, u, len, stroke(Key::Down), found, now);
            let lines = if u.filtered.len() > 0 {
                u.filtered.len()
            } else {
                len
            };
            &&& interface_only(s, up) && interface_only(s, down)
            &&& u.cursor > 0 ==> up.ui.cursor == u.cursor - 1
            &&& u.cursor == 0 ==> up.ui.cursor == 0
            &&& up.ui.scroll_offset <= up.ui.cursor || u.cursor == 0
            &&& u.cursor + 1 < lines ==> down.ui.cursor == u.cursor + 1
            &&& u.cursor + 1 >= lines ==> down.ui.cursor == u.cursor
            &&& down.ui.current == u.current && up.ui.current == u.current
            &&& down.ui.filtered == u.filtered && up.ui.filtered == u.filtered
        }),
{
}

/// In the list enter asks for the track under the cursor, `d` and delete for its removal,
/// where more than one track is there; `/` begins a search and escape closes the list.
pub proof fn law_keys_in_the_list(s: PlayerState, u: UiView, len: nat, found: Seq<bool>, now: u64)
    requires
        u.input is Normal,
        u.view_mode is Playlist,
        u.filtered.len() == 0 ==> u.cursor < len,
        u.filtered.len() > 0 ==> u.cursor < u.filtered.len() && u.filtered[u.cursor as int] < len,
        len <= i64::MAX,
    ensures
        ({
            let enter = handled(s, u, len, stroke(Key::Enter), found, now);
            let d = handled(s, u, len, stroke(Key::Char('d')), found, now);
            let delete = handled(s, u, len, stroke(Key::Delete), found, now);
            let slash = handled(s, u, len, stroke(Key::Char('/')), found, now);
            let esc = handled(s, u, len, stroke(Key::Esc), found, now);
            let track = if u.filtered.len() > 0 {
                u.filtered[u.cursor as int]
            } else {
                u.cursor
            };
            &&& enter.state == PlayerState { jump_to_track: track as i64, ..s }
            &&& enter.state.jump_to_track == track
            &&& enter.ui == u && enter.action is None
            &&& d == delete && d.state == s
            &&& len > 1 ==> d.action == Some(ActionView::Remove(track)) && d.ui == u
            &&& len <= 1 ==> d.action is None && d.ui.status == Some(
                ("Can't remove the last track"@, now),
            )
            &&& slash.ui == UiView { input: InputView::Search(Seq::empty()), ..u }
            &&& slash.state == s && slash.action is None
            &&& esc.ui == UiView { view_mode: ViewMode::Player, ..u } && esc.state == s
            &&& !enter.state.quit || s.quit
        }),
{
}

/// While a text is typed, keys never reach the player's controls: letters go behind the text
/// and backspace takes the last one away.
pub proof fn law_keys_are_typed(
    s: PlayerState,
    u: UiView,
    len: nat,
    c: char,
    found: Seq<bool>,
    now: u64,
)
    requires
        u.input !is Normal,
    ensures
        ({
            let h = handled(s, u, len, stroke(Key::Char(c)), found, now);
            let back = handled(s, u, len, stroke(Key::Backspace), found, now);
            &&& h.state == s && back.state == s
            &&& h.action is None && back.action is None
            &&& h.ui.current == u.current && back.ui.current == u.current
            &&& u.input matches InputView::Search(q) ==> h.ui.input == InputView::Search(q.push(c))
                && h.ui.cursor == 0
            &&& u.input matches InputView::SavePlaylist(n) ==> h.ui == UiView {
                input: InputView::SavePlaylist(n.push(c)),
                ..u
            }
            &&& u.input matches InputView::Search(q) ==> (q.len() > 0 ==> back.ui.input
                == InputView::Search(q.take(q.len() - 1)))
            &&& u.input matches InputView::SavePlaylist(n) ==> (n.len() > 0 ==> back.ui.input
                == InputView::SavePlaylist(n.take(n.len() - 1)))
        }),
{
    match u.input {
        InputView::Search(q) => {
            if q.len() > 0 {
                assert(q.drop_last() =~= q.take(q.len() - 1));
            }
        },
        InputView::SavePlaylist(n) => {
            if n.len() > 0 {
                assert(n.drop_last() =~= n.take(n.len() - 1));
            }
        },
        InputView::Normal => {},
    }
}

/// Enter in a search asks for the track under the cursor among those that were found; escape
/// asks for nothing. Both end the search and show the whole list.
pub proof fn law_search_ends(s: PlayerState, u: UiView, len: nat, found: Seq<bool>, now: u64)
    requires
        u.input is Search,
        u.filtered.len() > 0,
        u.cursor < u.filtered.len(),
        u.filtered[u.cursor as int] <= i64::MAX,
    ensures
        ({
            let enter = handled(s, u, len, stroke(Key::Enter), found, now);
            let esc = handled(s, u, len, stroke(Key::Esc), found, now);
            &&& enter.state.jump_to_track == u.filtered[u.cursor as int]
            &&& enter.state == PlayerState { jump_to_track: enter.state.jump_to_track, ..s }
            &&& esc.state == s
            &&& enter.ui == esc.ui
            &&& esc.ui.input is Normal && esc.ui.filtered.len() == 0 && esc.ui.cursor == 0
            &&& esc.ui.view_mode == u.view_mode && esc.ui.current == u.current
            &&& enter.action is None && esc.action is None
        }),
{
}

/// Enter saves the playlist under the name that was typed, unless that is empty; escape saves
/// nothing. Both end the typing.
pub proof fn law_name_is_saved(
    s: PlayerState,
    u: UiView,
    len: nat,
    name: Seq<char>,
    found: Seq<bool>,
    now: u64,
)
    requires
        u.input == InputView::SavePlaylist(name),
    ensures
        ({
            let enter = handled(s, u, len, stroke(Key::Enter), found, now);
            let esc = handled(s, u, len, stroke(Key::Esc), found, now);
            &&& name.len() > 0 ==> enter.action == Some(ActionView::Save(name))
            &&& name.len() == 0 ==> enter.action is None
            &&& esc.action is None
            &&& enter.ui == UiView { input: InputView::Normal, ..u } && esc.ui == enter.ui
            &&& enter.state == s && esc.state == s
        }),
{
}

/// Releases of keys, other buttons and other events change nothing; a change of the
/// terminal's size is noted.
pub proof fn law_other_events_change_nothing(
    s: PlayerState,
    u: UiView,
    len: nat,
    key: Key,
    control: bool,
    col: u16,
    row: u16,
    found: Seq<bool>,
    now: u64,
)
    ensures
        ({
            let release = InputEvent::Key { press: false, key, control };
            let move_ = InputEvent::Mouse { left_down: false, col, row };
            let resize = handled(s, u, len, InputEvent::Resize, found, now);
            &&& player_only(u, handled(s, u, len, release, found, now))
            &&& handled(s, u, len, release, found, now).state == s
            &&& player_only(u, handled(s, u, len, move_, found, now))
            &&& handled(s, u, len, move_, found, now).state == s
            &&& handled(s, u, len, InputEvent::Other, found, now).state == s
            &&& resize.state == s && resize.ui == UiView { terminal_resized: true, ..u }
        }),
{
}

/// The letter that stands for a key of the banner.
pub open spec fn letter_of(hk: BannerHotkey) -> char {
    match hk {
        BannerHotkey::Eq => 'e',
        BannerHotkey::Fx => 'x',
        BannerHotkey::Crossfeed => 'c',
        BannerHotkey::Fader => 'f',
        BannerHotkey::VizMode => 'v',
        BannerHotkey::VizStyle => 'b',
        BannerHotkey::Info => 'i',
        BannerHotkey::List => 'l',
        BannerHotkey::Lyrics => 'y',
        BannerHotkey::Open => 'o',
        BannerHotkey::Pick => 'p',
        BannerHotkey::Shuffle => 'g',
        BannerHotkey::LoopToggle => 't',
    }
}

/// A click on a region of the banner does what the letter of its key does in the player's
/// view; a click beside all regions, or while a text is typed, does nothing.
pub proof fn law_click_presses_the_letter(
    s: PlayerState,
    u: UiView,
    len: nat,
    rect: CellRect,
    hk: BannerHotkey,
    col: u16,
    row: u16,
    found: Seq<bool>,
    now: u64,
)
    requires
        u.view_mode is Player,
        u.regions == seq![(rect, hk)],
        rect.x + rect.w <= u16::MAX && rect.y + rect.h <= u16::MAX,
    ensures
        ({
            let click = InputEvent::Mouse { left_down: true, col, row };
            let h = handled(s, u, len, click, found, now);
            let hit = rect.x <= col < rect.x + rect.w && rect.y <= row < rect.y + rect.h;
            &&& u.input is Normal && hit ==> h == handled(
                s,
                u,
                len,
                stroke(Key::Char(letter_of(hk))),
                found,
                now,
            )
            &&& u.input !is Normal || !hit ==> player_only(u, h) && h.state == s
        }),
{
    reveal_with_fuel(crate::ui::region_at, 3);
}

} // verus!
