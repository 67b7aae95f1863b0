//! Where a session ended, and how the next one takes it up.
use vstd::prelude::*;

use crate::args::{rg_mode_named, rg_mode_of};
use crate::eq::{find_preset, names_match};
use crate::metadata::copy_text;
use crate::paths::{name_in, named_in};
use crate::state::{PlayerState, RgMode, Seconds, UiState};
use crate::text::{all_ascii, texts};
use crate::track::{text_view, Track};

verus! {

/// Where a session ended.
pub struct ResumeState {
    pub source_paths: Vec<String>,
    pub track_path: String,
    pub position: Seconds,
    pub shuffle: bool,
    pub repeat: bool,
    pub volume: u32,
    pub eq_preset: String,
    pub effects_preset: String,
    pub rg_mode: Option<String>,
    pub device: Option<String>,
    pub exclusive: Option<bool>,
    pub crossfeed_preset: Option<String>,
    pub balance: Option<i32>,
}

/// The file that keeps where a session ended: in the configuration folder, where
/// that is known.
pub fn state_file_path(windows: bool, config_dir: Option<String>) -> (r: Option<String>)
    ensures
        text_view(r) == (match config_dir {
            Some(dir) => Some(named_in(windows, dir@, "state.json"@)),
            None => None,
        }),
{
    proof {
        reveal_strlit("state.json");
    }
    match config_dir {
        Some(dir) => Some(name_in(windows, dir.as_str(), "state.json")),
        None => None,
    }
}

fn copy_texts(list: &Vec<String>) -> (r: Vec<String>)
    ensures
        r@ == list@,
{
    let mut out: Vec<String> = Vec::new();
    let mut i: usize = 0;
    while i < list.len()
        invariant
            i <= list.len(),
            out@ == list@.take(i as int),
        decreases list.len() - i,
    {
        out.push(list[i].clone());
        assert(list@.take(i as int).push(list@[i as int]) =~= list@.take(i + 1));
        i = i + 1;
    }
    assert(list@.take(i as int) =~= list@);
    out
}

/// The word that keeps a mode of loudness: its name in small letters.
pub open spec fn rg_word(m: RgMode) -> Seq<char> {
    match m {
        RgMode::Track => "track"@,
        RgMode::Album => "album"@,
        RgMode::Off => "off"@,
    }
}

/// The word that keeps a mode of loudness.
pub fn rg_mode_word(m: RgMode) -> (r: String)
    ensures
        r@ == rg_word(m),
{
    let name = m.name();
    let r = name.to_lowercase();
    proof {
        reveal_strlit("Track");
        reveal_strlit("Album");
        reveal_strlit("Off");
        reveal_strlit("track");
        reveal_strlit("album");
        reveal_strlit("off");
        assert(all_ascii(name@));
        assert(r@ =~= rg_word(m));
    }
    r
}

/// Where the session is now.
pub fn build_resume_state(
    ui: &UiState,
    playlist: &Vec<Track>,
    s: &PlayerState,
    eq_names: &Vec<String>,
    fx_names: &Vec<String>,
    cf_names: &Vec<String>,
    device_name: &Option<String>,
) -> (r: ResumeState)
    requires
        s.eq_preset_index < eq_names.len(),
        s.effects_preset_index < fx_names.len(),
        s.crossfeed_preset_index < cf_names.len(),
    ensures
        r.source_paths@ == ui.source_paths@,
        r.track_path@ == (if ui.current < playlist.len() {
            playlist@[ui.current as int].path@
        } else {
            Seq::empty()
        }),
        r.position == s.position(),
        r.shuffle == ui.shuffle && r.repeat == ui.repeat,
        r.volume == s.volume,
        r.eq_preset == eq_names@[s.eq_preset_index as int],
        r.effects_preset == fx_names@[s.effects_preset_index as int],
        text_view(r.rg_mode) == Some(rg_word(RgMode::of(s.rg_mode))),
        r.device == *device_name,
        r.exclusive == Some(s.exclusive),
        r.crossfeed_preset == Some(cf_names@[s.crossfeed_preset_index as int]),
        r.balance == Some(s.balance),
{
    ResumeState {
        source_paths: copy_texts(&ui.source_paths),
        track_path: if ui.current < playlist.len() {
            playlist[ui.current].path.clone()
        } else {
            String::new()
        },
        position: s.time_secs(),
        shuffle: ui.shuffle,
        repeat: ui.repeat,
        volume: s.volume,
        eq_preset: eq_names[s.eq_index()].clone(),
        effects_preset: fx_names[s.effects_index()].clone(),
        rg_mode: Some(rg_mode_word(s.rg_mode())),
        device: copy_text(device_name),
        exclusive: Some(s.exclusive),
        crossfeed_preset: Some(cf_names[s.crossfeed_index()].clone()),
        balance: Some(s.balance_value()),
    }
}

/// The first of the names from `from` on that matches.
pub open spec fn place_of_name(
    names: Seq<Seq<char>>,
    name: Seq<char>,
    ignore_case: bool,
    from: int,
) -> Option<usize>
    decreases names.len() - from,
{
    if from < 0 || from >= names.len() {
        None
    } else if names_match(names[from], name, ignore_case) {
        Some(from as usize)
    } else {
        place_of_name(names, name, ignore_case, from + 1)
    }
}

proof fn lemma_place_of_name(
    names: Seq<Seq<char>>,
    name: Seq<char>,
    ignore_case: bool,
    from: int,
    r: Option<usize>,
)
    requires
        0 <= from <= names.len(),
        match r {
            Some(i) => from <= i < names.len() && names_match(names[i as int], name, ignore_case)
                && forall|k: int|
                from <= k < i ==> !names_match(#[trigger] names[k], name, ignore_case),
            None => forall|k: int|
                from <= k < names.len() ==> !names_match(#[trigger] names[k], name, ignore_case),
        },
    ensures
        place_of_name(names, name, ignore_case, from) == r,
    decreases names.len() - from,
{
    if from < names.len() && !names_match(names[from], name, ignore_case) {
        lemma_place_of_name(names, name, ignore_case, from + 1, r);
    }
}

fn place(names: &Vec<String>, name: &String, ignore_case: bool) -> (r: Option<usize>)
    ensures
        r == place_of_name(texts(names@), name@, ignore_case, 0),
{
    let r = find_preset(names, name, ignore_case);
    proof {
        let all = texts(names@);
        assert forall|k: int| 0 <= k < all.len() implies #[trigger] all[k] == names@[k]@ by {}
        lemma_place_of_name(all, name@, ignore_case, 0, r);
    }
    r
}

/// A place that was found, else another.
pub open spec fn found_or(found: Option<usize>, other: usize) -> usize {
    match found {
        Some(i) => i,
        None => other,
    }
}

/// A balance inside its scale.
pub open spec fn held_balance(b: i32) -> i32 {
    if b < -100 {
        -100i32
    } else if b > 100 {
        100
    } else {
        b
    }
}

/// The player with what the last session had: presets that are not found and
/// settings that were not kept stay as they are.
pub open spec fn restored(
    s: PlayerState,
    rs: ResumeState,
    eq: Seq<Seq<char>>,
    fx: Seq<Seq<char>>,
    cf: Seq<Seq<char>>,
) -> PlayerState {
    PlayerState {
        volume: rs.volume,
        eq_preset_index: found_or(
            place_of_name(eq, rs.eq_preset@, false, 0),
            s.eq_preset_index,
        ),
        effects_preset_index: found_or(
            place_of_name(fx, rs.effects_preset@, false, 0),
            s.effects_preset_index,
        ),
        rg_mode: match rs.rg_mode {
            Some(m) => rg_mode_of(m@).code(),
            None => s.rg_mode,
        },
        crossfeed_preset_index: match rs.crossfeed_preset {
            Some(name) => found_or(place_of_name(cf, name@, true, 0), s.crossfeed_preset_index),
            None => s.crossfeed_preset_index,
        },
        balance: match rs.balance {
            Some(b) => held_balance(b),
            None => s.balance,
        },
        ..s
    }
}

/// Gives the player what the last session had.
pub fn restore_session(
    s: &mut PlayerState,
    rs: &ResumeState,
    eq_names: &Vec<String>,
    fx_names: &Vec<String>,
    cf_names: &Vec<String>,
)
    ensures
        *final(s) == restored(
            *old(s),
            *rs,
            texts(eq_names@),
            texts(fx_names@),
            texts(cf_names@),
        ),
{
    let eq = match place(eq_names, &rs.eq_preset, false) {
        Some(i) => i,
        None => s.eq_preset_index,
    };
    let fx = match place(fx_names, &rs.effects_preset, false) {
        Some(i) => i,
        None => s.effects_preset_index,
    };
    let rg: u8 = match &rs.rg_mode {
        Some(m) => rg_mode_named(m.as_str()).to_u8(),
        None => s.rg_mode,
    };
    let cf = match &rs.crossfeed_preset {
        Some(name) => match place(cf_names, name, true) {
            Some(i) => i,
            None => s.crossfeed_preset_index,
        },
        None => s.crossfeed_preset_index,
    };
    let balance: i32 = match rs.balance {
        Some(b) => if b < -100 {
            -100
        } else if b > 100 {
            100
        } else {
            b
        },
        None => s.balance,
    };
    give(s, rs.volume, eq, fx, rg, cf, balance);
}

fn give(s: &mut PlayerState, volume: u32, eq: usize, fx: usize, rg: u8, cf: usize, balance: i32)
    ensures
        *final(s) == (PlayerState {
            volume,
            eq_preset_index: eq,
            effects_preset_index: fx,
            rg_mode: rg,
            crossfeed_preset_index: cf,
            balance,
            ..*old(s)
        }),
{
    s.volume = volume;
    s.eq_preset_index = eq;
    s.effects_preset_index = fx;
    s.rg_mode = rg;
    s.crossfeed_preset_index = cf;
    s.balance = balance;
}

/// The device to play on when a session is taken up: the one that is asked for,
/// else the one that was used.
pub fn resume_device(asked: Option<String>, rs: &ResumeState) -> (r: Option<String>)
    ensures
        r == (match asked {
            Some(_) => asked,
            None => rs.device,
        }),
{
    match asked {
        Some(_) => asked,
        None => copy_text(&rs.device),
    }
}

/// Whether the output is to belong to the player alone when a session is taken
/// up.
pub fn resume_exclusive(asked: bool, rs: &ResumeState) -> (r: bool)
    ensures
        r == (asked || rs.exclusive == Some(true)),
{
    asked || match rs.exclusive {
        Some(e) => e,
        None => false,
    }
}

/// The first of the tracks from `from` on at a path.
pub open spec fn track_at(list: Seq<Track>, path: Seq<char>, from: int) -> Option<usize>
    decreases list.len() - from,
{
    if from < 0 || from >= list.len() {
        None
    } else if list[from].path@ == path {
        Some(from as usize)
    } else {
        track_at(list, path, from + 1)
    }
}

/// The track to begin with when a session is taken up: where the last one ended,
/// or as it is.
pub fn resume_track(playlist: &Vec<Track>, rs: &ResumeState, current: usize) -> (r: usize)
    ensures
        r == found_or(track_at(playlist@, rs.track_path@, 0), current),
{
    let mut i: usize = 0;
    while i < playlist.len()
        invariant
            i <= playlist.len(),
            track_at(playlist@, rs.track_path@, i as int) == track_at(
                playlist@,
                rs.track_path@,
                0,
            ),
        decreases playlist.len() - i,
    {
        if playlist[i].path == rs.track_path {
            return i;
        }
        i = i + 1;
    }
    current
}

/// A name that is kept among names without duplicates is found at its own place.
proof fn lemma_finds_itself(names: Seq<Seq<char>>, i: int, from: int)
    requires
        names.no_duplicates(),
        0 <= from <= i < names.len(),
        names.len() <= usize::MAX,
    ensures
        place_of_name(names, names[i], false, from) == Some(i as usize),
    decreases i - from,
{
    if from < i {
        assert(names[from] != names[i]);
        lemma_finds_itself(names, i, from + 1);
    }
}

/// A session goes on with the track at which it was kept, wherever that track
/// stands in the playlist by then.
pub proof fn law_track_is_taken_up(playlist: Seq<Track>, place: int, from: int, current: usize)
    requires
        0 <= from <= place < playlist.len(),
        playlist.len() <= usize::MAX,
    ensures
        ({
            let r = found_or(track_at(playlist, playlist[place].path@, from), current);
            &&& r < playlist.len()
            &&& playlist[r as int].path@ == playlist[place].path@
        }),
    decreases place - from,
{
    if playlist[from].path@ != playlist[place].path@ {
        law_track_is_taken_up(playlist, place, from + 1, current);
    }
}

/// What a session keeps is what the next one has: a player with the same presets
/// gets back its volume, its balance, its mode of loudness and its choice of
/// presets.
pub proof fn law_session_is_taken_up(
    s: PlayerState,
    fresh: PlayerState,
    rs: ResumeState,
    eq: Seq<Seq<char>>,
    fx: Seq<Seq<char>>,
    cf: Seq<Seq<char>>,
)
    requires
        s.in_range(),
        eq.no_duplicates() && fx.no_duplicates(),
        eq.len() <= usize::MAX && fx.len() <= usize::MAX && cf.len() <= usize::MAX,
        s.eq_preset_index < eq.len() && s.effects_preset_index < fx.len(),
        s.crossfeed_preset_index < cf.len(),
        forall|i: int, j: int|
            0 <= i < j < cf.len() ==> !names_match(#[trigger] cf[i], #[trigger] cf[j], true),
        s.rg_mode <= 2,
        rs.volume == s.volume,
        rs.eq_preset@ == eq[s.eq_preset_index as int],
        rs.effects_preset@ == fx[s.effects_preset_index as int],
        text_view(rs.rg_mode) == Some(rg_word(RgMode::of(s.rg_mode))),
        text_view(rs.crossfeed_preset) == Some(cf[s.crossfeed_preset_index as int]),
        rs.balance == Some(s.balance),
    ensures
        ({
            let r = restored(fresh, rs, eq, fx, cf);
            &&& r.volume == s.volume
            &&& r.balance == s.balance
            &&& r.rg_mode == s.rg_mode
            &&& r.eq_preset_index == s.eq_preset_index
            &&& r.effects_preset_index == s.effects_preset_index
            &&& r.crossfeed_preset_index == s.crossfeed_preset_index
        }),
{
    lemma_finds_itself(eq, s.eq_preset_index as int, 0);
    lemma_finds_itself(fx, s.effects_preset_index as int, 0);
    lemma_place_of_name(
        cf,
        cf[s.crossfeed_preset_index as int],
        true,
        0,
        Some(s.crossfeed_preset_index),
    );
    reveal_strlit("track");
    reveal_strlit("album");
    reveal_strlit("off");
    assert("track"@[0] == 't' && "album"@[0] == 'a' && "off"@[0] == 'o');
}

/// Each mode of loudness is kept under its name in small letters.
pub proof fn law_modes_are_kept_by_name()
    ensures
        rg_word(RgMode::Track) == seq!['t', 'r', 'a', 'c', 'k'],
        rg_word(RgMode::Album) == seq!['a', 'l', 'b', 'u', 'm'],
        rg_word(RgMode::Off) == seq!['o', 'f', 'f'],
{
    reveal_strlit("track");
    reveal_strlit("album");
    reveal_strlit("off");
    assert("track"@ =~= seq!['t', 'r', 'a', 'c', 'k']);
    assert("album"@ =~= seq!['a', 'l', 'b', 'u', 'm']);
    assert("off"@ =~= seq!['o', 'f', 'f']);
}

/// What was not kept stays as it is, presets that are not there any more do, and nothing but
/// these settings is touched; a balance off the scale comes to its end.
pub proof fn law_what_was_not_kept_stays(
    s: PlayerState,
    rs: ResumeState,
    eq: Seq<Seq<char>>,
    fx: Seq<Seq<char>>,
    cf: Seq<Seq<char>>,
)
    requires
        eq.len() <= usize::MAX && fx.len() <= usize::MAX && cf.len() <= usize::MAX,
    ensures
        ({
            let r = restored(s, rs, eq, fx, cf);
            &&& !eq.contains(rs.eq_preset@) ==> r.eq_preset_index == s.eq_preset_index
            &&& eq.contains(rs.eq_preset@) ==> r.eq_preset_index < eq.len()
                && eq[r.eq_preset_index as int] == rs.eq_preset@
            &&& !fx.contains(rs.effects_preset@) ==> r.effects_preset_index
                == s.effects_preset_index
            &&& fx.contains(rs.effects_preset@) ==> r.effects_preset_index < fx.len()
                && fx[r.effects_preset_index as int] == rs.effects_preset@
            &&& rs.crossfeed_preset is None ==> r.crossfeed_preset_index
                == s.crossfeed_preset_index
            &&& rs.rg_mode is None ==> r.rg_mode == s.rg_mode
            &&& rs.balance is None ==> r.balance == s.balance
            &&& rs.balance matches Some(b) ==> {
                &&& b >= 100 ==> r.balance == 100
                &&& b <= -100 ==> r.balance == -100
                &&& -100 <= b <= 100 ==> r.balance == b
            }
            &&& r.volume == rs.volume
            &&& s == PlayerState {
                volume: s.volume,
                balance: s.balance,
                rg_mode: s.rg_mode,
                eq_preset_index: s.eq_preset_index,
                effects_preset_index: s.effects_preset_index,
                crossfeed_preset_index: s.crossfeed_preset_index,
                ..r
            }
        }),
{
    lemma_place_found(eq, rs.eq_preset@, 0);
    lemma_place_found(fx, rs.effects_preset@, 0);
}

/// A name is found where it stands, and only there.
proof fn lemma_place_found(names: Seq<Seq<char>>, name: Seq<char>, from: int)
    requires
        0 <= from <= names.len() <= usize::MAX,
        forall|k: int| 0 <= k < from ==> #[trigger] names[k] != name,
    ensures
        names.contains(name) <==> place_of_name(names, name, false, from) is Some,
        place_of_name(names, name, false, from) matches Some(i) ==> i < names.len()
            && names[i as int] == name,
    decreases names.len() - from,
{
    if from < names.len() && names[from] != name {
        lemma_place_found(names, name, from + 1);
    }
}

/// A session whose track is gone begins as it would without it.
pub proof fn law_lost_track_is_passed_over(
    playlist: Seq<Track>,
    path: Seq<char>,
    from: int,
    current: usize,
)
    requires
        0 <= from <= playlist.len(),
        forall|k: int| 0 <= k < playlist.len() ==> (#[trigger] playlist[k]).path@ != path,
    ensures
        found_or(track_at(playlist, path, from), current) == current,
    decreases playlist.len() - from,
{
    if from < playlist.len() {
        law_lost_track_is_passed_over(playlist, path, from + 1, current);
    }
}

} // verus!
