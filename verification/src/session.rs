//! A session from its banner to its end: what is played next, and when the
//! output or the decoder has to be set up again.
use vstd::prelude::*;

use crate::audio::Platform;
use crate::metadata::{reindexed, MetadataCache};
use crate::playlist::{
    dedup_tracks, first_of_each, has_text, maybe_shuffled, paths_of, shuffle_tracks_from,
    tells_apart, track_paths,
};
use crate::screen::{show_unless, shown_unless};
use crate::state::{PlayerState, UiState, UiView, RING_BUFFER_SIZE};
use crate::text::{
    contains, decimal, decimal_text, holds, lines, lines_of, repeat, repeated, texts,
};
use crate::track::Track;
use crate::ui::{clock, format_time, Key};

verus! {

/// What is told of the way a session plays: the order, and what differs from the
/// usual.
pub open spec fn info_label(
    shuffle: bool,
    repeat: bool,
    quality: bool,
    eq: Seq<char>,
    fx: Seq<char>,
    crossfade: u32,
    cf: Seq<char>,
    balance: int,
) -> Seq<char> {
    (if shuffle {
        "shuffle"@
    } else {
        "sequential"@
    }) + (if repeat {
        " | repeat"@
    } else {
        ""@
    }) + (if quality {
        " | HQ"@
    } else {
        ""@
    }) + shown_unless(eq, "Flat"@, " | EQ: "@) + shown_unless(fx, "None"@, " | FX: "@) + (
    if crossfade > 0 {
        " | xfade: "@ + decimal(crossfade as nat) + "s"@
    } else {
        ""@
    }) + shown_unless(cf, "Off"@, " | crossfeed: "@) + (if balance < 0 {
        " | bal: L"@ + decimal((-balance) as nat) + "%"@
    } else if balance > 0 {
        " | bal: R"@ + decimal(balance as nat) + "%"@
    } else {
        ""@
    })
}

/// What is told of the way a session plays.
pub fn info_text(
    shuffle: bool,
    repeats: bool,
    quality: bool,
    eq_name: &str,
    fx_name: &str,
    crossfade_secs: u32,
    cf_name: &str,
    balance: i32,
) -> (r: String)
    ensures
        r@ == info_label(
            shuffle,
            repeats,
            quality,
            eq_name@,
            fx_name@,
            crossfade_secs,
            cf_name@,
            balance as int,
        ),
{
    let mut out = if shuffle {
        "shuffle".to_string()
    } else {
        "sequential".to_string()
    };
    out.append(
        if repeats {
            " | repeat"
        } else {
            ""
        },
    );
    out.append(
        if quality {
            " | HQ"
        } else {
            ""
        },
    );
    show_unless(&mut out, eq_name, "Flat", " | EQ: ");
    show_unless(&mut out, fx_name, "None", " | FX: ");
    let ghost front = out@;
    if crossfade_secs > 0 {
        out.append(" | xfade: ");
        out.append(decimal_text(crossfade_secs as u64).as_str());
        out.append("s");
        assert(out@ =~= front + (" | xfade: "@ + decimal(crossfade_secs as nat) + "s"@));
    } else {
        out.append("");
    }
    show_unless(&mut out, cf_name, "Off", " | crossfeed: ");
    let ghost front = out@;
    if balance < 0 {
        out.append(" | bal: L");
        out.append(decimal_text((-(balance as i64)) as u64).as_str());
        out.append("%");
        assert(out@ =~= front + (" | bal: L"@ + decimal((-balance) as nat) + "%"@));
    } else if balance > 0 {
        out.append(" | bal: R");
        out.append(decimal_text(balance as u64).as_str());
        out.append("%");
        assert(out@ =~= front + (" | bal: R"@ + decimal(balance as nat) + "%"@));
    } else {
        out.append("");
    }
    out
}

/// The frame of the banner with what is told of the session; the line is filled
/// up to the frame by bytes.
pub open spec fn frame_of(info: Seq<char>) -> Seq<char> {
    let bytes = vstd::utf8::encode_utf8(info).len();
    let pad = if bytes + 2 > 57 {
        0
    } else {
        (57 - bytes - 2) as nat
    };
    "╔"@ + repeated('═', 57) + "╗\n║"@ + repeated(' ', 26) + "Keet"@ + repeated(' ', 27)
        + "║\n╠"@ + repeated('═', 57) + "╣\n║  "@ + info + repeated(' ', pad) + "║\n╚"@
        + repeated('═', 57) + "╝\n"@
}

/// The frame of the banner with what is told of the session.
pub fn banner_frame(info: &str) -> (r: String)
    ensures
        r@ == frame_of(info@),
{
    let used: usize = info.as_bytes().len().saturating_add(2);
    let pad: usize = if used > 57 {
        0
    } else {
        57 - used
    };
    let mut out = "╔".to_string();
    out.append(repeat('═', 57).as_str());
    out.append("╗\n║");
    out.append(repeat(' ', 26).as_str());
    out.append("Keet");
    out.append(repeat(' ', 27).as_str());
    out.append("║\n╠");
    out.append(repeat('═', 57).as_str());
    out.append("╣\n║  ");
    out.append(info);
    out.append(repeat(' ', pad).as_str());
    out.append("║\n╚");
    out.append(repeat('═', 57).as_str());
    out.append("╝\n");
    out
}

/// What the banner tells of the output: its device, the rate of a wireless one,
/// and how it begins.
pub open spec fn output_label(device: Seq<char>, wireless: Option<u32>, rate: u32, channels: u16) -> Seq<
    char,
> {
    "\nDevice: "@ + device + "\n"@ + (match wireless {
        Some(r) => "Bluetooth device detected, using native "@ + decimal(r as nat) + "Hz\n"@,
        None => ""@,
    }) + "Initial output: "@ + decimal(rate as nat) + "Hz (device default: "@ + decimal(
        channels as nat,
    ) + "ch)\n"@
}

/// What the banner tells of the output.
pub fn output_text(device: &str, wireless: Option<u32>, rate: u32, channels: u16) -> (r: String)
    ensures
        r@ == output_label(device@, wireless, rate, channels),
{
    let mut out = "\nDevice: ".to_string();
    out.append(device);
    out.append("\n");
    let ghost front = out@;
    match wireless {
        Some(r) => {
            out.append("Bluetooth device detected, using native ");
            out.append(decimal_text(r as u64).as_str());
            out.append("Hz\n");
            assert(out@ =~= front + ("Bluetooth device detected, using native "@ + decimal(
                r as nat,
            ) + "Hz\n"@));
        },
        None => out.append(""),
    }
    out.append("Initial output: ");
    out.append(decimal_text(rate as u64).as_str());
    out.append("Hz (device default: ");
    out.append(decimal_text(channels as u64).as_str());
    out.append("ch)\n");
    out
}

/// The lines of a banner.
pub fn banner_line_count(banner: &str) -> (r: usize)
    ensures
        r == lines_of(banner@).len(),
{
    let all = lines(banner);
    assert(texts(all@).len() == all.len());
    all.len()
}

/// What is told of a track: its length, its depth, its channels, and its rate
/// with the one that it is played at.
pub open spec fn track_label(secs: nat, bits: nat, channels: nat, rate: nat, played: nat) -> Seq<char> {
    clock(secs) + " • "@ + decimal(bits) + "bit "@ + (if channels == 1 {
        "mono"@
    } else if channels == 2 {
        "stereo"@
    } else {
        decimal(channels) + "ch"@
    }) + " • "@ + (if rate != played {
        decimal(rate) + "→"@ + decimal(played) + "Hz"@
    } else {
        decimal(rate) + "Hz"@
    })
}

/// What is told of the track that is playing at this rate.
pub fn track_info(s: &PlayerState, stream_rate: u32) -> (r: String)
    ensures
        r@ == track_label(
            s.duration().floor(),
            s.bits_per_sample as nat,
            s.channels as nat,
            (s.sample_rate as u32) as nat,
            stream_rate as nat,
        ),
{
    let rate: u32 = #[verifier::truncate]
    (s.sample_rate as u32);
    let mut out = format_time(s.total_secs().whole());
    out.append(" • ");
    out.append(decimal_text(s.bits_per_sample as u64).as_str());
    out.append("bit ");
    let ghost front = out@;
    if s.channels == 1 {
        out.append("mono");
    } else if s.channels == 2 {
        out.append("stereo");
    } else {
        out.append(decimal_text(s.channels as u64).as_str());
        out.append("ch");
        assert(out@ =~= front + (decimal(s.channels as nat) + "ch"@));
    }
    out.append(" • ");
    let ghost front = out@;
    if rate != stream_rate {
        out.append(decimal_text(rate as u64).as_str());
        out.append("→");
        out.append(decimal_text(stream_rate as u64).as_str());
        out.append("Hz");
        assert(out@ =~= front + (decimal(rate as nat) + "→"@ + decimal(stream_rate as nat)
            + "Hz"@));
    } else {
        out.append(decimal_text(rate as u64).as_str());
        out.append("Hz");
        assert(out@ =~= front + (decimal(rate as nat) + "Hz"@));
    }
    out
}

/// A way in which an output can run: its channels and the range of its rates.
#[derive(Clone, Copy, Debug, PartialEq, Eq, Structural)]
pub struct OutputRange {
    pub channels: u16,
    pub min_rate: u32,
    pub max_rate: u32,
}

/// Whether an output can run in stereo at a rate.
pub open spec fn runs_stereo_at(ranges: Seq<OutputRange>, rate: u32) -> bool {
    exists|i: int|
        0 <= i < ranges.len() && (#[trigger] ranges[i]).channels == 2 && ranges[i].min_rate <= rate
            <= ranges[i].max_rate
}

/// The rate that a stereo stream gets: the device's where it can run so, else
/// its usual one, else 48 kHz.
pub fn choose_stream_rate(ranges: &Vec<OutputRange>, actual: u32, usual: Option<u32>) -> (r: u32)
    ensures
        r == (if runs_stereo_at(ranges@, actual) {
            actual
        } else {
            match usual {
                Some(u) => u,
                None => 48000,
            }
        }),
{
    let mut i: usize = 0;
    while i < ranges.len()
        invariant
            i <= ranges.len(),
            forall|k: int|
                0 <= k < i ==> !((#[trigger] ranges@[k]).channels == 2 && ranges@[k].min_rate
                    <= actual <= ranges@[k].max_rate),
        decreases ranges.len() - i,
    {
        let range = ranges[i];
        if range.channels == 2 && range.min_rate <= actual && actual <= range.max_rate {
            assert(ranges@[i as int].channels == 2);
            assert(runs_stereo_at(ranges@, actual));
            return actual;
        }
        i = i + 1;
    }
    match usual {
        Some(u) => u,
        None => 48000,
    }
}

/// The size of the output's buffer in frames, where the usual one is too small:
/// on Windows, and on Linux inside it, which the version of the system tells.
pub fn output_buffer(platform: Platform, version: Option<&str>) -> (r: Option<u32>)
    ensures
        r == ({
            let inside = match version {
                Some(v) => holds(v@, "microsoft"@) || holds(v@, "WSL"@),
                None => false,
            };
            if platform is Windows || (platform is Linux && inside) {
                Some(2048u32)
            } else {
                None
            }
        }),
{
    match platform {
        Platform::Windows => Some(2048),
        Platform::Linux => match version {
            Some(v) => if contains(v, "microsoft") || contains(v, "WSL") {
                Some(2048)
            } else {
                None
            },
            None => None,
        },
        _ => None,
    }
}

/// The rate for a track of this rate on a device that runs at `largest` at most.
pub fn target_rate(next: u32, largest: u32) -> (r: u32)
    ensures
        r == (if next < largest {
            next
        } else {
            largest
        }),
{
    if next < largest {
        next
    } else {
        largest
    }
}

/// Lists one behind the other.
pub open spec fn joined_lists(lists: Seq<Vec<Track>>, n: int) -> Seq<Track>
    decreases n,
{
    if n <= 0 {
        Seq::empty()
    } else {
        joined_lists(lists, n - 1) + lists[n - 1]@
    }
}

/// What was read of the sources that a session begins with: the lists of those that
/// could be read, and the places of the others with the reasons.
pub struct SourcesRead {
    pub lists: Vec<Vec<Track>>,
    pub skipped: Vec<(usize, String)>,
}

/// The lists of those of the first `n` sources that could be read.
pub open spec fn lists_read(scans: Seq<Result<Vec<Track>, String>>, n: int) -> Seq<Seq<Track>>
    decreases n,
{
    if n <= 0 {
        Seq::empty()
    } else {
        match scans[n - 1] {
            Ok(list) => lists_read(scans, n - 1).push(list@),
            Err(_) => lists_read(scans, n - 1),
        }
    }
}

/// The places of those of the first `n` sources that could not be read, and the reasons.
pub open spec fn scans_failed(scans: Seq<Result<Vec<Track>, String>>, n: int) -> Seq<
    (usize, Seq<char>),
>
    decreases n,
{
    if n <= 0 {
        Seq::empty()
    } else {
        match scans[n - 1] {
            Ok(_) => scans_failed(scans, n - 1),
            Err(why) => scans_failed(scans, n - 1).push(((n - 1) as usize, why@)),
        }
    }
}

/// The tracks of lists.
pub open spec fn list_views(lists: Seq<Vec<Track>>) -> Seq<Seq<Track>> {
    lists.map_values(|l: Vec<Track>| l@)
}

/// The places and texts of reasons.
pub open spec fn reason_views(reasons: Seq<(usize, String)>) -> Seq<(usize, Seq<char>)> {
    reasons.map_values(|r: (usize, String)| (r.0, r.1@))
}

/// What is made of the scans of the sources that a session begins with: it fails where
/// the only source does; else sources that could not be read are skipped.
pub fn read_sources(scans: Vec<Result<Vec<Track>, String>>) -> (r: Result<SourcesRead, String>)
    ensures
        r is Err <==> scans.len() == 1 && scans@[0] is Err,
        r matches Err(why) ==> why@ == scans@[0]->Err_0@,
        r matches Ok(read) ==> {
            &&& list_views(read.lists@) == lists_read(scans@, scans.len() as int)
            &&& reason_views(read.skipped@) == scans_failed(scans@, scans.len() as int)
        },
{
    if scans.len() == 1 {
        if let Err(why) = &scans[0] {
            return Err(why.clone());
        }
    }
    let mut lists: Vec<Vec<Track>> = Vec::new();
    let mut skipped: Vec<(usize, String)> = Vec::new();
    let mut i: usize = 0;
    assert(list_views(lists@) =~= lists_read(scans@, 0));
    assert(reason_views(skipped@) =~= scans_failed(scans@, 0));
    while i < scans.len()
        invariant
            i <= scans.len(),
            list_views(lists@) == lists_read(scans@, i as int),
            reason_views(skipped@) == scans_failed(scans@, i as int),
        decreases scans.len() - i,
    {
        let ghost (lists0, skipped0) = (lists@, skipped@);
        match &scans[i] {
            Ok(list) => {
                let copy = copied(list);
                lists.push(copy);
                assert(list_views(lists@) =~= list_views(lists0).push(list@));
            },
            Err(why) => {
                skipped.push((i, why.clone()));
                assert(reason_views(skipped@) =~= reason_views(skipped0).push((i, why@)));
            },
        }
        i = i + 1;
    }
    Ok(SourcesRead { lists, skipped })
}

fn copied(list: &Vec<Track>) -> (r: Vec<Track>)
    ensures
        r@ == list@,
{
    let mut out: Vec<Track> = Vec::new();
    while out.len() < list.len()
        invariant
            out.len() <= list.len(),
            out@ == list@.take(out.len() as int),
        decreases list.len() - out.len(),
    {
        let i = out.len();
        out.push(list[i].clone());
        assert(list@.take(i as int).push(list@[i as int]) =~= list@.take(i + 1));
    }
    assert(list@.take(out.len() as int) =~= list@);
    out
}

/// The tracks of several sources, one behind the other.
pub fn combine(lists: &Vec<Vec<Track>>) -> (r: Vec<Track>)
    ensures
        r@ == joined_lists(lists@, lists.len() as int),
{
    let mut out: Vec<Track> = Vec::new();
    let mut i: usize = 0;
    while i < lists.len()
        invariant
            i <= lists.len(),
            out@ == joined_lists(lists@, i as int),
        decreases lists.len() - i,
    {
        let one = &lists[i];
        let ghost before = out@;
        let mut k: usize = 0;
        assert(before + one@.take(0) =~= before);
        while k < one.len()
            invariant
                k <= one.len(),
                out@ == before + one@.take(k as int),
            decreases one.len() - k,
        {
            out.push(one[k].clone());
            assert(out@ =~= before + one@.take(k + 1));
            k = k + 1;
        }
        assert(one@.take(k as int) =~= one@);
        i = i + 1;
    }
    out
}

/// The playlist that a session begins with: of the tracks at one place the
/// first, shuffled where there is a seed. None where there are no tracks.
pub fn first_playlist(list: &Vec<Track>, keys: &Vec<String>, seed: Option<u64>) -> (r: Option<
    Vec<Track>,
>)
    requires
        list.len() == keys.len(),
    ensures
        r is None <==> list.len() == 0,
        r matches Some(v) ==> v@ == maybe_shuffled(first_of_each(list@, texts(keys@)), seed),
{
    if list.len() == 0 {
        return None;
    }
    let mut out = dedup_tracks(list, keys);
    match seed {
        Some(s) => shuffle_tracks_from(&mut out, s),
        None => {},
    }
    Some(out)
}

/// The tracks whose keys are not among those that were removed.
pub open spec fn not_removed(list: Seq<Track>, keys: Seq<Seq<char>>, removed: Seq<Seq<char>>) -> Seq<
    Track,
>
    decreases keys.len(),
{
    if keys.len() == 0 {
        Seq::empty()
    } else {
        let front = not_removed(list.drop_last(), keys.drop_last(), removed);
        if removed.contains(keys.last()) {
            front
        } else {
            front.push(list.last())
        }
    }
}

fn drop_removed(list: &Vec<Track>, keys: &Vec<String>, removed: &Vec<String>) -> (r: Vec<Track>)
    requires
        list.len() == keys.len(),
    ensures
        r@ == not_removed(list@, texts(keys@), texts(removed@)),
{
    let mut out: Vec<Track> = Vec::new();
    let mut i: usize = 0;
    while i < list.len()
        invariant
            i <= list.len() == keys.len(),
            out@ == not_removed(list@.take(i as int), texts(keys@).take(i as int), texts(removed@)),
        decreases list.len() - i,
    {
        let ghost ks = texts(keys@).take(i + 1);
        let ghost ts = list@.take(i + 1);
        assert(ks.drop_last() =~= texts(keys@).take(i as int));
        assert(ts.drop_last() =~= list@.take(i as int));
        assert(ks.last() == keys@[i as int]@);
        if !has_text(removed, &keys[i]) {
            out.push(list[i].clone());
        }
        i = i + 1;
    }
    assert(list@.take(i as int) =~= list@);
    assert(texts(keys@).take(i as int) =~= texts(keys@));
    out
}

/// The keys, each once.
fn dedup_keys(keys: &Vec<String>) -> (r: Vec<String>)
    ensures
        texts(r@) == first_of_each(texts(keys@), texts(keys@)),
{
    let mut out: Vec<String> = Vec::new();
    let ghost all = texts(keys@);
    let mut i: usize = 0;
    assert(texts(out@) =~= Seq::<Seq<char>>::empty());
    while i < keys.len()
        invariant
            all == texts(keys@),
            i <= keys.len(),
            texts(out@) == first_of_each(all.take(i as int), all.take(i as int)),
        decreases keys.len() - i,
    {
        let ghost ks = all.take(i + 1);
        assert(ks.drop_last() =~= all.take(i as int));
        assert(ks.last() == keys@[i as int]@);
        proof {
            crate::playlist::law_no_duplicates(all.take(i as int));
        }
        let ghost before = texts(out@);
        if !has_text(&out, &keys[i]) {
            out.push(keys[i].clone());
            assert(texts(out@) =~= before.push(ks.last()));
        }
        i = i + 1;
    }
    assert(all.take(i as int) =~= all);
    out
}

/// As many elements are kept of the tracks as of their keys.
proof fn lemma_kept_lengths(list: Seq<Track>, keys: Seq<Seq<char>>)
    requires
        list.len() == keys.len(),
    ensures
        first_of_each(list, keys).len() == first_of_each(keys, keys).len(),
    decreases keys.len(),
{
    if keys.len() > 0 {
        lemma_kept_lengths(list.drop_last(), keys.drop_last());
    }
}

/// The playlist of the next round. Folders were scanned anew and gave `fresh`,
/// with its keys: where they gave anything, of the tracks at one place the first
/// stays, and none that was removed comes back. Without folders the playlist
/// stays, without those that were removed.
pub open spec fn next_round(
    playlist: Seq<Track>,
    keys: Seq<Seq<char>>,
    removed: Seq<Seq<char>>,
    fresh: Option<(Seq<Track>, Seq<Seq<char>>)>,
    seed: Option<u64>,
) -> Seq<Track> {
    match fresh {
        Some((list, list_keys)) => if list.len() == 0 {
            playlist
        } else {
            maybe_shuffled(
                not_removed(
                    first_of_each(list, list_keys),
                    first_of_each(list_keys, list_keys),
                    removed,
                ),
                seed,
            )
        },
        None => maybe_shuffled(not_removed(playlist, keys, removed), seed),
    }
}

/// Fresh tracks and their keys, with texts as characters.
pub open spec fn fresh_view(f: Option<(Vec<Track>, Vec<String>)>) -> Option<
    (Seq<Track>, Seq<Seq<char>>),
> {
    match f {
        Some((list, keys)) => Some((list@, texts(keys@))),
        None => None,
    }
}

/// Whether a round may have another number of tracks: folders gave any, or tracks
/// were removed.
pub open spec fn counts_anew(
    removed: Seq<Seq<char>>,
    fresh: Option<(Seq<Track>, Seq<Seq<char>>)>,
) -> bool {
    match fresh {
        Some((list, _)) => list.len() > 0,
        None => removed.len() > 0,
    }
}

/// Begins the next round of a playlist that repeats.
pub fn begin_round(
    s: &mut PlayerState,
    ui: &mut UiState,
    cache: &mut MetadataCache,
    playlist: &mut Vec<Track>,
    keys: &Vec<String>,
    fresh: Option<(Vec<Track>, Vec<String>)>,
    seed: Option<u64>,
)
    requires
        old(playlist).len() == keys.len(),
        fresh matches Some((list, list_keys)) ==> list.len() == list_keys.len(),
    ensures
        final(playlist)@ == next_round(
            old(playlist)@,
            texts(keys@),
            old(ui)@.removed,
            fresh_view(fresh),
            seed,
        ),
        final(ui)@ == (UiView { current: 0, ..old(ui)@ }),
        *final(s) == (PlayerState {
            total_tracks: if counts_anew(old(ui)@.removed, fresh_view(fresh)) {
                final(playlist).len()
            } else {
                old(s).total_tracks
            },
            ..*old(s)
        }),
        final(cache).cancel == old(cache).cancel,
        exists|ids: Seq<usize>| #[trigger]
            tells_apart(paths_of(old(playlist)@) + paths_of(final(playlist)@), ids)
                && final(cache).entries@ == reindexed(
                old(cache).entries@,
                ids.skip(old(playlist).len() as int),
                ids.take(old(playlist).len() as int),
            ),
{
    let old_paths = track_paths(playlist);
    assert(old_paths.len() == texts(old_paths@).len());
    let counts = match &fresh {
        Some((list, _)) => list.len() > 0,
        None => ui.removed_paths.len() > 0,
    };
    assert(texts(ui.removed_paths@).len() == ui.removed_paths.len());
    match fresh {
        Some((list, list_keys)) => {
            if list.len() > 0 {
                let kept = dedup_tracks(&list, &list_keys);
                let kept_keys = dedup_keys(&list_keys);
                proof {
                    lemma_kept_lengths(list@, texts(list_keys@));
                    assert(texts(kept_keys@).len() == kept_keys.len());
                }
                let mut next = drop_removed(&kept, &kept_keys, &ui.removed_paths);
                shuffle_maybe(&mut next, seed);
                *playlist = next;
            }
        },
        None => {
            let mut next = drop_removed(playlist, keys, &ui.removed_paths);
            shuffle_maybe(&mut next, seed);
            *playlist = next;
        },
    }
    if counts {
        s.total_tracks = playlist.len();
    }
    let new_paths = track_paths(playlist);
    cache.reindex(&new_paths, &old_paths);
    ui.current = 0;
}

fn shuffle_maybe(list: &mut Vec<Track>, seed: Option<u64>)
    ensures
        final(list)@ == maybe_shuffled(old(list)@, seed),
{
    match seed {
        Some(s) => shuffle_tracks_from(list, s),
        None => {},
    }
}

/// A track that was removed does not come back in a later round.
pub proof fn law_removed_stays_away(
    list: Seq<Track>,
    keys: Seq<Seq<char>>,
    removed: Seq<Seq<char>>,
    i: int,
)
    requires
        list.len() == keys.len(),
        0 <= i < list.len(),
        forall|a: int, b: int| 0 <= a < b < list.len() ==> list[a] != list[b],
    ensures
        not_removed(list, keys, removed).contains(list[i]) <==> !removed.contains(keys[i]),
    decreases list.len(),
{
    let front = not_removed(list.drop_last(), keys.drop_last(), removed);
    let all = not_removed(list, keys, removed);
    lemma_kept_subset(list.drop_last(), keys.drop_last(), removed);
    if i == list.len() - 1 {
        if front.contains(list[i]) {
            assert(list.drop_last().contains(list[i]));
            let k = choose|k: int| 0 <= k < list.len() - 1 && list.drop_last()[k] == list[i];
            assert(list[k] == list[i]);
        }
        if !removed.contains(keys[i]) {
            assert(all[front.len() as int] == list[i]);
        }
    } else {
        law_removed_stays_away(list.drop_last(), keys.drop_last(), removed, i);
        assert(list.drop_last()[i] == list[i]);
        if front.contains(list[i]) {
            let k = choose|k: int| 0 <= k < front.len() && front[k] == list[i];
            assert(all[k] == list[i]);
        }
        if all.contains(list[i]) && !front.contains(list[i]) {
            let k = choose|k: int| 0 <= k < all.len() && all[k] == list[i];
            if k < front.len() {
                assert(front[k] == list[i]);
            }
            assert(list[i] == list[list.len() - 1]);
        }
    }
}

proof fn lemma_kept_subset(list: Seq<Track>, keys: Seq<Seq<char>>, removed: Seq<Seq<char>>)
    requires
        list.len() == keys.len(),
    ensures
        forall|t: Track| not_removed(list, keys, removed).contains(t) ==> list.contains(t),
    decreases list.len(),
{
    if list.len() > 0 {
        lemma_kept_subset(list.drop_last(), keys.drop_last(), removed);
        let front = not_removed(list.drop_last(), keys.drop_last(), removed);
        let all = not_removed(list, keys, removed);
        assert forall|t: Track| all.contains(t) implies list.contains(t) by {
            let k = choose|k: int| 0 <= k < all.len() && all[k] == t;
            if k < front.len() {
                assert(front[k] == t);
                assert(front.contains(t));
                assert(list.drop_last().contains(t));
                let j = choose|j: int| 0 <= j < list.len() - 1 && list.drop_last()[j] == t;
                assert(list[j] == t);
            } else {
                assert(list[list.len() - 1] == t);
            }
        }
    }
}

/// What is played next.
#[derive(Clone, Copy, Debug, PartialEq, Eq, Structural)]
pub enum Next {
    /// Leave the program.
    Quit,
    /// Begin the playlist again.
    Round,
    /// Wait for something to play.
    Idle,
    /// Play the track at this place.
    Track(usize),
}

/// What is played next: behind the end of the playlist it begins again where it
/// repeats, else the player waits.
pub open spec fn next_of(s: PlayerState, u: UiView, len: nat) -> Next {
    if s.quit {
        Next::Quit
    } else if u.current >= len {
        if u.repeat {
            Next::Round
        } else {
            Next::Idle
        }
    } else {
        Next::Track(u.current)
    }
}

/// What is played next; a player that waits is idle.
pub fn whats_next(s: &PlayerState, ui: &mut UiState, len: usize) -> (r: Next)
    ensures
        r == next_of(*s, old(ui)@, len as nat),
        final(ui)@ == (if r is Idle {
            UiView { session_idle: true, ..old(ui)@ }
        } else {
            old(ui)@
        }),
{
    if s.should_quit() {
        return Next::Quit;
    }
    if ui.current >= len {
        if ui.repeat {
            return Next::Round;
        }
        ui.session_idle = true;
        return Next::Idle;
    }
    Next::Track(ui.current)
}

/// The player before a decoder starts at a track: nothing is known of the track
/// yet, and no request or error is left.
pub open spec fn before_decoder(s: PlayerState, current: usize) -> PlayerState {
    PlayerState {
        current_track: current,
        producer_done: false,
        track_info_ready: false,
        skip_next: false,
        skip_prev: false,
        buffer_level: 0,
        decode_error: None,
        ..s
    }
}

/// Makes the player ready for a decoder that starts at a track.
pub fn prepare_decoder(s: &mut PlayerState, current: usize)
    ensures
        *final(s) == before_decoder(*old(s), current),
{
    s.current_track = current;
    s.producer_done = false;
    s.track_info_ready = false;
    s.skip_next = false;
    s.skip_prev = false;
    s.buffer_level = 0;
    s.decode_error = None;
}

/// Whether the player still waits for a track to begin: until it is known and the
/// ring is a quarter full, unless the decoder has ended or the program does.
pub fn still_filling(s: &PlayerState) -> (r: bool)
    ensures
        r == ((!s.track_info_ready || s.buffer_level < RING_BUFFER_SIZE / 4) && !s.producer_done
            && !s.quit),
{
    (!s.track_info_ready || s.buffer_level < RING_BUFFER_SIZE / 4) && !s.producer_done
        && !s.should_quit()
}

/// Whether the decoder ended without a track that it could play.
pub fn failed_to_start(s: &PlayerState) -> (r: bool)
    ensures
        r == (s.producer_done && !s.track_info_ready),
{
    s.producer_done && !s.track_info_ready
}

/// Goes on behind a track that could not be played.
pub fn skip_failed(ui: &mut UiState)
    requires
        old(ui)@.current < usize::MAX,
    ensures
        final(ui)@ == (UiView { current: (old(ui)@.current + 1) as usize, ..old(ui)@ }),
{
    ui.current = ui.current + 1;
}

/// Whether the rate of the output can be changed: what was decoded is played, or nobody
/// waits for it.
pub fn ready_for_rate(s: &PlayerState) -> (r: bool)
    ensures
        r == (s.buffer_level == 0 || s.quit || s.paused),
{
    s.buffer_level == 0 || s.should_quit() || s.is_paused()
}

/// Goes to the position at which the last session ended, the first time that a
/// track begins.
pub fn resume_position(s: &mut PlayerState, position: &mut i64)
    ensures
        *final(position) == (if *old(position) > 0 {
            0
        } else {
            *old(position)
        }),
        *final(s) == (if *old(position) > 0 {
            old(s).after_seek(*old(position))
        } else {
            *old(s)
        }),
{
    if *position > 0 {
        s.seek(*position);
        *position = 0;
    }
}

/// The length of a track in whole seconds, for a search of its lyrics; none where
/// it is not known.
pub fn duration_hint(s: &PlayerState) -> (r: Option<u32>)
    ensures
        r == (if s.duration().num == 0 {
            None
        } else if s.duration().floor() > u32::MAX {
            Some(u32::MAX)
        } else {
            Some(s.duration().floor() as u32)
        }),
{
    let total = s.total_secs();
    if total.num == 0 {
        return None;
    }
    let secs = total.whole();
    if secs > u32::MAX as u64 {
        Some(u32::MAX)
    } else {
        Some(secs as u32)
    }
}

/// Where the decoder goes when it has moved on in a playlist that was changed:
/// the track that took the place of a removed one, else the one behind the
/// current one, as far as the playlist goes.
pub open spec fn fresh_target(u: UiView, len: nat) -> usize {
    if u.current_track_removed {
        u.current
    } else if u.current + 1 < len {
        (u.current + 1) as usize
    } else if len == 0 {
        0
    } else {
        (len - 1) as usize
    }
}

/// The interface when the decoder has moved on.
pub open spec fn moved_ui(u: UiView, len: nat, index: usize) -> UiView {
    let settled = if u.playlist_dirty {
        UiView { playlist_dirty: false, current_track_removed: false, ..u }
    } else {
        u
    };
    if index < len {
        UiView {
            current: index,
            lyrics_scroll: 0,
            lyrics_auto_scroll: true,
            ..settled
        }
    } else {
        settled
    }
}

/// The player when the decoder has moved on: in a playlist that was changed it is
/// asked to start afresh.
pub open spec fn moved_state(s: PlayerState, u: UiView, len: nat) -> PlayerState {
    let index = s.producer_track_index;
    let asked = if u.playlist_dirty {
        s.after_jump_to(fresh_target(u, len))
    } else {
        s
    };
    if index < len {
        PlayerState { current_track: index, ..asked }
    } else {
        asked
    }
}

/// Follows the decoder to another track; `last` counts the moves that were seen.
/// Gives the place of the track that is heard now, where it has changed.
pub fn follow_decoder(s: &mut PlayerState, ui: &mut UiState, len: usize, last: &mut usize) -> (r:
    Option<usize>)
    requires
        old(ui).current < usize::MAX,
    ensures
        *final(last) == old(s).track_transition_count,
        *old(last) == old(s).track_transition_count ==> r is None && *final(s) == *old(s)
            && final(ui)@ == old(ui)@,
        *old(last) != old(s).track_transition_count ==> {
            &&& *final(s) == moved_state(*old(s), old(ui)@, len as nat)
            &&& final(ui)@ == moved_ui(old(ui)@, len as nat, old(s).producer_track_index)
            &&& r == if old(s).producer_track_index < len {
                Some(old(s).producer_track_index)
            } else {
                None
            }
        },
{
    if s.track_transition_count == *last {
        return None;
    }
    *last = s.track_transition_count;
    let index = s.producer_track_index;
    if ui.playlist_dirty {
        let target: usize = if ui.current_track_removed {
            ui.current
        } else if ui.current + 1 < len {
            ui.current + 1
        } else if len == 0 {
            0
        } else {
            len - 1
        };
        ui.playlist_dirty = false;
        ui.current_track_removed = false;
        s.jump_to(target);
    }
    if index < len {
        ui.current = index;
        ui.lyrics_scroll = 0;
        ui.lyrics_auto_scroll = true;
        note_current(s, index);
        Some(index)
    } else {
        None
    }
}

fn note_current(s: &mut PlayerState, index: usize)
    ensures
        *final(s) == (PlayerState { current_track: index, ..*old(s) }),
{
    s.current_track = index;
}

/// What a playing session has to do.
#[derive(Clone, Copy, Debug, PartialEq, Eq, Structural)]
pub enum Turn {
    /// Let the decoder end, and start it at another track.
    Restart,
    /// Let the decoder end, and set the output to another rate.
    ChangeRate,
    /// Find another output.
    Recover,
    /// The playlist is over.
    Finished,
    /// Go on.
    GoOn,
}

/// Whether everything was decoded and heard.
pub open spec fn is_finished(s: PlayerState) -> bool {
    s.producer_done && s.buffer_level == 0
}

/// What a playing session has to do: requests come first, then the rate, then a
/// lost output, then the end.
pub open spec fn turn_of(s: PlayerState) -> Turn {
    if s.skip_prev || s.jump_to_track >= 0 {
        Turn::Restart
    } else if s.rate_change_needed {
        Turn::ChangeRate
    } else if s.stream_error {
        Turn::Recover
    } else if is_finished(s) {
        Turn::Finished
    } else {
        Turn::GoOn
    }
}

/// The player when the turn was taken.
pub open spec fn after_turn(s: PlayerState) -> PlayerState {
    match turn_of(s) {
        Turn::ChangeRate => PlayerState { rate_change_needed: false, ..s },
        Turn::Recover => PlayerState { stream_error: false, ..s },
        _ => s,
    }
}

/// What a playing session has to do.
pub fn take_turn(s: &mut PlayerState) -> (r: Turn)
    ensures
        r == turn_of(*old(s)),
        *final(s) == after_turn(*old(s)),
{
    if s.skip_prev || s.jump_to_track >= 0 {
        return Turn::Restart;
    }
    if s.rate_change_needed {
        s.rate_change_needed = false;
        return Turn::ChangeRate;
    }
    if s.stream_error {
        s.stream_error = false;
        return Turn::Recover;
    }
    if s.producer_done && s.buffer_level == 0 {
        Turn::Finished
    } else {
        Turn::GoOn
    }
}

/// Whether the playlist is over.
pub fn finished(s: &PlayerState) -> (r: bool)
    ensures
        r == is_finished(*s),
{
    s.producer_done && s.buffer_level == 0
}

/// The player when the decoder has ended for another track: what waits in the
/// ring is thrown away, and the request is taken.
pub open spec fn restarted_state(s: PlayerState, free: usize) -> PlayerState {
    let buffered = (RING_BUFFER_SIZE - free) as usize;
    let flushed = if buffered > 0 {
        PlayerState { discard_samples: buffered as u64, reset_consumer_counter: true, ..s }
    } else {
        s
    };
    if s.jump_to_track >= 0 {
        flushed.after_take_jump()
    } else {
        flushed.after_take_jump().after_take_skip_prev()
    }
}

/// The track to start at.
pub open spec fn restart_place(s: PlayerState, current: usize) -> usize {
    match s.wanted_track() {
        Some(target) => target,
        None => if s.skip_prev && current > 0 {
            (current - 1) as usize
        } else {
            current
        },
    }
}

/// Takes the request for another track, when the decoder has ended.
pub fn restart(s: &mut PlayerState, ui: &mut UiState, free: usize)
    requires
        free <= RING_BUFFER_SIZE,
    ensures
        *final(s) == restarted_state(*old(s), free),
        final(ui)@ == (UiView { current: restart_place(*old(s), old(ui)@.current), ..old(ui)@ }),
{
    let buffered: usize = RING_BUFFER_SIZE - free;
    if buffered > 0 {
        flush(s, buffered);
    }
    match s.take_jump() {
        Some(target) => {
            ui.current = target;
        },
        None => {
            if s.take_skip_prev() {
                if ui.current > 0 {
                    ui.current = ui.current - 1;
                }
            }
        },
    }
}

fn flush(s: &mut PlayerState, buffered: usize)
    ensures
        *final(s) == (PlayerState {
            discard_samples: buffered as u64,
            reset_consumer_counter: true,
            ..*old(s)
        }),
{
    s.discard_samples = buffered as u64;
    s.reset_consumer_counter = true;
}

/// Goes on at the track that needs the new rate of the output.
pub fn rate_changed(s: &mut PlayerState, ui: &mut UiState, len: usize, rate: u32)
    ensures
        *final(s) == (PlayerState { output_rate: rate as u64, ..*old(s) }),
        final(ui)@ == (UiView {
            current: if old(s).producer_track_index < len {
                old(s).producer_track_index
            } else {
                old(ui)@.current
            },
            ..old(ui)@
        }),
{
    s.output_rate = rate as u64;
    if s.producer_track_index < len {
        ui.current = s.producer_track_index;
    }
}

/// Behind its end a playlist is over: the current place moves there.
pub fn playlist_over(ui: &mut UiState, len: usize)
    ensures
        final(ui)@ == (UiView { current: len, ..old(ui)@ }),
{
    ui.current = len;
}

/// A playlist that has been heard to its end repeats or leaves the player idle,
/// and the program goes on until it is asked to quit.
pub proof fn law_end_of_playlist(s: PlayerState, u: UiView, len: nat)
    requires
        len <= usize::MAX,
        !s.quit,
    ensures
        next_of(s, UiView { current: len as usize, ..u }, len) == if u.repeat {
            Next::Round
        } else {
            Next::Idle
        },
{
}

/// A request for another track is taken once: after it, the next turn is not for
/// it again.
pub proof fn law_request_is_taken(s: PlayerState, free: usize)
    requires
        turn_of(s) is Restart,
        !(s.jump_to_track >= 0 && s.skip_prev),
    ensures
        turn_of(restarted_state(s, free)) !is Restart,
{
}

/// What a key does at the first start, where nothing is to be played yet.
#[derive(Clone, Copy, Debug, PartialEq, Eq, Structural)]
pub enum FirstKey {
    /// Leave the program.
    Leave,
    /// Ask for a path.
    Ask,
    /// Let a folder be picked.
    Pick,
    /// Nothing.
    Ignore,
}

/// What a key does at the first start. A folder can be picked only where the
/// system has a dialogue for it.
pub fn first_key(key: Key, platform: Platform) -> (r: FirstKey)
    ensures
        r == (match key {
            Key::Char('q') | Key::Esc => FirstKey::Leave,
            Key::Char('o') => FirstKey::Ask,
            Key::Char('p') => if platform is MacOs || platform is Windows {
                FirstKey::Pick
            } else {
                FirstKey::Ignore
            },
            _ => FirstKey::Ignore,
        }),
{
    match key {
        Key::Char('q') | Key::Esc => FirstKey::Leave,
        Key::Char('o') => FirstKey::Ask,
        Key::Char('p') => match platform {
            Platform::MacOs | Platform::Windows => FirstKey::Pick,
            _ => FirstKey::Ignore,
        },
        _ => FirstKey::Ignore,
    }
}

/// The track at the current place is played while that is inside the playlist and nobody
/// quits; quitting comes before everything.
pub proof fn law_current_track_is_played(s: PlayerState, u: UiView, len: nat)
    ensures
        s.quit ==> next_of(s, u, len) == Next::Quit,
        !s.quit && u.current < len ==> next_of(s, u, len) == Next::Track(u.current),
        !s.quit && u.current >= len && u.repeat ==> next_of(s, u, len) == Next::Round,
        !s.quit && u.current >= len && !u.repeat ==> next_of(s, u, len) == Next::Idle,
{
}

/// What a playing session does next: a request for another track comes before a change of
/// the rate, that before a lost output, and that before the end, which is when all that was
/// decoded was heard. A change of rate and a lost output are told once; requests stay.
pub proof fn law_turns_have_their_order(s: PlayerState)
    ensures
        s.skip_prev || s.jump_to_track >= 0 ==> turn_of(s) == Turn::Restart && after_turn(s) == s,
        !s.skip_prev && s.jump_to_track < 0 ==> {
            &&& s.rate_change_needed ==> turn_of(s) == Turn::ChangeRate && after_turn(s)
                == (PlayerState { rate_change_needed: false, ..s })
            &&& !s.rate_change_needed && s.stream_error ==> turn_of(s) == Turn::Recover
                && after_turn(s) == (PlayerState { stream_error: false, ..s })
            &&& !s.rate_change_needed && !s.stream_error ==> after_turn(s) == s && (turn_of(s)
                == Turn::Finished <==> s.producer_done && s.buffer_level == 0)
            &&& !s.rate_change_needed && !s.stream_error && !(s.producer_done && s.buffer_level
                == 0) ==> turn_of(s) == Turn::GoOn
        },
{
}

/// A request leads where it says: a jump to its track, the key for the track before one
/// place back, not in front of the first. What waits in the ring is thrown away, and the
/// request that was followed is taken.
pub proof fn law_restart_leads_there(s: PlayerState, current: usize, free: usize)
    requires
        free <= RING_BUFFER_SIZE,
        s.jump_to_track <= u32::MAX,
    ensures
        s.jump_to_track >= 0 ==> restart_place(s, current) == s.jump_to_track,
        s.jump_to_track < 0 && s.skip_prev && current > 0 ==> restart_place(s, current) == current
            - 1,
        s.jump_to_track < 0 && s.skip_prev && current == 0 ==> restart_place(s, current) == 0,
        s.jump_to_track < 0 && !s.skip_prev ==> restart_place(s, current) == current,
        restarted_state(s, free).jump_to_track < 0,
        s.jump_to_track >= 0 ==> restarted_state(s, free).skip_prev == s.skip_prev,
        s.jump_to_track < 0 ==> !restarted_state(s, free).skip_prev,
        free < RING_BUFFER_SIZE ==> restarted_state(s, free).discard_samples == RING_BUFFER_SIZE
            - free && restarted_state(s, free).reset_consumer_counter,
        free == RING_BUFFER_SIZE ==> restarted_state(s, free).discard_samples == s.discard_samples
            && restarted_state(s, free).reset_consumer_counter == s.reset_consumer_counter,
        restarted_state(s, free).volume == s.volume && restarted_state(s, free).paused == s.paused
            && restarted_state(s, free).quit == s.quit && restarted_state(s, free).skip_next
            == s.skip_next,
{
}

/// A decoder starts with nothing asked, nothing known of the track, nothing in the ring and
/// no error, at the track that is current; what the listener set stays.
pub proof fn law_decoder_starts_clean(s: PlayerState, current: usize)
    ensures
        ({
            let t = before_decoder(s, current);
            &&& t.current_track == current
            &&& !t.producer_done && !t.track_info_ready && !t.skip_next && !t.skip_prev
            &&& t.buffer_level == 0 && t.decode_error is None
            &&& t.volume == s.volume && t.paused == s.paused && t.quit == s.quit
            &&& t.jump_to_track == s.jump_to_track && t.seek_request == s.seek_request
            &&& t.samples_played == s.samples_played && t.output_rate == s.output_rate
        }),
{
}

/// When the decoder has moved on, the interface and the player stand at its track, and the
/// lyrics begin at their top. In a playlist that was changed meanwhile the decoder is asked
/// to start afresh: at the track that took the place of one that was removed, else at the
/// one behind the current one, the last one at most.
pub proof fn law_interface_follows_decoder(s: PlayerState, u: UiView, len: nat)
    requires
        0 < len <= u32::MAX,
        s.producer_track_index < len,
        u.current < len,
    ensures
        ({
            let v = moved_ui(u, len, s.producer_track_index);
            let t = moved_state(s, u, len);
            &&& v.current == s.producer_track_index && t.current_track == s.producer_track_index
            &&& v.lyrics_scroll == 0 && v.lyrics_auto_scroll
            &&& !v.playlist_dirty
            &&& u.playlist_dirty ==> !v.current_track_removed
            &&& v.shuffle == u.shuffle && v.repeat == u.repeat && v.view_mode == u.view_mode
            &&& !u.playlist_dirty ==> t.jump_to_track == s.jump_to_track
            &&& u.playlist_dirty && u.current_track_removed ==> t.jump_to_track == u.current
            &&& u.playlist_dirty && !u.current_track_removed && u.current + 1 < len
                ==> t.jump_to_track == u.current + 1
            &&& u.playlist_dirty && !u.current_track_removed && u.current + 1 == len
                ==> t.jump_to_track == u.current
            &&& t.volume == s.volume && t.quit == s.quit && t.skip_next == s.skip_next
        }),
{
}

/// A decoder that is behind the end of the playlist moves nothing.
pub proof fn law_decoder_behind_the_end(s: PlayerState, u: UiView, len: nat)
    requires
        s.producer_track_index >= len,
        !u.playlist_dirty,
    ensures
        moved_ui(u, len, s.producer_track_index) == u,
        moved_state(s, u, len) == s,
{
}

/// The sources stand one behind the other in the order in which they were named, each with
/// all its tracks in their order.
pub proof fn law_sources_stand_in_order(lists: Seq<Vec<Track>>, n: int, i: int)
    requires
        0 <= i < n <= lists.len(),
    ensures
        joined_lists(lists, i).len() + lists[i]@.len() <= joined_lists(lists, n).len(),
        joined_lists(lists, n).subrange(
            joined_lists(lists, i).len() as int,
            (joined_lists(lists, i).len() + lists[i]@.len()) as int,
        ) == lists[i]@,
        joined_lists(lists, 0).len() == 0,
        joined_lists(lists, i + 1).len() == joined_lists(lists, i).len() + lists[i]@.len(),
    decreases n,
{
    let a = joined_lists(lists, i).len() as int;
    let b = a + lists[i]@.len();
    if i < n - 1 {
        law_sources_stand_in_order(lists, n - 1, i);
        let front = joined_lists(lists, n - 1);
        assert(joined_lists(lists, n) == front + lists[n - 1]@);
        assert(joined_lists(lists, n).subrange(a, b) =~= front.subrange(a, b));
    } else {
        assert(joined_lists(lists, n).subrange(a, b) =~= lists[i]@);
    }
}

/// Each source is read or skipped: what is read is the list of a source that could be read,
/// in the order of the sources, and what is skipped is told with its place and its reason.
pub proof fn law_each_source_is_read_or_skipped(scans: Seq<Result<Vec<Track>, String>>, n: int)
    requires
        0 <= n <= scans.len() <= usize::MAX,
    ensures
        lists_read(scans, n).len() + scans_failed(scans, n).len() == n,
        forall|i: int| 0 <= i < n && scans[i] is Ok ==> lists_read(scans, n).contains(
            (#[trigger] scans[i])->Ok_0@,
        ),
        forall|i: int| 0 <= i < n && scans[i] is Err ==> scans_failed(scans, n).contains(
            (i as usize, (#[trigger] scans[i])->Err_0@),
        ),
        forall|k: int|
            0 <= k < scans_failed(scans, n).len() ==> {
                let (place, why) = #[trigger] scans_failed(scans, n)[k];
                place < n && scans[place as int] is Err && scans[place as int]->Err_0@ == why
            },
    decreases n,
{
    if n > 0 {
        law_each_source_is_read_or_skipped(scans, n - 1);
        let lists = lists_read(scans, n - 1);
        let failed = scans_failed(scans, n - 1);
        assert forall|i: int| 0 <= i < n && scans[i] is Ok implies lists_read(scans, n).contains(
            (#[trigger] scans[i])->Ok_0@,
        ) by {
            if i < n - 1 {
                let k = choose|k: int| 0 <= k < lists.len() && lists[k] == scans[i]->Ok_0@;
                assert(lists_read(scans, n)[k] == scans[i]->Ok_0@);
            } else {
                assert(lists_read(scans, n)[lists.len() as int] == scans[i]->Ok_0@);
            }
        }
        assert forall|i: int| 0 <= i < n && scans[i] is Err implies scans_failed(
            scans,
            n,
        ).contains((i as usize, (#[trigger] scans[i])->Err_0@)) by {
            let x = (i as usize, scans[i]->Err_0@);
            if i < n - 1 {
                let k = choose|k: int| 0 <= k < failed.len() && failed[k] == x;
                assert(scans_failed(scans, n)[k] == x);
            } else {
                assert(scans_failed(scans, n)[failed.len() as int] == x);
            }
        }
        assert forall|k: int| 0 <= k < scans_failed(scans, n).len() implies {
            let (place, why) = #[trigger] scans_failed(scans, n)[k];
            place < n && scans[place as int] is Err && scans[place as int]->Err_0@ == why
        } by {
            if k < failed.len() {
                assert(scans_failed(scans, n)[k] == failed[k]);
            }
        }
    }
}

/// A round without folders, where nothing was removed and nothing is shuffled, plays the same
/// playlist; a round with folders plays what they hold now, where no place occurs twice and
/// nothing was removed.
pub proof fn law_rounds_play_what_is_there(
    playlist: Seq<Track>,
    keys: Seq<Seq<char>>,
    fresh: Seq<Track>,
    fresh_keys: Seq<Seq<char>>,
)
    requires
        playlist.len() == keys.len(),
        fresh.len() == fresh_keys.len(),
        fresh_keys.no_duplicates(),
    ensures
        next_round(playlist, keys, Seq::empty(), None, None) == playlist,
        fresh.len() > 0 ==> next_round(
            playlist,
            keys,
            Seq::empty(),
            Some((fresh, fresh_keys)),
            None,
        ) == fresh,
        fresh.len() == 0 ==> next_round(
            playlist,
            keys,
            Seq::empty(),
            Some((fresh, fresh_keys)),
            None,
        ) == playlist,
{
    lemma_none_removed(playlist, keys);
    lemma_none_removed(fresh, fresh_keys);
    crate::playlist::lemma_distinct_kept(fresh, fresh_keys);
    crate::playlist::lemma_distinct_kept(fresh_keys, fresh_keys);
}

proof fn lemma_none_removed(list: Seq<Track>, keys: Seq<Seq<char>>)
    requires
        list.len() == keys.len(),
    ensures
        not_removed(list, keys, Seq::empty()) == list,
    decreases keys.len(),
{
    if keys.len() > 0 {
        lemma_none_removed(list.drop_last(), keys.drop_last());
        assert(list =~= list.drop_last().push(list.last()));
    } else {
        assert(list =~= Seq::<Track>::empty());
    }
}

/// The tracks that come in a round, shuffled or not, are those that come without shuffling.
pub proof fn law_shuffling_a_round_keeps_its_tracks(
    playlist: Seq<Track>,
    keys: Seq<Seq<char>>,
    removed: Seq<Seq<char>>,
    fresh: Option<(Seq<Track>, Seq<Seq<char>>)>,
    seed: u64,
)
    ensures
        next_round(playlist, keys, removed, fresh, Some(seed)).to_multiset() == next_round(
            playlist,
            keys,
            removed,
            fresh,
            None,
        ).to_multiset(),
{
    let kept = match fresh {
        Some((list, list_keys)) => not_removed(
            first_of_each(list, list_keys),
            first_of_each(list_keys, list_keys),
            removed,
        ),
        None => not_removed(playlist, keys, removed),
    };
    lemma_shuffle_keeps(kept, seed);
}

proof fn lemma_shuffle_keeps(list: Seq<Track>, seed: u64)
    ensures
        maybe_shuffled(list, Some(seed)).to_multiset() == list.to_multiset(),
        maybe_shuffled(list, None) == list,
{
    crate::playlist::law_shuffle_keeps_tracks(list, seed);
}

/// A round has its tracks counted anew where they may have changed: where folders gave any,
/// or tracks were removed.
pub proof fn law_rounds_are_counted(removed: Seq<Seq<char>>, list: Seq<Track>, keys: Seq<Seq<char>>)
    ensures
        counts_anew(removed, None) <==> removed.len() > 0,
        counts_anew(removed, Some((list, keys))) <==> list.len() > 0,
{
}

/// A usual session is told by its order alone; each thing that differs adds its own words
/// behind that.
pub proof fn law_session_tells_what_differs(shuffle: bool, name: Seq<char>, secs: u32, n: nat)
    requires
        secs > 0,
        n > 0,
    ensures
        ({
            let order = if shuffle {
                "shuffle"@
            } else {
                "sequential"@
            };
            let flat = "Flat"@;
            let none = "None"@;
            let off = "Off"@;
            &&& info_label(shuffle, false, false, flat, none, 0, off, 0) == order
            &&& info_label(shuffle, true, false, flat, none, 0, off, 0) == order + " | repeat"@
            &&& info_label(shuffle, false, true, flat, none, 0, off, 0) == order + " | HQ"@
            &&& name != flat ==> info_label(shuffle, false, false, name, none, 0, off, 0) == order
                + " | EQ: "@ + name
            &&& name != none ==> info_label(shuffle, false, false, flat, name, 0, off, 0) == order
                + " | FX: "@ + name
            &&& name != off ==> info_label(shuffle, false, false, flat, none, 0, name, 0) == order
                + " | crossfeed: "@ + name
            &&& info_label(shuffle, false, false, flat, none, secs, off, 0) == order
                + " | xfade: "@ + decimal(secs as nat) + "s"@
            &&& info_label(shuffle, false, false, flat, none, 0, off, n as int) == order
                + " | bal: R"@ + decimal(n) + "%"@
            &&& info_label(shuffle, false, false, flat, none, 0, off, 0 - n) == order
                + " | bal: L"@ + decimal(n) + "%"@
        }),
{
    let order = if shuffle {
        "shuffle"@
    } else {
        "sequential"@
    };
    let flat = "Flat"@;
    let none = "None"@;
    let off = "Off"@;
    reveal_strlit("");
    assert(info_label(shuffle, false, false, flat, none, 0, off, 0) =~= order);
    assert(info_label(shuffle, true, false, flat, none, 0, off, 0) =~= order + " | repeat"@);
    assert(info_label(shuffle, false, true, flat, none, 0, off, 0) =~= order + " | HQ"@);
    if name != flat {
        assert(info_label(shuffle, false, false, name, none, 0, off, 0) =~= order + " | EQ: "@
            + name);
    }
    if name != none {
        assert(info_label(shuffle, false, false, flat, name, 0, off, 0) =~= order + " | FX: "@
            + name);
    }
    if name != off {
        assert(info_label(shuffle, false, false, flat, none, 0, name, 0) =~= order
            + " | crossfeed: "@ + name);
    }
    assert(info_label(shuffle, false, false, flat, none, secs, off, 0) =~= order + " | xfade: "@
        + decimal(secs as nat) + "s"@);
    assert(info_label(shuffle, false, false, flat, none, 0, off, n as int) =~= order
        + " | bal: R"@ + decimal(n) + "%"@);
    assert(info_label(shuffle, false, false, flat, none, 0, off, 0 - n) =~= order + " | bal: L"@
        + decimal(n) + "%"@);
}

/// A track is told by its length, its bits, its channels and its rate; where it is played at
/// another rate, that is told behind the arrow.
pub proof fn law_track_is_told(secs: nat, bits: nat, channels: nat, rate: nat, played: nat)
    requires
        channels > 2,
        rate != played,
    ensures
        ({
            let front = clock(secs) + " • "@ + decimal(bits);
            &&& track_label(secs, bits, 1, rate, rate) == front + "bit mono • "@ + decimal(rate)
                + "Hz"@
            &&& track_label(secs, bits, 2, rate, rate) == front + "bit stereo • "@ + decimal(rate)
                + "Hz"@
            &&& track_label(secs, bits, channels, rate, rate) == front + "bit "@ + decimal(channels)
                + "ch • "@ + decimal(rate) + "Hz"@
            &&& track_label(secs, bits, 2, rate, played) == front + "bit stereo • "@ + decimal(rate)
                + "→"@ + decimal(played) + "Hz"@
        }),
{
    let front = clock(secs) + " • "@ + decimal(bits);
    reveal_strlit("bit ");
    reveal_strlit("mono");
    reveal_strlit("stereo");
    reveal_strlit("ch");
    reveal_strlit(" • ");
    reveal_strlit("bit mono • ");
    reveal_strlit("bit stereo • ");
    reveal_strlit("ch • ");
    assert(track_label(secs, bits, 1, rate, rate) =~= front + "bit mono • "@ + decimal(rate)
        + "Hz"@);
    assert(track_label(secs, bits, 2, rate, rate) =~= front + "bit stereo • "@ + decimal(rate)
        + "Hz"@);
    assert(track_label(secs, bits, channels, rate, rate) =~= front + "bit "@ + decimal(channels)
        + "ch • "@ + decimal(rate) + "Hz"@);
    assert(track_label(secs, bits, 2, rate, played) =~= front + "bit stereo • "@ + decimal(rate)
        + "→"@ + decimal(played) + "Hz"@);
}

/// The output is told by its device, its rate and its channels; a wireless one by the rate that
/// it keeps, too.
pub proof fn law_output_is_told(device: Seq<char>, native: u32, rate: u32, channels: u16)
    ensures
        ({
            let end = "Initial output: "@ + decimal(rate as nat) + "Hz (device default: "@
                + decimal(channels as nat) + "ch)\n"@;
            &&& output_label(device, None, rate, channels) == "\nDevice: "@ + device + "\n"@ + end
            &&& output_label(device, Some(native), rate, channels) == "\nDevice: "@ + device
                + "\n"@ + ("Bluetooth device detected, using native "@ + decimal(native as nat)
                + "Hz\n"@) + end
        }),
{
    let end = "Initial output: "@ + decimal(rate as nat) + "Hz (device default: "@ + decimal(
        channels as nat,
    ) + "ch)\n"@;
    reveal_strlit("");
    assert(output_label(device, None, rate, channels) =~= "\nDevice: "@ + device + "\n"@ + end);
    assert(output_label(device, Some(native), rate, channels) =~= "\nDevice: "@ + device + "\n"@
        + ("Bluetooth device detected, using native "@ + decimal(native as nat) + "Hz\n"@) + end);
}

/// The frame holds what is told of the session, on a line that is as wide as the others where
/// it takes no more room than they have.
pub proof fn law_frame_holds_the_text(info: Seq<char>)
    ensures
        ({
            let bytes = vstd::utf8::encode_utf8(info).len();
            let wide = repeated('═', 57);
            let title = "╗\n║"@ + repeated(' ', 26) + "Keet"@ + repeated(' ', 27) + "║\n╠"@;
            &&& bytes <= 55 ==> frame_of(info) == "╔"@ + wide + title + wide + "╣\n║  "@ + info
                + repeated(' ', (55 - bytes) as nat) + "║\n╚"@ + wide + "╝\n"@
            &&& bytes > 55 ==> frame_of(info) == "╔"@ + wide + title + wide + "╣\n║  "@ + info
                + "║\n╚"@ + wide + "╝\n"@
        }),
{
    let bytes = vstd::utf8::encode_utf8(info).len();
    let wide = repeated('═', 57);
    let title = "╗\n║"@ + repeated(' ', 26) + "Keet"@ + repeated(' ', 27) + "║\n╠"@;
    if bytes <= 55 {
        assert(frame_of(info) =~= "╔"@ + wide + title + wide + "╣\n║  "@ + info + repeated(
            ' ',
            (55 - bytes) as nat,
        ) + "║\n╚"@ + wide + "╝\n"@);
    } else {
        assert(repeated(' ', 0) =~= Seq::empty());
        assert(frame_of(info) =~= "╔"@ + wide + title + wide + "╣\n║  "@ + info + "║\n╚"@ + wide
            + "╝\n"@);
    }
}

} // verus!
