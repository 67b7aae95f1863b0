//! Playlists: building, shuffling, rescanning, and the M3U format.
use vstd::prelude::*;

use crate::paths::{
    alike, in_a_row, lemma_portable_behind_drive, lemma_row_total, lemma_row_transitive,
    may_be_extended, may_be_joined, may_be_parent, name_in, named_in, parts, path_join, path_le,
    path_not_after, path_parent, path_same, path_with_extension, some_tells,
};
use crate::sorting::{lemma_sort_empty, lemma_sort_insert, stable_sort_of, total_preorder};
use crate::text::{
    ends_with, first_at, lemma_first_at, lines, lines_of, lowercased, same, texts, to_chars, trim,
    trimmed, without_cr,
};
use crate::track::{
    colon_second, double_front, extension_of, is_supported, is_supported_media_extension, kind_for,
    may_extend, media_kind_for_extension, path_extension, portable, text_view, MediaKind, Track,
};

verus! {

/// A sequence with two elements exchanged.
pub open spec fn swapped<T>(s: Seq<T>, i: int, j: int) -> Seq<T> {
    s.update(i, s[j]).update(j, s[i])
}

/// The number behind `rng` in the generator's sequence.
pub open spec fn next_random(rng: u64) -> u64 {
    rng.wrapping_mul(6364136223846793005).wrapping_add(1)
}

/// The list after exchanging the element at `last` with one at or in front of
/// it that the generator picks, then the one before it, and so on.
pub open spec fn shuffled<T>(s: Seq<T>, last: nat, rng: u64) -> Seq<T>
    decreases last,
{
    if last == 0 {
        s
    } else {
        let r = next_random(rng);
        let pick = (r as usize) as int % (last as int + 1);
        shuffled(swapped(s, last as int, pick), (last - 1) as nat, r)
    }
}

/// A list shuffled from its end.
pub open spec fn shuffle_of<T>(s: Seq<T>, seed: u64) -> Seq<T> {
    if s.len() == 0 {
        s
    } else {
        shuffled(s, (s.len() - 1) as nat, seed)
    }
}

/// Shuffles a list by the random numbers that follow `seed`.
pub fn shuffle_tracks_from(list: &mut Vec<Track>, seed: u64)
    ensures
        final(list)@ == shuffle_of(old(list)@, seed),
{
    if list.len() == 0 {
        return ;
    }
    let mut rng: u64 = seed;
    let mut i: usize = list.len() - 1;
    while i > 0
        invariant
            i < list.len(),
            list.len() == old(list).len(),
            shuffled(list@, i as nat, rng) == shuffle_of(old(list)@, seed),
        decreases i,
    {
        rng = rng.wrapping_mul(6364136223846793005).wrapping_add(1);
        let pick: usize = #[verifier::truncate]
        (rng as usize) % (i + 1);
        let last = list[i].clone();
        let picked = list[pick].clone();
        list.set(i, picked);
        list.set(pick, last);
        i = i - 1;
    }
}

/// The nanoseconds since 1970 that `std::time::SystemTime::now` shows, where the
/// clock is not set before that; what it shows is left open.
#[verifier::external_body]
fn clock_nanos() -> (r: Option<u128>) {
    std::time::SystemTime::now().duration_since(std::time::UNIX_EPOCH).ok().map(|d| d.as_nanos())
}

/// The seed that a reading of the clock gives.
pub fn shuffle_seed(nanos: Option<u128>) -> (r: u64)
    ensures
        r == (match nanos {
            Some(n) => n as u64,
            None => 12345,
        }),
{
    match nanos {
        Some(n) => #[verifier::truncate]
        (n as u64),
        None => 12345,
    }
}

/// Shuffles a list by the present time.
pub fn shuffle_tracks(list: &mut Vec<Track>)
    ensures
        exists|seed: u64| final(list)@ == #[trigger] shuffle_of(old(list)@, seed),
        final(list)@.to_multiset() == old(list)@.to_multiset(),
{
    let seed = shuffle_seed(clock_nanos());
    shuffle_tracks_from(list, seed);
    proof {
        law_shuffle_keeps_tracks(old(list)@, seed);
    }
}

/// Exchanging elements keeps the multiset of a list.
proof fn lemma_swap_keeps<T>(s: Seq<T>, i: int, j: int)
    requires
        0 <= i < s.len(),
        0 <= j < s.len(),
    ensures
        swapped(s, i, j).to_multiset() == s.to_multiset(),
        swapped(s, i, j).len() == s.len(),
{
    broadcast use {vstd::seq_lib::to_multiset_update, vstd::seq_lib::group_to_multiset_ensures};

    let a = s.update(i, s[j]);
    assert(a.to_multiset() == s.to_multiset().insert(s[j]).remove(s[i]));
    assert(a[j] == s[j]);
    assert(a.update(j, s[i]).to_multiset() == a.to_multiset().insert(s[i]).remove(a[j]));
    assert(s.to_multiset().count(s[i]) > 0);
    assert(swapped(s, i, j).to_multiset() =~= s.to_multiset());
}

proof fn lemma_shuffled_keeps<T>(s: Seq<T>, last: nat, rng: u64)
    requires
        last < s.len(),
    ensures
        shuffled(s, last, rng).to_multiset() == s.to_multiset(),
        shuffled(s, last, rng).len() == s.len(),
    decreases last,
{
    if last > 0 {
        let r = next_random(rng);
        let pick = (r as usize) as int % (last as int + 1);
        assert(0 <= pick < last as int + 1);
        lemma_swap_keeps(s, last as int, pick);
        lemma_shuffled_keeps(swapped(s, last as int, pick), (last - 1) as nat, r);
    }
}

/// Shuffling keeps every track, as often as it was there, and adds none.
pub proof fn law_shuffle_keeps_tracks<T>(s: Seq<T>, seed: u64)
    ensures
        shuffle_of(s, seed).to_multiset() == s.to_multiset(),
        shuffle_of(s, seed).len() == s.len(),
{
    if s.len() > 0 {
        lemma_shuffled_keeps(s, (s.len() - 1) as nat, seed);
    }
}

/// What is kept of a list when of the elements with one key only the first stays.
pub open spec fn first_of_each<T>(s: Seq<T>, keys: Seq<Seq<char>>) -> Seq<T>
    decreases keys.len(),
{
    if keys.len() == 0 {
        Seq::empty()
    } else {
        let front = first_of_each(s.drop_last(), keys.drop_last());
        if keys.drop_last().contains(keys.last()) {
            front
        } else {
            front.push(s.last())
        }
    }
}

/// Whether a list of strings holds a text.
pub fn has_text(list: &Vec<String>, text: &String) -> (r: bool)
    ensures
        r == texts(list@).contains(text@),
{
    let mut i: usize = 0;
    while i < list.len()
        invariant
            i <= list.len(),
            forall|k: int| 0 <= k < i ==> list@[k]@ != text@,
        decreases list.len() - i,
    {
        if list[i] == *text {
            assert(texts(list@)[i as int] == text@);
            return true;
        }
        i = i + 1;
    }
    assert forall|k: int| 0 <= k < texts(list@).len() implies texts(list@)[k] != text@ by {
        assert(texts(list@)[k] == list@[k]@);
    }
    false
}

/// Keeps of the tracks with one key only the first. The key of a track is the
/// path that its file system knows it by.
pub fn dedup_tracks(list: &Vec<Track>, keys: &Vec<String>) -> (r: Vec<Track>)
    requires
        list.len() == keys.len(),
    ensures
        r@ == first_of_each(list@, texts(keys@)),
{
    let mut out: Vec<Track> = Vec::new();
    let mut seen: Vec<String> = Vec::new();
    let mut i: usize = 0;
    while i < list.len()
        invariant
            i <= list.len() == keys.len(),
            out@ == first_of_each(list@.take(i as int), texts(keys@).take(i as int)),
            forall|t: Seq<char>| #[trigger]
                texts(seen@).contains(t) <==> texts(keys@).take(i as int).contains(t),
        decreases list.len() - i,
    {
        let ghost ks = texts(keys@).take(i + 1);
        let ghost ts = list@.take(i + 1);
        let ghost was = seen@;
        assert(ks.drop_last() =~= texts(keys@).take(i as int));
        assert(ts.drop_last() =~= list@.take(i as int));
        assert(ks.last() == keys@[i as int]@);
        if has_text(&seen, &keys[i]) {
            assert forall|t: Seq<char>| #[trigger] texts(seen@).contains(t) <==> ks.contains(t) by {
                lemma_contains_push(ks.drop_last(), ks.last(), t);
                assert(ks =~= ks.drop_last().push(ks.last()));
            }
        } else {
            seen.push(keys[i].clone());
            out.push(list[i].clone());
            assert forall|t: Seq<char>| #[trigger] texts(seen@).contains(t) <==> ks.contains(t) by {
                lemma_contains_push(ks.drop_last(), ks.last(), t);
                lemma_contains_push(texts(was), ks.last(), t);
                assert(ks =~= ks.drop_last().push(ks.last()));
                assert(texts(seen@) =~= texts(was).push(ks.last()));
            }
        }
        i = i + 1;
    }
    assert(list@.take(i as int) =~= list@);
    assert(texts(keys@).take(i as int) =~= texts(keys@));
    out
}

/// What a sequence holds after one more element.
proof fn lemma_contains_push<T>(s: Seq<T>, x: T, t: T)
    ensures
        s.push(x).contains(t) <==> s.contains(t) || t == x,
{
    if s.contains(t) {
        let k = choose|k: int| 0 <= k < s.len() && s[k] == t;
        assert(s.push(x)[k] == t);
    }
    if t == x {
        assert(s.push(x)[s.len() as int] == t);
    }
    if s.push(x).contains(t) {
        let k = choose|k: int| 0 <= k < s.push(x).len() && s.push(x)[k] == t;
        if k < s.len() {
            assert(s[k] == t);
        }
    }
}

/// After duplicates are removed no key occurs twice, and every key that was
/// there still is.
pub proof fn law_no_duplicates(keys: Seq<Seq<char>>)
    ensures
        first_of_each(keys, keys).no_duplicates(),
        forall|k: Seq<char>| #[trigger] first_of_each(keys, keys).contains(k) <==> keys.contains(k),
    decreases keys.len(),
{
    if keys.len() > 0 {
        let front = keys.drop_last();
        let k = keys.last();
        law_no_duplicates(front);
        let kept = first_of_each(front, front);
        assert(keys =~= front.push(k));
        assert forall|t: Seq<char>| #[trigger]
            first_of_each(keys, keys).contains(t) <==> keys.contains(t) by {
            lemma_contains_push(front, k, t);
            lemma_contains_push(kept, k, t);
        }
        if !front.contains(k) {
            assert(!kept.contains(k));
            assert forall|i: int, j: int| 0 <= i < kept.push(k).len() && 0 <= j < kept.push(k).len()
                && i != j implies kept.push(k)[i] != kept.push(k)[j] by {
                if i < kept.len() && j < kept.len() {
                } else if i < kept.len() {
                    assert(kept.contains(kept[i]));
                } else {
                    assert(kept.contains(kept[j]));
                }
            }
        }
    }
}

/// A second removal of duplicates finds none.
pub proof fn law_dedup_is_idempotent(keys: Seq<Seq<char>>)
    ensures
        first_of_each(first_of_each(keys, keys), first_of_each(keys, keys)) == first_of_each(
            keys,
            keys,
        ),
{
    law_no_duplicates(keys);
    lemma_distinct_kept(first_of_each(keys, keys), first_of_each(keys, keys));
}

/// Where no key occurs twice, everything stays.
pub proof fn lemma_distinct_kept<T>(s: Seq<T>, keys: Seq<Seq<char>>)
    requires
        s.len() == keys.len(),
        keys.no_duplicates(),
    ensures
        first_of_each(s, keys) == s,
    decreases keys.len(),
{
    if keys.len() > 0 {
        lemma_distinct_kept(s.drop_last(), keys.drop_last());
        assert(s =~= s.drop_last().push(s.last()));
    } else {
        assert(s =~= Seq::empty());
    }
}

/// Of the lines of a playlist file those that name a file: what is left of a
/// line between white space, unless it is empty or a comment.
pub open spec fn named_files(all: Seq<Seq<char>>) -> Seq<Seq<char>>
    decreases all.len(),
{
    if all.len() == 0 {
        Seq::empty()
    } else {
        let line = trimmed(all[0]);
        let rest = named_files(all.drop_first());
        if line.len() == 0 || line[0] == '#' {
            rest
        } else {
            seq![line] + rest
        }
    }
}

/// The files that the text of an M3U playlist names, in order.
pub fn m3u_entries(content: &str) -> (r: Vec<String>)
    ensures
        texts(r@) == named_files(lines_of(content@)),
{
    let all = lines(content);
    let ghost whole = texts(all@);
    let mut out: Vec<String> = Vec::new();
    let mut i: usize = 0;
    assert(whole.skip(0) =~= whole);
    assert(texts(out@) + named_files(whole) =~= named_files(whole));
    while i < all.len()
        invariant
            whole == texts(all@),
            whole == lines_of(content@),
            i <= all.len(),
            texts(out@) + named_files(whole.skip(i as int)) == named_files(whole),
        decreases all.len() - i,
    {
        let line = trim(all[i].as_str());
        let v = to_chars(line.as_str());
        let ghost before = texts(out@);
        let ghost rest = whole.skip(i as int);
        assert(rest[0] == all@[i as int]@);
        assert(rest.drop_first() =~= whole.skip(i + 1));
        if v.len() > 0 && v[0] != '#' {
            out.push(line);
            assert(texts(out@) =~= before.push(line@));
            assert(texts(out@) + named_files(whole.skip(i + 1)) =~= before + named_files(rest));
        }
        i = i + 1;
    }
    assert(texts(out@) + named_files(whole.skip(i as int)) =~= texts(out@));
    out
}

/// The lines of a playlist file for these paths.
pub open spec fn m3u_body(paths: Seq<Seq<char>>) -> Seq<char>
    decreases paths.len(),
{
    if paths.len() == 0 {
        Seq::empty()
    } else {
        m3u_body(paths.drop_last()) + paths.last() + seq!['\n']
    }
}

/// The text of a playlist file for these paths.
pub open spec fn m3u_content(paths: Seq<Seq<char>>) -> Seq<char> {
    "#EXTM3U\n"@ + m3u_body(paths)
}

/// The paths of a list of tracks.
pub open spec fn paths_of(list: Seq<Track>) -> Seq<Seq<char>> {
    list.map_values(|t: Track| t.path@)
}

/// The text of an M3U playlist with these tracks.
pub fn m3u_text(playlist: &Vec<Track>) -> (r: String)
    ensures
        r@ == m3u_content(paths_of(playlist@)),
{
    let mut content = String::new();
    content.append("#EXTM3U\n");
    let ghost paths = paths_of(playlist@);
    let mut i: usize = 0;
    assert(content@ =~= "#EXTM3U\n"@ + m3u_body(paths.take(0)));
    while i < playlist.len()
        invariant
            paths == paths_of(playlist@),
            i <= playlist.len(),
            content@ == "#EXTM3U\n"@ + m3u_body(paths.take(i as int)),
        decreases playlist.len() - i,
    {
        let ghost before = content@;
        content.append(playlist[i].path.as_str());
        content.push('\n');
        assert(paths.take(i + 1).drop_last() =~= paths.take(i as int));
        assert(paths.take(i + 1).last() == playlist@[i as int].path@);
        assert(content@ =~= "#EXTM3U\n"@ + m3u_body(paths.take(i + 1)));
        i = i + 1;
    }
    assert(paths.take(i as int) =~= paths);
    content
}

/// A path that an M3U playlist can carry: on one line, with no white space at
/// its ends, and not taken for a comment.
pub open spec fn fits_m3u(path: Seq<char>) -> bool {
    &&& path.len() > 0
    &&& path[0] != '#'
    &&& !path.contains('\n')
    &&& trimmed(path) == path
}

/// The first line of a text, up to its line feed.
proof fn lemma_first_line(line: Seq<char>, rest: Seq<char>)
    requires
        !line.contains('\n'),
    ensures
        lines_of(line + seq!['\n'] + rest) == seq![without_cr(line)] + lines_of(rest),
{
    let s = line + seq!['\n'] + rest;
    let k = first_at(s, '\n');
    lemma_first_at(s, '\n');
    assert(s[line.len() as int] == '\n');
    assert forall|j: int| 0 <= j < line.len() implies s[j] != '\n' by {
        assert(s[j] == line[j]);
        assert(line.contains(line[j]));
    }
    assert(k == line.len());
    assert(s.take(k) =~= line);
    assert(s.skip(k + 1) =~= rest);
}

/// What is trimmed does not end in a carriage return.
proof fn lemma_trimmed_no_cr(path: Seq<char>)
    requires
        trimmed(path) == path,
        path.len() > 0,
    ensures
        without_cr(path) == path,
{
    let t = crate::text::trim_start(path);
    lemma_trim_lengths(path);
    lemma_trim_end_length(t);
    assert(t.len() == path.len());
    if path.last() == '\r' {
        assert(crate::text::trim_end(t) == path);
        lemma_trim_start_same(path);
        assert(t == path);
        lemma_trim_end_length(path.drop_last());
    }
}

proof fn lemma_trim_lengths(s: Seq<char>)
    ensures
        crate::text::trim_start(s).len() <= s.len(),
    decreases s.len(),
{
    if s.len() > 0 && crate::text::is_space(s[0]) {
        lemma_trim_lengths(s.drop_first());
    }
}

proof fn lemma_trim_start_same(s: Seq<char>)
    requires
        crate::text::trim_start(s).len() == s.len(),
    ensures
        crate::text::trim_start(s) == s,
{
    if s.len() > 0 && crate::text::is_space(s[0]) {
        lemma_trim_lengths(s.drop_first());
    }
}

proof fn lemma_trim_end_length(s: Seq<char>)
    ensures
        crate::text::trim_end(s).len() <= s.len(),
    decreases s.len(),
{
    if s.len() > 0 && crate::text::is_space(s.last()) {
        lemma_trim_end_length(s.drop_last());
    }
}

/// The body of a playlist, from its front.
proof fn lemma_body_front(paths: Seq<Seq<char>>)
    requires
        paths.len() > 0,
    ensures
        m3u_body(paths) == paths[0] + seq!['\n'] + m3u_body(paths.drop_first()),
    decreases paths.len(),
{
    if paths.len() == 1 {
        assert(paths.drop_last() =~= Seq::<Seq<char>>::empty());
        assert(paths.drop_first() =~= Seq::<Seq<char>>::empty());
        assert(m3u_body(paths) =~= paths[0] + seq!['\n'] + m3u_body(paths.drop_first()));
    } else {
        let front = paths.drop_last();
        lemma_body_front(front);
        assert(front.drop_first() =~= paths.drop_first().drop_last());
        assert(paths.drop_first().last() == paths.last());
        assert(front[0] == paths[0]);
        assert(m3u_body(paths) =~= paths[0] + seq!['\n'] + m3u_body(paths.drop_first()));
    }
}

/// The files that the body of a playlist names are the paths that it was made of.
proof fn lemma_body_read_back(paths: Seq<Seq<char>>)
    requires
        forall|i: int| 0 <= i < paths.len() ==> fits_m3u(#[trigger] paths[i]),
    ensures
        named_files(lines_of(m3u_body(paths))) == paths,
    decreases paths.len(),
{
    if paths.len() == 0 {
        assert(lines_of(m3u_body(paths)) =~= Seq::<Seq<char>>::empty());
        assert(paths =~= Seq::<Seq<char>>::empty());
    } else {
        let rest = paths.drop_first();
        let p = paths[0];
        assert(fits_m3u(p));
        lemma_body_front(paths);
        lemma_first_line(p, m3u_body(rest));
        lemma_trimmed_no_cr(p);
        assert forall|i: int| 0 <= i < rest.len() implies fits_m3u(#[trigger] rest[i]) by {
            assert(rest[i] == paths[i + 1]);
        }
        lemma_body_read_back(rest);
        let all = lines_of(m3u_body(paths));
        assert(all[0] == p);
        assert(all.drop_first() =~= lines_of(m3u_body(rest)));
        assert(seq![p] + rest =~= paths);
    }
}

/// Reading a playlist that was saved gives the paths back, in order.
pub proof fn law_m3u_round_trip(paths: Seq<Seq<char>>)
    requires
        forall|i: int| 0 <= i < paths.len() ==> fits_m3u(#[trigger] paths[i]),
    ensures
        named_files(lines_of(m3u_content(paths))) == paths,
{
    reveal_strlit("#EXTM3U\n");
    let head = seq!['#', 'E', 'X', 'T', 'M', '3', 'U'];
    assert("#EXTM3U\n"@ =~= head + seq!['\n']);
    lemma_body_read_back(paths);
    lemma_first_line(head, m3u_body(paths));
    let all = lines_of(m3u_content(paths));
    assert(without_cr(head) == head);
    assert(all[0] == head);
    assert(all.drop_first() =~= lines_of(m3u_body(paths)));
    let h = trimmed(head);
    assert(crate::text::trim_start(head) == head);
    assert(crate::text::trim_end(head) == head);
    assert(h[0] == '#');
}

/// Whether the list of extensions is that of the paths.
pub open spec fn known_extensions(paths: Seq<String>, exts: Seq<Option<String>>) -> bool {
    &&& exts.len() == paths.len()
    &&& forall|i: int|
        0 <= i < paths.len() ==> may_extend(#[trigger] paths[i]@, text_view(exts[i]))
}

/// The extensions of paths.
pub fn extensions_of(paths: &Vec<String>) -> (r: Vec<Option<String>>)
    ensures
        known_extensions(paths@, r@),
{
    let mut out: Vec<Option<String>> = Vec::new();
    let mut i: usize = 0;
    while i < paths.len()
        invariant
            i <= paths.len(),
            out.len() == i,
            forall|k: int|
                0 <= k < i ==> may_extend(#[trigger] paths@[k]@, text_view(out@[k])),
        decreases paths.len() - i,
    {
        out.push(path_extension(paths[i].as_str()));
        i = i + 1;
    }
    out
}

/// The tracks at those of the first `n` paths that are files with an extension
/// that is played.
pub open spec fn taken(
    paths: Seq<String>,
    exts: Seq<Option<String>>,
    present: Seq<bool>,
    n: int,
) -> Seq<Track>
    decreases n,
{
    if n <= 0 {
        Seq::empty()
    } else {
        let front = taken(paths, exts, present, n - 1);
        match text_view(exts[n - 1]) {
            Some(e) if present[n - 1] && is_supported(e) => front.push(
                Track { path: paths[n - 1], kind: kind_for(Some(e)) },
            ),
            _ => front,
        }
    }
}

/// The tracks at those paths that are files with an extension that is played,
/// in order.
pub fn tracks_from(paths: &Vec<String>, exts: &Vec<Option<String>>, present: &Vec<bool>) -> (r: Vec<
    Track,
>)
    requires
        exts.len() == paths.len(),
        present.len() == paths.len(),
    ensures
        r@ == taken(paths@, exts@, present@, paths.len() as int),
{
    let mut out: Vec<Track> = Vec::new();
    let mut i: usize = 0;
    while i < paths.len()
        invariant
            i <= paths.len() == exts.len(),
            present.len() == paths.len(),
            out@ == taken(paths@, exts@, present@, i as int),
        decreases paths.len() - i,
    {
        if present[i] {
            match &exts[i] {
                Some(e) => {
                    if is_supported_media_extension(e.as_str()) {
                        let kind = media_kind_for_extension(Some(e.clone()));
                        out.push(Track { path: paths[i].clone(), kind });
                    }
                },
                None => {},
            }
        }
        i = i + 1;
    }
    out
}

/// The order of tracks by their paths.
pub open spec fn by_path() -> spec_fn(Track, Track) -> bool {
    |a: Track, b: Track| path_le(a.path@, b.path@)
}

proof fn lemma_by_path()
    ensures
        total_preorder(by_path()),
{
    let le = by_path();
    assert forall|a: Track, b: Track| #[trigger] le(a, b) || le(b, a) by {
        lemma_row_total(in_a_row(parts(a.path@)), in_a_row(parts(b.path@)));
    }
    assert forall|a: Track, b: Track, c: Track| #[trigger]
        le(a, b) && #[trigger] le(b, c) implies le(a, c) by {
        lemma_row_transitive(
            in_a_row(parts(a.path@)),
            in_a_row(parts(b.path@)),
            in_a_row(parts(c.path@)),
        );
    }
}

/// The tracks with portable paths, in their order.
pub open spec fn with_portable(list: Seq<Track>) -> Seq<Track>
    decreases list.len(),
{
    if list.len() == 0 {
        list
    } else {
        let front = with_portable(list.drop_last());
        if portable(list.last().path@) {
            front.push(list.last())
        } else {
            front
        }
    }
}

/// The tracks with other paths, in their order.
pub open spec fn with_others(list: Seq<Track>) -> Seq<Track>
    decreases list.len(),
{
    if list.len() == 0 {
        list
    } else {
        let front = with_others(list.drop_last());
        if portable(list.last().path@) {
            front
        } else {
            front.push(list.last())
        }
    }
}

/// Whether a track may stand in front of another: a system tells that it is not after
/// it, or that the other is after it.
pub open spec fn may_lead(a: Track, b: Track) -> bool {
    some_tells(a.path@, b.path@, true) || some_tells(b.path@, a.path@, false)
}

/// Whether each track may stand in front of the next one.
pub open spec fn in_told_order(list: Seq<Track>) -> bool {
    forall|i: int, j: int|
        0 <= i && j == i + 1 && j < list.len() ==> may_lead(#[trigger] list[i], #[trigger] list[j])
}

/// `out` holds the tracks of `input`. Those with portable paths are in the order of
/// paths, and those at the same path in the order they had. Any two neighbours are as a
/// system tells.
pub open spec fn path_sorted(input: Seq<Track>, out: Seq<Track>) -> bool {
    &&& out.to_multiset() == input.to_multiset()
    &&& out.len() == input.len()
    &&& in_told_order(out)
    &&& stable_sort_of(with_portable(input), with_portable(out), by_path())
}

/// Where all paths are portable, the whole list is sorted.
pub proof fn law_portable_lists_are_sorted(input: Seq<Track>, out: Seq<Track>)
    requires
        path_sorted(input, out),
        all_portable(input),
    ensures
        stable_sort_of(input, out, by_path()),
{
    broadcast use vstd::seq_lib::group_to_multiset_ensures;

    assert forall|i: int| 0 <= i < out.len() implies portable(#[trigger] out[i].path@) by {
        assert(out.contains(out[i]));
        assert(out.to_multiset().count(out[i]) > 0);
        assert(input.contains(out[i]));
        let k = choose|k: int| 0 <= k < input.len() && input[k] == out[i];
        assert(portable(input[k].path@));
    }
    lemma_all_portable(input);
    lemma_all_portable(out);
}

/// Whether every path is portable.
pub open spec fn all_portable(list: Seq<Track>) -> bool {
    forall|i: int| 0 <= i < list.len() ==> portable(#[trigger] list[i].path@)
}

proof fn lemma_all_portable(list: Seq<Track>)
    requires
        all_portable(list),
    ensures
        with_portable(list) == list,
    decreases list.len(),
{
    if list.len() > 0 {
        assert forall|i: int| 0 <= i < list.drop_last().len() implies portable(
            #[trigger] list.drop_last()[i].path@,
        ) by {
            assert(list.drop_last()[i] == list[i]);
        }
        lemma_all_portable(list.drop_last());
        assert(portable(list[list.len() - 1].path@));
        assert(list =~= list.drop_last().push(list.last()));
    }
}

/// The tracks at places of a list.
spec fn at_places(list: Seq<Track>, places: Seq<usize>) -> Seq<Track> {
    places.map_values(|i: usize| list[i as int])
}

/// Whether all these are places of a list.
spec fn are_places(places: Seq<usize>, n: int) -> bool {
    forall|i: int| 0 <= i < places.len() ==> #[trigger] places[i] < n
}

/// `out` holds the tracks of `input`, neighbours as a system tells, and in the order of
/// paths where those are portable.
spec fn told_sorted(input: Seq<Track>, out: Seq<Track>) -> bool {
    &&& out.to_multiset() == input.to_multiset()
    &&& in_told_order(out)
    &&& all_portable(input) ==> stable_sort_of(input, out, by_path()) && all_portable(out)
}

/// One more track in a sorted list, behind one that a system tells is not after it and in
/// front of one that is.
proof fn lemma_put_by_path(input: Seq<Track>, sorted: Seq<Track>, t: Track, k: int)
    requires
        told_sorted(input, sorted),
        0 <= k <= sorted.len(),
        k > 0 ==> may_lead(sorted[k - 1], t),
        k < sorted.len() ==> may_lead(t, sorted[k]),
        all_portable(input.push(t)) ==> {
            &&& k > 0 ==> by_path()(sorted[k - 1], t)
            &&& forall|i: int| k <= i < sorted.len() ==> !by_path()(#[trigger] sorted[i], t)
        },
    ensures
        told_sorted(input.push(t), sorted.insert(k, t)),
{
    broadcast use vstd::seq_lib::group_to_multiset_ensures;

    let put = sorted.insert(k, t);
    assert(put.remove(k) =~= sorted);
    assert(put.to_multiset() =~= sorted.to_multiset().insert(t));
    assert forall|i: int, j: int| 0 <= i && j == i + 1 && j < put.len() implies may_lead(
        #[trigger] put[i],
        #[trigger] put[j],
    ) by {
        if j < k {
            assert(put[i] == sorted[i] && put[j] == sorted[j]);
        } else if i > k {
            assert(put[i] == sorted[i - 1] && put[j] == sorted[j - 1]);
        }
    }
    if all_portable(input.push(t)) {
        assert forall|i: int| 0 <= i < input.len() implies portable(#[trigger] input[i].path@) by {
            assert(input.push(t)[i] == input[i]);
        }
        assert(input.push(t)[input.len() as int] == t);
        lemma_by_path();
        assert forall|i: int| 0 <= i < k implies by_path()(#[trigger] sorted[i], t) by {
            if i < k - 1 {
                assert(by_path()(sorted[i], sorted[k - 1]));
            }
        }
        lemma_sort_insert(input, sorted, by_path(), t, k);
        assert forall|i: int| 0 <= i < put.len() implies portable(#[trigger] put[i].path@) by {
            if i < k {
                assert(put[i] == sorted[i]);
            } else if i > k {
                assert(put[i] == sorted[i - 1]);
            }
        }
    }
}

/// Puts a place of the list among those that are sorted by their paths.
fn insert_by_path(
    list: &Vec<Track>,
    sorted: &mut Vec<usize>,
    place: usize,
    Ghost(input): Ghost<Seq<Track>>,
)
    requires
        place < list.len(),
        are_places(old(sorted)@, list.len() as int),
        told_sorted(input, at_places(list@, old(sorted)@)),
    ensures
        exists|k: int|
            0 <= k <= old(sorted).len() && final(sorted)@ == #[trigger] old(sorted)@.insert(
                k,
                place,
            ),
        told_sorted(input.push(list@[place as int]), at_places(list@, final(sorted)@)),
{
    let ghost before = sorted@;
    let ghost tracks = at_places(list@, before);
    let ghost t = list@[place as int];
    let ghost good = all_portable(input.push(t));
    proof {
        if good {
            assert forall|i: int| 0 <= i < input.len() implies portable(
                #[trigger] input[i].path@,
            ) by {
                assert(input.push(t)[i] == input[i]);
            }
            assert(input.push(t)[input.len() as int] == t);
        }
    }
    let path = list[place].path.as_str();
    let mut k: usize = sorted.len();
    loop
        invariant_except_break
            k <= sorted.len(),
            sorted@ == before,
            place < list.len(),
            t == list@[place as int],
            path@ == t.path@,
            tracks == at_places(list@, before),
            are_places(before, list.len() as int),
            good ==> portable(t.path@) && all_portable(tracks),
            k < before.len() ==> may_lead(t, tracks[k as int]),
            good ==> forall|i: int|
                k <= i < before.len() ==> !by_path()(#[trigger] tracks[i], t),
        ensures
            k <= sorted.len(),
            sorted@ == before,
            tracks == at_places(list@, before),
            k > 0 ==> may_lead(tracks[k - 1], t),
            k < before.len() ==> may_lead(t, tracks[k as int]),
            good ==> (k > 0 ==> by_path()(tracks[k - 1], t)),
            good ==> forall|i: int|
                k <= i < before.len() ==> !by_path()(#[trigger] tracks[i], t),
        decreases k,
    {
        if k == 0 {
            break;
        }
        assert(before[k - 1] < list.len());
        assert(tracks[k - 1] == list@[before[k - 1] as int]);
        if path_not_after(list[sorted[k - 1]].path.as_str(), path) {
            break;
        }
        k = k - 1;
    }
    proof {
        lemma_put_by_path(input, tracks, t, k as int);
        assert(at_places(list@, before.insert(k as int, place)) =~= tracks.insert(k as int, t));
    }
    sorted.insert(k, place);
    assert(sorted@ == before.insert(k as int, place));
}

proof fn lemma_parts_of_list(list: Seq<Track>)
    ensures
        list.to_multiset() == with_portable(list).to_multiset().add(
            with_others(list).to_multiset(),
        ),
        all_portable(with_portable(list)),
        list.len() == with_portable(list).len() + with_others(list).len(),
    decreases list.len(),
{
    broadcast use vstd::seq_lib::group_to_multiset_ensures;

    if list.len() > 0 {
        let front = list.drop_last();
        let t = list.last();
        lemma_parts_of_list(front);
        assert(list =~= front.push(t));
        assert(list.to_multiset() =~= with_portable(list).to_multiset().add(
            with_others(list).to_multiset(),
        ));
        assert forall|i: int| 0 <= i < with_portable(list).len() implies portable(
            #[trigger] with_portable(list)[i].path@,
        ) by {
            if i < with_portable(front).len() {
                assert(with_portable(list)[i] == with_portable(front)[i]);
            }
        }
    } else {
        assert(list.to_multiset() =~= with_portable(list).to_multiset().add(
            with_others(list).to_multiset(),
        ));
    }
}

/// Joins two lists of places that are sorted, those of portable paths and those of
/// others; of tracks at one path the one in front in the list comes first.
fn merge_by_path(list: &Vec<Track>, p: &Vec<usize>, q: &Vec<usize>) -> (r: Vec<Track>)
    requires
        are_places(p@, list.len() as int),
        are_places(q@, list.len() as int),
        in_told_order(at_places(list@, p@)),
        in_told_order(at_places(list@, q@)),
        all_portable(at_places(list@, p@)),
        forall|i: int|
            0 <= i < q.len() ==> !portable((#[trigger] at_places(list@, q@)[i]).path@),
    ensures
        in_told_order(r@),
        with_portable(r@) == at_places(list@, p@),
        r@.to_multiset() == at_places(list@, p@).to_multiset().add(
            at_places(list@, q@).to_multiset(),
        ),
        r.len() == p.len() + q.len(),
{
    let ghost a = at_places(list@, p@);
    let ghost b = at_places(list@, q@);
    let mut out: Vec<Track> = Vec::new();
    let mut i: usize = 0;
    let mut j: usize = 0;
    proof {
        broadcast use vstd::seq_lib::group_to_multiset_ensures;

        assert(a.take(0) =~= Seq::<Track>::empty());
        assert(b.take(0) =~= Seq::<Track>::empty());
        assert(out@.to_multiset() =~= a.take(0).to_multiset().add(b.take(0).to_multiset()));
    }
    while i < p.len() || j < q.len()
        invariant
            a == at_places(list@, p@),
            b == at_places(list@, q@),
            are_places(p@, list.len() as int),
            are_places(q@, list.len() as int),
            in_told_order(a),
            in_told_order(b),
            all_portable(a),
            forall|i: int| 0 <= i < b.len() ==> !portable((#[trigger] b[i]).path@),
            i <= p.len(),
            j <= q.len(),
            in_told_order(out@),
            with_portable(out@) == a.take(i as int),
            out@.to_multiset() == a.take(i as int).to_multiset().add(
                b.take(j as int).to_multiset(),
            ),
            out.len() == i + j,
            out.len() > 0 && i < p.len() ==> may_lead(out@.last(), a[i as int]),
            out.len() > 0 && j < q.len() ==> may_lead(out@.last(), b[j as int]),
        decreases p.len() - i + q.len() - j,
    {
        let ghost was = out@;
        assert(i < p.len() ==> p@[i as int] < list.len() && a[i as int]
            == list@[p@[i as int] as int]);
        assert(j < q.len() ==> q@[j as int] < list.len() && b[j as int]
            == list@[q@[j as int] as int]);
        let first = if i == p.len() {
            false
        } else if j == q.len() {
            true
        } else {
            let x = list[p[i]].path.as_str();
            let y = list[q[j]].path.as_str();
            path_not_after(x, y) && (p[i] < q[j] || !path_not_after(y, x))
        };
        let place = if first {
            p[i]
        } else {
            q[j]
        };
        out.push(list[place].clone());
        proof {
            let t = list@[place as int];
            assert(was.push(t).drop_last() =~= was);
            broadcast use vstd::seq_lib::group_to_multiset_ensures;

            if first {
                assert(a.take(i + 1) =~= a.take(i as int).push(t));
                assert(portable(a[i as int].path@));
            } else {
                assert(b.take(j + 1) =~= b.take(j as int).push(t));
            }
            assert(was.push(t).to_multiset() =~= was.to_multiset().insert(t));
            assert forall|m: int, n: int|
                0 <= m && n == m + 1 && n < was.push(t).len() implies may_lead(
                #[trigger] was.push(t)[m],
                #[trigger] was.push(t)[n],
            ) by {
                if n < was.len() {
                    assert(was.push(t)[m] == was[m] && was.push(t)[n] == was[n]);
                }
            }
        }
        if first {
            i = i + 1;
        } else {
            j = j + 1;
        }
        proof {
            broadcast use vstd::seq_lib::group_to_multiset_ensures;

            assert(out@.to_multiset() =~= a.take(i as int).to_multiset().add(
                b.take(j as int).to_multiset(),
            ));
        }
    }
    assert(a.take(i as int) =~= a);
    assert(b.take(j as int) =~= b);
    out
}

/// Sorts tracks by their paths.
pub fn sort_by_path(list: &Vec<Track>) -> (r: Vec<Track>)
    ensures
        path_sorted(list@, r@),
{
    let mut p: Vec<usize> = Vec::new();
    let mut q: Vec<usize> = Vec::new();
    let mut i: usize = 0;
    proof {
        lemma_sort_empty(by_path());
        assert(list@.take(0) =~= Seq::<Track>::empty());
        assert(at_places(list@, p@) =~= Seq::<Track>::empty());
        assert(at_places(list@, q@) =~= Seq::<Track>::empty());
    }
    while i < list.len()
        invariant
            i <= list.len(),
            are_places(p@, list.len() as int),
            are_places(q@, list.len() as int),
            told_sorted(with_portable(list@.take(i as int)), at_places(list@, p@)),
            told_sorted(with_others(list@.take(i as int)), at_places(list@, q@)),
            forall|k: int|
                0 <= k < q.len() ==> !portable((#[trigger] at_places(list@, q@)[k]).path@),
        decreases list.len() - i,
    {
        let ghost done = list@.take(i as int);
        let ghost t = list@[i as int];
        assert(list@.take(i + 1).drop_last() =~= done);
        let ghost (p0, q0) = (p@, q@);
        if is_portable(list[i].path.as_str()) {
            insert_by_path(list, &mut p, i, Ghost(with_portable(done)));
            proof {
                let k = choose|k: int| 0 <= k <= p0.len() && p@ == #[trigger] p0.insert(k, i);
                assert(are_places(p@, list.len() as int));
            }
        } else {
            insert_by_path(list, &mut q, i, Ghost(with_others(done)));
            proof {
                let k = choose|k: int| 0 <= k <= q0.len() && q@ == #[trigger] q0.insert(k, i);
                assert(are_places(q@, list.len() as int));
                let b0 = at_places(list@, q0);
                assert(at_places(list@, q@) =~= b0.insert(k, t));
                assert forall|m: int| 0 <= m < q.len() implies !portable(
                    (#[trigger] at_places(list@, q@)[m]).path@,
                ) by {
                    if m < k {
                        assert(at_places(list@, q@)[m] == b0[m]);
                    } else if m > k {
                        assert(at_places(list@, q@)[m] == b0[m - 1]);
                    }
                }
            }
        }
        i = i + 1;
    }
    assert(list@.take(i as int) =~= list@);
    proof {
        lemma_parts_of_list(list@);
    }
    let out = merge_by_path(list, &p, &q);
    proof {
        broadcast use vstd::seq_lib::group_to_multiset_ensures;

        assert(out@.to_multiset().len() == out@.len());
        assert(list@.to_multiset().len() == list@.len());
    }
    out
}

/// Whether an extension is that of a playlist file.
pub open spec fn playlist_extension(ext: Option<Seq<char>>) -> bool {
    match ext {
        Some(e) => lowercased(e) == "m3u"@ || lowercased(e) == "m3u8"@,
        None => false,
    }
}

/// Whether an extension is that of a playlist file.
pub fn names_playlist(ext: &Option<String>) -> (r: bool)
    ensures
        r == playlist_extension(text_view(*ext)),
{
    match ext {
        Some(e) => {
            let e = e.to_lowercase();
            same(e.as_str(), "m3u") || same(e.as_str(), "m3u8")
        },
        None => false,
    }
}

/// Whether a path names a playlist file.
pub fn is_playlist_path(path: &str) -> (r: bool)
    ensures
        may_name_playlist(path@, r),
{
    let ext = path_extension(path);
    assert(may_extend(path@, text_view(ext)));
    names_playlist(&ext)
}

/// What stands at a path that is to be played: a playlist file with the paths
/// that it names and which of them are files, one file, a folder with the files
/// in it at any depth, or nothing.
pub enum Source {
    List(Vec<String>, Vec<bool>),
    File(String),
    Folder(Vec<String>),
    Nothing,
}

impl Source {
    /// The paths that a source holds.
    pub open spec fn paths(self) -> Seq<String> {
        match self {
            Source::List(p, _) => p@,
            Source::File(p) => seq![p],
            Source::Folder(p) => p@,
            Source::Nothing => Seq::empty(),
        }
    }

    /// Of every path that a playlist file names it is known whether it is a file.
    pub open spec fn wf(self) -> bool {
        self matches Source::List(p, there) ==> p.len() == there.len()
    }
}

/// Why there is nothing to play, or nowhere to save to.
#[derive(Clone, Copy, Debug, PartialEq, Eq, Structural)]
pub enum PlaylistError {
    NoMedia,
    NoMediaInPlaylist,
    NoConfigDir,
}

impl PlaylistError {
    /// What is told of it.
    pub fn message(self) -> (r: &'static str)
        ensures
            r@ == (match self {
                PlaylistError::NoMedia => "No audio or video files found"@,
                PlaylistError::NoMediaInPlaylist => "No audio or video files found in playlist"@,
                PlaylistError::NoConfigDir => "Could not determine config directory"@,
            }),
    {
        match self {
            PlaylistError::NoMedia => "No audio or video files found",
            PlaylistError::NoMediaInPlaylist => "No audio or video files found in playlist",
            PlaylistError::NoConfigDir => "Could not determine config directory",
        }
    }
}

/// A list, shuffled where there is a seed.
pub open spec fn maybe_shuffled(list: Seq<Track>, seed: Option<u64>) -> Seq<Track> {
    match seed {
        Some(s) => shuffle_of(list, s),
        None => list,
    }
}

/// The playlist that a source gives, its paths having these extensions. Of a
/// folder the tracks come in the order of their paths, unless a seed shuffles
/// them; those of a playlist file in its order, unless a seed does. One file is
/// played whatever its extension.
pub open spec fn is_playlist_of(
    source: Source,
    exts: Seq<Option<String>>,
    seed: Option<u64>,
    r: Result<Seq<Track>, PlaylistError>,
) -> bool {
    match source {
        Source::List(paths, there) => {
            let t = taken(paths@, exts, there@, paths.len() as int);
            if t.len() == 0 {
                r == Err::<Seq<Track>, PlaylistError>(PlaylistError::NoMediaInPlaylist)
            } else {
                r == Ok::<Seq<Track>, PlaylistError>(maybe_shuffled(t, seed))
            }
        },
        Source::File(path) => r == Ok::<Seq<Track>, PlaylistError>(
            seq![Track { path, kind: kind_for(text_view(exts[0])) }],
        ),
        Source::Folder(paths) => {
            let t = taken(paths@, exts, Seq::new(paths@.len(), |i: int| true), paths.len() as int);
            if t.len() == 0 {
                r == Err::<Seq<Track>, PlaylistError>(PlaylistError::NoMedia)
            } else {
                exists|sorted: Seq<Track>| #[trigger]
                    path_sorted(t, sorted) && r == Ok::<Seq<Track>, PlaylistError>(
                        maybe_shuffled(sorted, seed),
                    )
            }
        },
        Source::Nothing => r == Err::<Seq<Track>, PlaylistError>(PlaylistError::NoMedia),
    }
}

/// The tracks of a playlist that was built.
pub open spec fn built_view(r: Result<Vec<Track>, PlaylistError>) -> Result<
    Seq<Track>,
    PlaylistError,
> {
    match r {
        Ok(v) => Ok(v@),
        Err(e) => Err(e),
    }
}

/// The playlist that a source gives, where its paths have these extensions.
pub fn playlist_from(source: &Source, exts: &Vec<Option<String>>, seed: Option<u64>) -> (r: Result<
    Vec<Track>,
    PlaylistError,
>)
    requires
        source.wf(),
        exts.len() == source.paths().len(),
    ensures
        is_playlist_of(*source, exts@, seed, built_view(r)),
{
    let mut list: Vec<Track>;
    match source {
        Source::List(paths, there) => {
            list = tracks_from(paths, exts, there);
            if list.len() == 0 {
                return Err(PlaylistError::NoMediaInPlaylist);
            }
        },
        Source::File(path) => {
            let ext = match &exts[0] {
                Some(e) => Some(e.clone()),
                None => None,
            };
            let mut one: Vec<Track> = Vec::new();
            one.push(Track { path: path.clone(), kind: media_kind_for_extension(ext) });
            assert(text_view(ext) == text_view(exts@[0]));
            assert(one@ =~= seq![Track { path: *path, kind: kind_for(text_view(exts@[0])) }]);
            return Ok(one);
        },
        Source::Folder(paths) => {
            let mut all: Vec<bool> = Vec::new();
            while all.len() < paths.len()
                invariant
                    all.len() <= paths.len(),
                    forall|i: int| 0 <= i < all.len() ==> all@[i],
                decreases paths.len() - all.len(),
            {
                all.push(true);
            }
            assert(all@ =~= Seq::new(paths@.len(), |i: int| true));
            let found = tracks_from(paths, exts, &all);
            if found.len() == 0 {
                return Err(PlaylistError::NoMedia);
            }
            list = sort_by_path(&found);
        },
        Source::Nothing => {
            return Err(PlaylistError::NoMedia);
        },
    }
    match seed {
        Some(s) => shuffle_tracks_from(&mut list, s),
        None => {},
    }
    Ok(list)
}

/// The paths that a source holds.
fn source_paths(source: &Source) -> (r: Vec<String>)
    ensures
        r@ == source.paths(),
{
    let mut out: Vec<String> = Vec::new();
    match source {
        Source::List(p, _) | Source::Folder(p) => {
            let mut i: usize = 0;
            while i < p.len()
                invariant
                    i <= p.len(),
                    out@ == p@.take(i as int),
                decreases p.len() - i,
            {
                out.push(p[i].clone());
                assert(p@.take(i as int).push(p@[i as int]) =~= p@.take(i + 1));
                i = i + 1;
            }
            assert(p@.take(i as int) =~= p@);
        },
        Source::File(p) => {
            out.push(p.clone());
        },
        Source::Nothing => {},
    }
    assert(out@ =~= source.paths());
    out
}

/// Builds the playlist that a source gives, shuffled by the present time where
/// that is asked for.
pub fn build_playlist(source: &Source, shuffle: bool) -> (r: Result<Vec<Track>, PlaylistError>)
    requires
        source.wf(),
    ensures
        exists|exts: Seq<Option<String>>, seed: Option<u64>|
            {
                &&& known_extensions(source.paths(), exts)
                &&& seed is Some <==> shuffle
                &&& #[trigger] is_playlist_of(*source, exts, seed, built_view(r))
            },
{
    let exts = extensions_of(&source_paths(source));
    let seed = if shuffle {
        Some(shuffle_seed(clock_nanos()))
    } else {
        None
    };
    playlist_from(source, &exts, seed)
}

/// Whether `base` is the folder in which a playlist file looks for its files:
/// the one that it stands in, or the current one.
pub open spec fn is_folder_of(base: Seq<char>, list_path: Seq<char>) -> bool {
    ||| may_be_parent(list_path, Some(base))
    ||| base == "."@ && may_be_parent(list_path, None)
}

/// Whether `r` are the paths that the text of a playlist file names: those that
/// are not from the root are taken from the folder of the playlist file.
pub open spec fn are_m3u_paths(list_path: Seq<char>, content: Seq<char>, r: Seq<String>) -> bool {
    let names = named_files(lines_of(content));
    &&& r.len() == names.len()
    &&& exists|base: Seq<char>| #[trigger]
        is_folder_of(base, list_path) && forall|i: int|
            0 <= i < r.len() ==> may_be_joined(r[i]@, base, #[trigger] names[i])
}

/// The paths that the text of a playlist file names.
pub fn m3u_paths(list_path: &str, content: &str) -> (r: Vec<String>)
    ensures
        are_m3u_paths(list_path@, content@, r@),
{
    let folder = path_parent(list_path);
    assert(may_be_parent(list_path@, text_view(folder)));
    let base = match folder {
        Some(p) => p,
        None => ".".to_string(),
    };
    let names = m3u_entries(content);
    let ghost all = named_files(lines_of(content@));
    let mut out: Vec<String> = Vec::new();
    let mut i: usize = 0;
    proof {
        assert(is_folder_of(base@, list_path@));
    }
    while i < names.len()
        invariant
            texts(names@) == all,
            i <= names.len(),
            out.len() == i,
            is_folder_of(base@, list_path@),
            forall|k: int|
                0 <= k < i ==> may_be_joined(out@[k]@, base@, #[trigger] all[k]),
        decreases names.len() - i,
    {
        assert(all[i as int] == names@[i as int]@);
        out.push(path_join(base.as_str(), names[i].as_str()));
        i = i + 1;
    }
    out
}

/// A path from the root that was saved in a playlist is named again when the
/// playlist is read, wherever its file stands, but on a drive or a share. For a
/// path with a drive in front one is named that ends with it.
pub proof fn law_saved_paths_are_read_back(
    list_path: Seq<char>,
    paths: Seq<Seq<char>>,
    r: Seq<String>,
)
    requires
        !double_front(list_path),
        !colon_second(list_path),
        forall|i: int| 0 <= i < paths.len() ==> fits_m3u(#[trigger] paths[i]),
        are_m3u_paths(list_path, m3u_content(paths), r),
    ensures
        r.len() == paths.len(),
        forall|i: int|
            0 <= i < paths.len() && paths[i][0] == '/' ==> #[trigger] r[i]@ == paths[i],
        forall|i: int|
            0 <= i < paths.len() && colon_second(paths[i]) ==> paths[i].is_suffix_of(
                #[trigger] r[i]@,
            ),
{
    law_m3u_round_trip(paths);
    reveal_strlit(".");
    let base = choose|base: Seq<char>| #[trigger]
        is_folder_of(base, list_path) && forall|i: int|
            0 <= i < r.len() ==> may_be_joined(r[i]@, base, #[trigger] paths[i]);
    assert(!double_front(base) && !colon_second(base));
    assert forall|i: int| 0 <= i < paths.len() && paths[i][0] == '/' implies #[trigger] r[i]@
        == paths[i] by {
        assert(fits_m3u(paths[i]));
        assert(may_be_joined(r[i]@, base, paths[i]));
    }
    assert forall|i: int| 0 <= i < paths.len() && colon_second(paths[i]) implies paths[i].is_suffix_of(
        #[trigger] r[i]@,
    ) by {
        assert(may_be_joined(r[i]@, base, paths[i]));
    }
}

/// Whether `there` says of each path what `is_file` says of it.
pub open spec fn are_files<F: Fn(&str) -> bool>(
    is_file: F,
    paths: Seq<String>,
    there: Seq<bool>,
) -> bool {
    &&& there.len() == paths.len()
    &&& forall|i: int| 0 <= i < paths.len() ==> says(is_file, #[trigger] paths[i]@, there[i])
}

/// Whether `is_file` says this of a path.
pub open spec fn says<F: Fn(&str) -> bool>(is_file: F, path: Seq<char>, there: bool) -> bool {
    exists|p: &str| p@ == path && #[trigger] call_ensures(is_file, (p,), there)
}

/// The playlist of the paths that a playlist file names.
pub open spec fn is_list_read(
    paths: Seq<String>,
    exts: Seq<Option<String>>,
    there: Seq<bool>,
    r: Result<Seq<Track>, PlaylistError>,
) -> bool {
    let t = taken(paths, exts, there, paths.len() as int);
    if t.len() == 0 {
        r == Err::<Seq<Track>, PlaylistError>(PlaylistError::NoMediaInPlaylist)
    } else {
        r == Ok::<Seq<Track>, PlaylistError>(t)
    }
}

/// Reads a playlist file: the tracks that it names, in its order, as far as they
/// are files that are played.
pub fn parse_m3u<F: Fn(&str) -> bool>(path: &str, content: &str, is_file: F) -> (r: Result<
    Vec<Track>,
    PlaylistError,
>)
    requires
        forall|p: &str| #[trigger] call_requires(is_file, (p,)),
    ensures
        exists|paths: Seq<String>, exts: Seq<Option<String>>, there: Seq<bool>|
            {
                &&& are_m3u_paths(path@, content@, paths)
                &&& known_extensions(paths, exts)
                &&& are_files(is_file, paths, there)
                &&& #[trigger] is_list_read(paths, exts, there, built_view(r))
            },
{
    let paths = m3u_paths(path, content);
    let exts = extensions_of(&paths);
    let mut there: Vec<bool> = Vec::new();
    while there.len() < paths.len()
        invariant
            there.len() <= paths.len(),
            forall|p: &str| #[trigger] call_requires(is_file, (p,)),
            forall|i: int| 0 <= i < there.len() ==> says(is_file, #[trigger] paths@[i]@, there@[i]),
        decreases paths.len() - there.len(),
    {
        let p = paths[there.len()].as_str();
        let found = is_file(p);
        assert(says(is_file, p@, found));
        there.push(found);
    }
    let list = tracks_from(&paths, &exts, &there);
    let r = if list.len() == 0 {
        Err(PlaylistError::NoMediaInPlaylist)
    } else {
        Ok(list)
    };
    assert(is_list_read(paths@, exts@, there@, built_view(r)));
    r
}

/// The paths of tracks and their kinds.
pub open spec fn track_views(list: Seq<Track>) -> Seq<(Seq<char>, MediaKind)> {
    list.map_values(|t: Track| t@)
}

/// Whether a file has this extension, and the track at it is one that is played.
pub open spec fn plays_as(t: Track, ext: Option<Seq<char>>) -> bool {
    ext matches Some(e) && is_supported(e) && t.kind == kind_for(Some(e))
}

proof fn lemma_all_taken(
    list: Seq<Track>,
    paths: Seq<String>,
    exts: Seq<Option<String>>,
    there: Seq<bool>,
    n: int,
)
    requires
        0 <= n <= list.len() == paths.len() == exts.len() == there.len(),
        forall|i: int| 0 <= i < list.len() ==> (#[trigger] paths[i])@ == list[i].path@,
        forall|i: int| 0 <= i < list.len() ==> plays_as(#[trigger] list[i], text_view(exts[i])),
        forall|i: int| 0 <= i < list.len() ==> #[trigger] there[i],
    ensures
        track_views(taken(paths, exts, there, n)) == track_views(list.take(n)),
    decreases n,
{
    if n > 0 {
        lemma_all_taken(list, paths, exts, there, n - 1);
        let t = list[n - 1];
        let front = taken(paths, exts, there, n - 1);
        assert(plays_as(t, text_view(exts[n - 1])) && there[n - 1]);
        assert(paths[n - 1]@ == t.path@);
        assert(list.take(n) =~= list.take(n - 1).push(t));
        let got = taken(paths, exts, there, n).last();
        assert(got@ == t@);
        assert(track_views(taken(paths, exts, there, n)) =~= track_views(front).push(t@));
        assert(track_views(list.take(n)) =~= track_views(list.take(n - 1)).push(t@));
    } else {
        assert(track_views(taken(paths, exts, there, n)) =~= track_views(list.take(n)));
    }
}

/// A playlist of tracks at paths from the root that was saved gives the same tracks in the
/// same order when it is read, where they are all files with an extension that is played,
/// and the playlist file stands neither on a drive nor on a share.
pub proof fn law_saved_tracks_are_read_back(
    list_path: Seq<char>,
    list: Seq<Track>,
    paths: Seq<String>,
    exts: Seq<Option<String>>,
    there: Seq<bool>,
    r: Result<Seq<Track>, PlaylistError>,
)
    requires
        !double_front(list_path),
        !colon_second(list_path),
        list.len() > 0,
        forall|i: int|
            0 <= i < list.len() ==> fits_m3u((#[trigger] list[i]).path@) && list[i].path@[0]
                == '/',
        are_m3u_paths(list_path, m3u_content(paths_of(list)), paths),
        known_extensions(paths, exts),
        forall|i: int| 0 <= i < list.len() ==> plays_as(#[trigger] list[i], text_view(exts[i])),
        there.len() == paths.len(),
        forall|i: int| 0 <= i < there.len() ==> #[trigger] there[i],
        is_list_read(paths, exts, there, r),
    ensures
        r is Ok,
        track_views(r->Ok_0) == track_views(list),
{
    let all = paths_of(list);
    assert forall|i: int| 0 <= i < all.len() implies fits_m3u(#[trigger] all[i]) by {
        assert(all[i] == list[i].path@);
    }
    law_saved_paths_are_read_back(list_path, all, paths);
    assert forall|i: int| 0 <= i < list.len() implies (#[trigger] paths[i])@ == list[i].path@ by {
        assert(all[i] == list[i].path@);
    }
    let n = list.len() as int;
    lemma_all_taken(list, paths, exts, there, n);
    assert(list.take(n) =~= list);
    let t = taken(paths, exts, there, n);
    assert(track_views(t).len() == t.len());
    assert(track_views(list).len() == list.len());
}

/// The same of tracks at portable paths, whose extension every system finds.
pub proof fn law_saved_portable_tracks_are_read_back(
    list_path: Seq<char>,
    list: Seq<Track>,
    paths: Seq<String>,
    exts: Seq<Option<String>>,
    there: Seq<bool>,
    r: Result<Seq<Track>, PlaylistError>,
)
    requires
        !double_front(list_path),
        !colon_second(list_path),
        list.len() > 0,
        forall|i: int|
            0 <= i < list.len() ==> fits_m3u((#[trigger] list[i]).path@) && list[i].path@[0] == '/'
                && portable(list[i].path@) && plays_as(list[i], extension_of(list[i].path@)),
        are_m3u_paths(list_path, m3u_content(paths_of(list)), paths),
        known_extensions(paths, exts),
        there.len() == paths.len(),
        forall|i: int| 0 <= i < there.len() ==> #[trigger] there[i],
        is_list_read(paths, exts, there, r),
    ensures
        r is Ok,
        track_views(r->Ok_0) == track_views(list),
{
    let all = paths_of(list);
    assert forall|i: int| 0 <= i < all.len() implies fits_m3u(#[trigger] all[i]) by {
        assert(all[i] == list[i].path@);
    }
    law_saved_paths_are_read_back(list_path, all, paths);
    assert forall|i: int| 0 <= i < list.len() implies plays_as(
        #[trigger] list[i],
        text_view(exts[i]),
    ) by {
        assert(all[i] == list[i].path@);
        assert(paths[i]@ == all[i]);
        assert(may_extend(paths[i]@, text_view(exts[i])));
    }
    law_saved_tracks_are_read_back(list_path, list, paths, exts, there, r);
}

/// Whether a name for a playlist ends as playlist files do.
pub open spec fn ends_as_playlist(name: Seq<char>) -> bool {
    ".m3u"@.is_suffix_of(name) || ".m3u8"@.is_suffix_of(name)
}

/// Whether a name for a playlist is a path.
pub open spec fn is_path_name(name: Seq<char>) -> bool {
    name.contains('/') || name.contains('\\')
}

/// The configuration folder of the program in the folder of the system's settings
/// (`windows`) or in the home folder.
pub open spec fn config_dir_in(windows: bool, base: Seq<char>) -> Seq<char> {
    if windows {
        named_in(true, base, "keet"@)
    } else {
        named_in(false, named_in(false, base, ".config"@), "keet"@)
    }
}

/// The configuration folder of the program, given the folder of the system's
/// settings (`windows`) or the home folder.
pub fn keet_config_dir(windows: bool, base: Option<String>) -> (r: Option<String>)
    ensures
        text_view(r) == (match base {
            Some(b) => Some(config_dir_in(windows, b@)),
            None => None,
        }),
{
    proof {
        reveal_strlit("keet");
        reveal_strlit(".config");
    }
    match base {
        Some(b) => if windows {
            Some(name_in(true, b.as_str(), "keet"))
        } else {
            let mid = name_in(false, b.as_str(), ".config");
            Some(name_in(false, mid.as_str(), "keet"))
        },
        None => None,
    }
}

/// The file name that a playlist with a plain name gets.
pub open spec fn playlist_file_name(name: Seq<char>) -> Seq<char> {
    if ends_as_playlist(name) {
        name
    } else {
        name + ".m3u"@
    }
}

/// Whether a playlist is saved to `r`. A name that is a path stands for that
/// file, with the extension of playlists; another name for a file among the
/// playlists of the configuration folder. None where that folder is not known.
pub open spec fn is_save_path(
    windows: bool,
    name: Seq<char>,
    config_dir: Option<Seq<char>>,
    r: Option<Seq<char>>,
) -> bool {
    &&& r is None <==> !is_path_name(name) && config_dir is None
    &&& is_path_name(name) && ends_as_playlist(name) ==> r == Some(name)
    &&& is_path_name(name) && !ends_as_playlist(name) ==> may_be_extended(name, "m3u"@, r->0)
    &&& !is_path_name(name) ==> (config_dir matches Some(dir) ==> r == Some(
        list_file_in(windows, dir, name),
    ))
}

/// The file of a playlist with a plain name, given the configuration folder.
pub open spec fn list_file_in(windows: bool, dir: Seq<char>, name: Seq<char>) -> Seq<char> {
    named_in(windows, named_in(windows, dir, "playlists"@), playlist_file_name(name))
}

/// The file that a playlist is saved to.
pub fn save_path(windows: bool, name: &str, config_dir: Option<String>) -> (r: Option<String>)
    ensures
        is_save_path(windows, name@, text_view(config_dir), text_view(r)),
{
    proof {
        reveal_strlit("m3u");
        reveal_strlit(".m3u");
        reveal_strlit("playlists");
    }
    let v = to_chars(name);
    let ready = ends_with(name, ".m3u") || ends_with(name, ".m3u8");
    if holds_char(&v, '/') || holds_char(&v, '\\') {
        if ready {
            Some(name.to_string())
        } else {
            Some(path_with_extension(name, "m3u"))
        }
    } else {
        match config_dir {
            Some(dir) => {
                let lists = name_in(windows, dir.as_str(), "playlists");
                let mut file = name.to_string();
                if !ready {
                    file.append(".m3u");
                }
                proof {
                    assert(file@ == playlist_file_name(name@));
                    assert forall|k: int| 0 <= k < file@.len() implies file@[k] != '/' && file@[k]
                        != '\\' by {
                        if k < name@.len() {
                            assert(file@[k] == name@[k]);
                            assert(name@.contains(name@[k]));
                        } else {
                            assert(file@[k] == ".m3u"@[k - name@.len()]);
                        }
                    }
                }
                Some(name_in(windows, lists.as_str(), file.as_str()))
            },
            None => None,
        }
    }
}

/// Off Windows a playlist with a plain name is saved among the playlists of the
/// configuration folder in the home folder.
pub proof fn law_plain_names_are_kept_at_home(home: Seq<char>, name: Seq<char>, r: Option<Seq<char>>)
    requires
        home.len() > 0,
        home.last() != '/',
        !is_path_name(name),
        is_save_path(false, name, Some(config_dir_in(false, home)), r),
    ensures
        r == Some(home + "/.config/keet/playlists/"@ + playlist_file_name(name)),
{
    reveal_strlit(".config");
    reveal_strlit("keet");
    reveal_strlit("playlists");
    reveal_strlit("/.config/keet/playlists/");
    let mid = home + seq!['/'] + ".config"@;
    let dir = mid + seq!['/'] + "keet"@;
    let lists = dir + seq!['/'] + "playlists"@;
    assert(mid.last() == 'g' && dir.last() == 't' && lists.last() == 's');
    assert(lists + seq!['/'] + playlist_file_name(name) =~= home + "/.config/keet/playlists/"@
        + playlist_file_name(name));
}

/// A playlist that is saved: the file and its text.
pub struct SavedPlaylist {
    pub path: String,
    pub content: String,
}

/// Where and how a playlist is saved under a name.
pub fn save_m3u(
    playlist: &Vec<Track>,
    windows: bool,
    name: &str,
    config_dir: Option<String>,
) -> (r: Result<SavedPlaylist, PlaylistError>)
    ensures
        match r {
            Ok(saved) => {
                &&& is_save_path(windows, name@, text_view(config_dir), Some(saved.path@))
                &&& saved.content@ == m3u_content(paths_of(playlist@))
            },
            Err(e) => {
                &&& e == PlaylistError::NoConfigDir
                &&& is_save_path(windows, name@, text_view(config_dir), None)
            },
        },
{
    match save_path(windows, name, config_dir) {
        Some(path) => Ok(SavedPlaylist { path, content: m3u_text(playlist) }),
        None => Err(PlaylistError::NoConfigDir),
    }
}

/// Whether characters hold one.
fn holds_char(v: &Vec<char>, c: char) -> (r: bool)
    ensures
        r == v@.contains(c),
{
    let mut i: usize = 0;
    while i < v.len()
        invariant
            i <= v.len(),
            forall|k: int| 0 <= k < i ==> v@[k] != c,
        decreases v.len() - i,
    {
        if v[i] == c {
            return true;
        }
        i = i + 1;
    }
    false
}

/// Numbers that tell paths apart. A path has one number. Portable paths have the
/// same number where they have the same components, and only there; and any two
/// paths with the same number are alike.
pub open spec fn tells_apart(paths: Seq<Seq<char>>, ids: Seq<usize>) -> bool {
    &&& ids.len() == paths.len()
    &&& told_apart(paths, ids, paths.len() as int)
}

/// Whether the first `n` numbers tell the paths apart.
pub open spec fn told_apart(paths: Seq<Seq<char>>, ids: Seq<usize>, n: int) -> bool {
    forall|i: int, j: int|
        0 <= i < n && 0 <= j < n ==> {
            &&& paths[i] == paths[j] ==> #[trigger] ids[i] == #[trigger] ids[j]
            &&& portable(paths[i]) && portable(paths[j]) ==> (ids[i] == ids[j] <==> parts(paths[i])
                == parts(paths[j]))
            &&& ids[i] == ids[j] ==> alike(paths[i], paths[j])
        }
}

/// Whether each of the first `n` numbers is the place of a path that is alike, the
/// path itself or one in front of it.
spec fn leads(paths: Seq<Seq<char>>, ids: Seq<usize>, n: int) -> bool {
    forall|i: int|
        0 <= i < n ==> {
            &&& #[trigger] ids[i] <= i
            &&& alike(paths[ids[i] as int], paths[i])
        }
}

/// One more number behind those that tell paths apart.
proof fn lemma_number_step(paths: Seq<Seq<char>>, ids: Seq<usize>, n: int, id: usize)
    requires
        0 <= n < paths.len(),
        ids.len() == n,
        told_apart(paths, ids, n),
        leads(paths, ids, n),
        id <= n,
        alike(paths[id as int], paths[n]),
        (exists|k: int| 0 <= k < n && paths[k] == paths[n] && ids[k] == id) || (forall|k: int|
            0 <= k < n ==> #[trigger] paths[k] != paths[n]),
        portable(paths[n]) ==> (exists|k: int|
            0 <= k < n && #[trigger] portable(paths[k]) && parts(paths[k]) == parts(paths[n])
                && ids[k] == id) || (forall|k: int|
            0 <= k < n && #[trigger] portable(paths[k]) ==> parts(paths[k]) != parts(paths[n])),
    ensures
        told_apart(paths, ids.push(id), n + 1),
        leads(paths, ids.push(id), n + 1),
{
    let next = ids.push(id);
    assert forall|i: int| 0 <= i < n implies {
        &&& paths[i] == paths[n] ==> #[trigger] next[i] == id
        &&& portable(paths[i]) && portable(paths[n]) ==> (next[i] == id <==> parts(paths[i])
            == parts(paths[n]))
        &&& next[i] == id ==> alike(paths[i], paths[n])
    } by {
        assert(next[i] == ids[i]);
        if paths[i] == paths[n] {
            let k = choose|k: int| 0 <= k < n && paths[k] == paths[n] && ids[k] == id;
            assert(ids[i] == ids[k]);
        }
        if portable(paths[i]) && portable(paths[n]) {
            lemma_portable_behind_drive(paths[i]);
            lemma_portable_behind_drive(paths[n]);
            if parts(paths[i]) == parts(paths[n]) {
                let k = choose|k: int|
                    0 <= k < n && #[trigger] portable(paths[k]) && parts(paths[k]) == parts(
                        paths[n],
                    ) && ids[k] == id;
                assert(ids[i] == ids[k]);
            }
        }
    }
    assert forall|i: int, j: int| 0 <= i < n + 1 && 0 <= j < n + 1 implies {
        &&& paths[i] == paths[j] ==> #[trigger] next[i] == #[trigger] next[j]
        &&& portable(paths[i]) && portable(paths[j]) ==> (next[i] == next[j] <==> parts(paths[i])
            == parts(paths[j]))
        &&& next[i] == next[j] ==> alike(paths[i], paths[j])
    } by {
        if i < n && j < n {
            assert(next[i] == ids[i] && next[j] == ids[j]);
        }
    }
    assert forall|i: int| 0 <= i < n + 1 implies {
        &&& #[trigger] next[i] <= i
        &&& alike(paths[next[i] as int], paths[i])
    } by {
        if i < n {
            assert(next[i] == ids[i]);
        }
    }
}

/// Whether a path is read in the same way on all systems.
fn is_portable(path: &str) -> (r: bool)
    ensures
        r == portable(path@),
{
    let v = to_chars(path);
    if holds_char(&v, '\\') {
        return false;
    }
    !(v.len() >= 2 && (v[1] == ':' || (v[0] == '/' && v[1] == '/')))
}

/// The number of the path at `n`: that of one in front of it that is the same, or
/// else its place.
fn number_of(paths: &Vec<String>, ids: &Vec<usize>) -> (r: usize)
    requires
        ids.len() < paths.len(),
        told_apart(texts(paths@), ids@, ids.len() as int),
        leads(texts(paths@), ids@, ids.len() as int),
    ensures
        told_apart(texts(paths@), ids@.push(r), ids.len() + 1),
        leads(texts(paths@), ids@.push(r), ids.len() + 1),
{
    let ghost all = texts(paths@);
    let n = ids.len();
    let path = paths[n].as_str();
    assert(all[n as int] == path@);
    let mut k: usize = 0;
    while k < n
        invariant
            all == texts(paths@),
            n == ids.len() < paths.len(),
            k <= n,
            path@ == all[n as int],
            told_apart(all, ids@, n as int),
            leads(all, ids@, n as int),
            forall|m: int| 0 <= m < k ==> #[trigger] all[m] != path@,
        decreases n - k,
    {
        assert(all[k as int] == paths@[k as int]@);
        if same(paths[k].as_str(), path) {
            proof {
                lemma_number_step(all, ids@, n as int, ids@[k as int]);
            }
            return ids[k];
        }
        k = k + 1;
    }
    if is_portable(path) {
        k = 0;
        while k < n
            invariant
                all == texts(paths@),
                n == ids.len() < paths.len(),
                k <= n,
                path@ == all[n as int],
                portable(path@),
                told_apart(all, ids@, n as int),
                leads(all, ids@, n as int),
                forall|m: int| 0 <= m < n ==> #[trigger] all[m] != path@,
                forall|m: int|
                    0 <= m < k && #[trigger] portable(all[m]) ==> parts(all[m]) != parts(path@),
            decreases n - k,
        {
            assert(all[k as int] == paths@[k as int]@);
            if is_portable(paths[k].as_str()) && path_same(paths[k].as_str(), path) {
                proof {
                    lemma_portable_behind_drive(all[k as int]);
                    lemma_portable_behind_drive(path@);
                    assert(alike(all[ids@[k as int] as int], all[k as int]));
                    lemma_number_step(all, ids@, n as int, ids@[k as int]);
                }
                return ids[k];
            }
            k = k + 1;
        }
    }
    k = 0;
    while k < n
        invariant
            all == texts(paths@),
            n == ids.len() < paths.len(),
            k <= n,
            path@ == all[n as int],
            told_apart(all, ids@, n as int),
            leads(all, ids@, n as int),
            forall|m: int| 0 <= m < n ==> #[trigger] all[m] != path@,
            portable(path@) ==> forall|m: int|
                0 <= m < n && #[trigger] portable(all[m]) ==> parts(all[m]) != parts(path@),
        decreases n - k,
    {
        assert(all[k as int] == paths@[k as int]@);
        if ids[k] == k && path_same(paths[k].as_str(), path) {
            proof {
                lemma_number_step(all, ids@, n as int, k);
            }
            return k;
        }
        k = k + 1;
    }
    proof {
        lemma_number_step(all, ids@, n as int, n);
    }
    n
}

/// Numbers the paths: each gets the place of the first path that is the same.
pub fn number_paths(paths: &Vec<String>) -> (r: Vec<usize>)
    ensures
        tells_apart(texts(paths@), r@),
{
    let mut out: Vec<usize> = Vec::new();
    while out.len() < paths.len()
        invariant
            out.len() <= paths.len(),
            told_apart(texts(paths@), out@, out.len() as int),
            leads(texts(paths@), out@, out.len() as int),
        decreases paths.len() - out.len(),
    {
        let id = number_of(paths, &out);
        out.push(id);
    }
    out
}

/// The tracks among the first `n` whose number is in a list.
pub open spec fn tracks_in(list: Seq<Track>, ids: Seq<usize>, among: Seq<usize>, n: int) -> Seq<
    Track,
>
    decreases n,
{
    if n <= 0 {
        Seq::empty()
    } else if among.contains(ids[n - 1]) {
        tracks_in(list, ids, among, n - 1).push(list[n - 1])
    } else {
        tracks_in(list, ids, among, n - 1)
    }
}

/// The tracks among the first `n` whose number is not in a list.
pub open spec fn tracks_not_in(list: Seq<Track>, ids: Seq<usize>, among: Seq<usize>, n: int) -> Seq<
    Track,
>
    decreases n,
{
    if n <= 0 {
        Seq::empty()
    } else if among.contains(ids[n - 1]) {
        tracks_not_in(list, ids, among, n - 1)
    } else {
        tracks_not_in(list, ids, among, n - 1).push(list[n - 1])
    }
}

/// Whether a list of numbers holds one.
pub fn has_number(list: &Vec<usize>, x: usize) -> (r: bool)
    ensures
        r == list@.contains(x),
{
    let mut i: usize = 0;
    while i < list.len()
        invariant
            i <= list.len(),
            forall|k: int| 0 <= k < i ==> list@[k] != x,
        decreases list.len() - i,
    {
        if list[i] == x {
            return true;
        }
        i = i + 1;
    }
    false
}

/// The playlist after a rescan: the tracks that were found again and the one
/// that is playing, in their order, then the new ones.
pub open spec fn rescanned(
    playlist: Seq<Track>,
    ids: Seq<usize>,
    fresh: Seq<Track>,
    fresh_ids: Seq<usize>,
    current: Option<usize>,
) -> Seq<Track> {
    let stay = match current {
        Some(c) => fresh_ids.push(c),
        None => fresh_ids,
    };
    tracks_in(playlist, ids, stay, playlist.len() as int) + tracks_not_in(
        fresh,
        fresh_ids,
        ids,
        fresh.len() as int,
    )
}

/// Takes over what a fresh scan found, where paths have these numbers. Gives
/// how many tracks are new and how many paths were not found again.
pub fn rescan_with(
    fresh: &Vec<Track>,
    fresh_ids: &Vec<usize>,
    playlist: &mut Vec<Track>,
    ids: &Vec<usize>,
    current: Option<usize>,
) -> (r: (usize, usize))
    requires
        fresh.len() == fresh_ids.len(),
        old(playlist).len() == ids.len(),
    ensures
        final(playlist)@ == rescanned(old(playlist)@, ids@, fresh@, fresh_ids@, current),
        r.0 == tracks_not_in(fresh@, fresh_ids@, ids@, fresh.len() as int).len(),
        r.1 == ids@.to_set().difference(fresh_ids@.to_set()).len(),
{
    let ghost stay = match current {
        Some(c) => fresh_ids@.push(c),
        None => fresh_ids@,
    };
    let mut kept: Vec<Track> = Vec::new();
    let mut gone: Vec<usize> = Vec::new();
    let mut i: usize = 0;
    proof {
        assert(gone@.to_set() =~= ids@.take(0).to_set().difference(fresh_ids@.to_set()));
    }
    while i < playlist.len()
        invariant
            playlist@ == old(playlist)@,
            playlist.len() == ids.len(),
            i <= playlist.len(),
            stay == (match current {
                Some(c) => fresh_ids@.push(c),
                None => fresh_ids@,
            }),
            kept@ == tracks_in(playlist@, ids@, stay, i as int),
            gone@.no_duplicates(),
            gone@.to_set() == ids@.take(i as int).to_set().difference(fresh_ids@.to_set()),
        decreases playlist.len() - i,
    {
        let found = has_number(fresh_ids, ids[i]);
        let playing = match current {
            Some(c) => c == ids[i],
            None => false,
        };
        proof {
            if current is Some {
                lemma_contains_push(fresh_ids@, current->0, ids@[i as int]);
            }
        }
        if found || playing {
            kept.push(playlist[i].clone());
        }
        let ghost was = gone@;
        let ghost id = ids@[i as int];
        let known = has_number(&gone, ids[i]);
        if !found && !known {
            gone.push(ids[i]);
        }
        proof {
            assert(ids@.take(i + 1) =~= ids@.take(i as int).push(id));
            assert(was.to_set().contains(id) == was.contains(id));
            assert forall|t: usize| gone@.to_set().contains(t) == ids@.take(
                i + 1,
            ).to_set().difference(fresh_ids@.to_set()).contains(t) by {
                lemma_contains_push(ids@.take(i as int), id, t);
                lemma_contains_push(was, id, t);
                assert(was.to_set().contains(t) == ids@.take(i as int).to_set().difference(
                    fresh_ids@.to_set(),
                ).contains(t));
            }
            assert(gone@.to_set() =~= ids@.take(i + 1).to_set().difference(fresh_ids@.to_set()));
        }
        i = i + 1;
    }
    proof {
        assert(ids@.take(i as int) =~= ids@);
        gone@.unique_seq_to_set();
    }
    let removed = gone.len();
    let mut added: usize = 0;
    let ghost front = kept@;
    let mut j: usize = 0;
    assert(front + tracks_not_in(fresh@, fresh_ids@, ids@, 0) =~= front);
    while j < fresh.len()
        invariant
            fresh.len() == fresh_ids.len(),
            j <= fresh.len(),
            added <= j,
            added == tracks_not_in(fresh@, fresh_ids@, ids@, j as int).len(),
            kept@ == front + tracks_not_in(fresh@, fresh_ids@, ids@, j as int),
        decreases fresh.len() - j,
    {
        if !has_number(ids, fresh_ids[j]) {
            kept.push(fresh[j].clone());
            added = added + 1;
            assert(kept@ =~= front + tracks_not_in(fresh@, fresh_ids@, ids@, j + 1));
        }
        j = j + 1;
    }
    *playlist = kept;
    (added, removed)
}

/// The paths of the fresh tracks, then of the playlist, then of the track that
/// is playing.
pub open spec fn scan_paths(
    fresh: Seq<Track>,
    playlist: Seq<Track>,
    current: Option<Seq<char>>,
) -> Seq<Seq<char>> {
    paths_of(fresh) + paths_of(playlist) + (match current {
        Some(c) => seq![c],
        None => Seq::empty(),
    })
}

/// What a rescan does, where `n` numbers the paths that it compares.
pub open spec fn is_rescan(
    fresh: Seq<Track>,
    before: Seq<Track>,
    current: Option<Seq<char>>,
    n: Seq<usize>,
    after: Seq<Track>,
    counts: (usize, usize),
) -> bool {
    let fresh_ids = n.take(fresh.len() as int);
    let ids = n.subrange(fresh.len() as int, (fresh.len() + before.len()) as int);
    let playing = match current {
        Some(_) => Some(n.last()),
        None => None,
    };
    &&& tells_apart(scan_paths(fresh, before, current), n)
    &&& after == rescanned(before, ids, fresh, fresh_ids, playing)
    &&& counts.0 == tracks_not_in(fresh, fresh_ids, ids, fresh.len() as int).len()
    &&& counts.1 == ids.to_set().difference(fresh_ids.to_set()).len()
}

/// The text behind a reference that may be missing.
pub open spec fn str_view(s: Option<&str>) -> Option<Seq<char>> {
    match s {
        Some(s) => Some(s@),
        None => None,
    }
}

/// Takes over what a fresh scan of the source found: tracks that are gone leave
/// the playlist, but for the one that is playing; new ones come at its end.
/// Gives how many tracks are new and how many paths were not found again.
pub fn rescan_playlist(
    fresh: &Vec<Track>,
    playlist: &mut Vec<Track>,
    current_track_path: Option<&str>,
) -> (r: (usize, usize))
    ensures
        exists|n: Seq<usize>| #[trigger]
            is_rescan(
                fresh@,
                old(playlist)@,
                str_view(current_track_path),
                n,
                final(playlist)@,
                r,
            ),
{
    let ghost now = str_view(current_track_path);
    let mut all: Vec<String> = Vec::new();
    push_paths(&mut all, fresh);
    let a = all.len();
    assert(texts(all@).len() == a);
    push_paths(&mut all, playlist);
    let b = all.len();
    assert(texts(all@).len() == b);
    match current_track_path {
        Some(c) => {
            all.push(c.to_string());
        },
        None => {},
    }
    assert(texts(all@) =~= scan_paths(fresh@, playlist@, now));
    let n = number_paths(&all);
    let fresh_ids = slice_of(&n, 0, a);
    let ids = slice_of(&n, a, b);
    assert(n@.subrange(0, a as int) =~= n@.take(a as int));
    let playing = match current_track_path {
        Some(_) => Some(n[b]),
        None => None,
    };
    let r = rescan_with(fresh, &fresh_ids, playlist, &ids, playing);
    assert(is_rescan(fresh@, old(playlist)@, now, n@, playlist@, r));
    r
}

/// The paths of a list of tracks.
pub fn track_paths(list: &Vec<Track>) -> (r: Vec<String>)
    ensures
        texts(r@) == paths_of(list@),
{
    let mut out: Vec<String> = Vec::new();
    push_paths(&mut out, list);
    assert(texts(out@) =~= paths_of(list@));
    out
}

/// Whether a track may be taken for the one at a path: with portable paths those
/// have the same components, and else they are alike.
pub open spec fn may_stand_at(t: Track, path: Seq<char>) -> bool {
    &&& portable(t.path@) && portable(path) ==> parts(t.path@) == parts(path)
    &&& alike(t.path@, path)
}

/// Whether a track has to be taken for the one at a path.
pub open spec fn stands_at(t: Track, path: Seq<char>) -> bool {
    t.path@ == path || (portable(t.path@) && portable(path) && parts(t.path@) == parts(path))
}

/// Whether `r` is the place of the first track at a path.
pub open spec fn is_place_of(list: Seq<Track>, path: Seq<char>, r: Option<usize>) -> bool {
    match r {
        Some(i) => {
            &&& i < list.len()
            &&& may_stand_at(list[i as int], path)
            &&& forall|k: int| 0 <= k < i ==> !stands_at(#[trigger] list[k], path)
        },
        None => forall|k: int| 0 <= k < list.len() ==> !stands_at(#[trigger] list[k], path),
    }
}

/// The place of the first track at a path.
pub fn place_of(list: &Vec<Track>, path: &str) -> (r: Option<usize>)
    ensures
        is_place_of(list@, path@, r),
{
    let mut i: usize = 0;
    while i < list.len()
        invariant
            i <= list.len(),
            forall|k: int| 0 <= k < i ==> !stands_at(#[trigger] list@[k], path@),
        decreases list.len() - i,
    {
        if path_same(list[i].path.as_str(), path) {
            return Some(i);
        }
        i = i + 1;
    }
    None
}

/// The tracks that the scans of the first `n` sources found, source by source. A
/// file that two sources hold is there once; a source that could not be scanned
/// adds nothing.
pub open spec fn joined_scans(fresh: Seq<Option<Vec<Track>>>, n: int) -> Seq<Track>
    decreases n,
{
    if n <= 0 {
        Seq::empty()
    } else {
        let front = joined_scans(fresh, n - 1);
        match fresh[n - 1] {
            Some(f) => front + elsewhere(f@, paths_of(front), f.len() as int),
            None => front,
        }
    }
}

/// Those of the first `n` tracks with a path that is not among these.
pub open spec fn elsewhere(list: Seq<Track>, paths: Seq<Seq<char>>, n: int) -> Seq<Track>
    decreases n,
{
    if n <= 0 {
        Seq::empty()
    } else {
        let front = elsewhere(list, paths, n - 1);
        if paths.contains(list[n - 1].path@) {
            front
        } else {
            front.push(list[n - 1])
        }
    }
}

/// Whether a source could not be scanned.
pub open spec fn some_failed(fresh: Seq<Option<Vec<Track>>>) -> bool {
    exists|i: int| 0 <= i < fresh.len() && (#[trigger] fresh[i]) is None
}

/// Whether a path is that of a source or of a file in it, at any depth: it begins with
/// the text of the source, and a separator or a drive alone comes before the rest.
pub open spec fn is_under(source: Seq<char>, path: Seq<char>) -> bool {
    &&& source.is_prefix_of(path)
    &&& {
        ||| source.len() == path.len()
        ||| source.len() == 0
        ||| source.last() == '/' || source.last() == '\\'
        ||| source.len() == 2 && colon_second(source)
        ||| path[source.len() as int] == '/' || path[source.len() as int] == '\\'
    }
}

/// Whether `lists` says of each source whether it is a playlist file.
pub open spec fn known_lists(sources: Seq<Seq<char>>, lists: Seq<bool>) -> bool {
    &&& lists.len() == sources.len()
    &&& forall|i: int|
        0 <= i < sources.len() ==> may_name_playlist(#[trigger] sources[i], lists[i])
}

/// Whether a system may find, or not find, that a path names a playlist file.
pub open spec fn may_name_playlist(path: Seq<char>, r: bool) -> bool {
    exists|ext: Option<Seq<char>>| #[trigger] may_extend(path, ext) && r == playlist_extension(ext)
}

/// Whether no source could be scanned.
pub open spec fn none_scanned(fresh: Seq<Option<Vec<Track>>>) -> bool {
    forall|i: int| 0 <= i < fresh.len() ==> (#[trigger] fresh[i]) is None
}

/// Whether a file may be one of a source that could not be scanned: a playlist file may
/// name any file, another source holds what is under it. Where no source could be
/// scanned, nothing is known of any file.
pub open spec fn may_be_there(
    sources: Seq<Seq<char>>,
    lists: Seq<bool>,
    fresh: Seq<Option<Vec<Track>>>,
    path: Seq<char>,
) -> bool {
    none_scanned(fresh) || exists|i: int|
        0 <= i < fresh.len() && (#[trigger] fresh[i]) is None && (lists[i] || is_under(
            sources[i],
            path,
        ))
}

/// Those of the first `n` tracks that may be of a source that could not be scanned.
pub open spec fn not_scanned(
    sources: Seq<Seq<char>>,
    lists: Seq<bool>,
    fresh: Seq<Option<Vec<Track>>>,
    playlist: Seq<Track>,
    n: int,
) -> Seq<Track>
    decreases n,
{
    if n <= 0 {
        Seq::empty()
    } else {
        let front = not_scanned(sources, lists, fresh, playlist, n - 1);
        if may_be_there(sources, lists, fresh, playlist[n - 1].path@) {
            front.push(playlist[n - 1])
        } else {
            front
        }
    }
}

/// What the sources hold, as far as it is known: the tracks that their scans found, and
/// those of the playlist that may be of a source that could not be scanned.
pub open spec fn known_of_sources(
    sources: Seq<Seq<char>>,
    lists: Seq<bool>,
    fresh: Seq<Option<Vec<Track>>>,
    playlist: Seq<Track>,
) -> Seq<Track> {
    joined_scans(fresh, fresh.len() as int) + not_scanned(
        sources,
        lists,
        fresh,
        playlist,
        playlist.len() as int,
    )
}

/// Whether a path is that of a source or of a file in it.
fn stands_under(source: &str, path: &str) -> (r: bool)
    ensures
        r == is_under(source@, path@),
{
    let a = to_chars(source);
    let b = to_chars(path);
    let n = a.len();
    if n > b.len() {
        return false;
    }
    let mut i: usize = 0;
    while i < n
        invariant
            a@ == source@,
            b@ == path@,
            n == a.len(),
            n <= b.len(),
            i <= n,
            forall|k: int| 0 <= k < i ==> a@[k] == b@[k],
        decreases n - i,
    {
        if a[i] != b[i] {
            assert(b@.subrange(0, n as int)[i as int] == b@[i as int]);
            return false;
        }
        i = i + 1;
    }
    assert(a@.is_prefix_of(b@));
    n == b.len() || n == 0 || a[n - 1] == '/' || a[n - 1] == '\\' || (n == 2 && a[1] == ':')
        || b[n] == '/' || b[n] == '\\'
}

/// Whether a file may be one of a source that could not be scanned.
fn may_stand_there(
    sources: &Vec<String>,
    lists: &Vec<bool>,
    fresh: &Vec<Option<Vec<Track>>>,
    path: &str,
) -> (r: bool)
    requires
        sources.len() == lists.len() == fresh.len(),
    ensures
        r == may_be_there(texts(sources@), lists@, fresh@, path@),
{
    let mut scanned = false;
    let mut i: usize = 0;
    while i < fresh.len()
        invariant
            i <= fresh.len() == sources.len() == lists.len(),
            scanned == exists|k: int| 0 <= k < i && (#[trigger] fresh@[k]) is Some,
            forall|k: int|
                0 <= k < i ==> !((#[trigger] fresh@[k]) is None && (lists@[k] || is_under(
                    texts(sources@)[k],
                    path@,
                ))),
        decreases fresh.len() - i,
    {
        assert(texts(sources@)[i as int] == sources@[i as int]@);
        if fresh[i].is_some() {
            scanned = true;
        } else if lists[i] || stands_under(sources[i].as_str(), path) {
            return true;
        }
        i = i + 1;
    }
    !scanned
}

/// Of each source whether it is a playlist file.
fn which_are_lists(sources: &Vec<String>) -> (r: Vec<bool>)
    ensures
        known_lists(texts(sources@), r@),
{
    let mut out: Vec<bool> = Vec::new();
    while out.len() < sources.len()
        invariant
            out.len() <= sources.len(),
            forall|i: int|
                0 <= i < out.len() ==> may_name_playlist(#[trigger] texts(sources@)[i], out@[i]),
        decreases sources.len() - out.len(),
    {
        let i = out.len();
        assert(texts(sources@)[i as int] == sources@[i as int]@);
        out.push(is_playlist_path(sources[i].as_str()));
    }
    out
}

/// Puts those tracks behind a list that are not at a path among its first tracks.
fn join_scan(out: &mut Vec<Track>, list: &Vec<Track>)
    ensures
        final(out)@ == old(out)@ + elsewhere(list@, paths_of(old(out)@), list.len() as int),
{
    let ghost before = out@;
    let paths = track_paths(out);
    let mut i: usize = 0;
    assert(out@ =~= before + elsewhere(list@, paths_of(before), 0));
    while i < list.len()
        invariant
            texts(paths@) == paths_of(before),
            i <= list.len(),
            out@ == before + elsewhere(list@, paths_of(before), i as int),
        decreases list.len() - i,
    {
        let ghost was = elsewhere(list@, paths_of(before), i as int);
        if !has_text(&paths, &list[i].path) {
            out.push(list[i].clone());
            assert((before + was).push(list@[i as int]) =~= before + was.push(list@[i as int]));
        }
        i = i + 1;
    }
}

/// Takes over what fresh scans of the sources found, all together. Tracks that may be
/// of a source that could not be scanned stay. Gives how many tracks are new, how many
/// paths were not found again, and whether a source could not be scanned.
pub fn rescan_sources(
    sources: &Vec<String>,
    fresh: &Vec<Option<Vec<Track>>>,
    playlist: &mut Vec<Track>,
    current_track_path: Option<&str>,
) -> (r: (usize, usize, bool))
    requires
        sources.len() == fresh.len(),
    ensures
        exists|lists: Seq<bool>, n: Seq<usize>|
            known_lists(texts(sources@), lists) && #[trigger] is_rescan(
                known_of_sources(texts(sources@), lists, fresh@, old(playlist)@),
                old(playlist)@,
                str_view(current_track_path),
                n,
                final(playlist)@,
                (r.0, r.1),
            ),
        r.2 == some_failed(fresh@),
{
    let lists = which_are_lists(sources);
    let mut failed = false;
    let mut all: Vec<Track> = Vec::new();
    let mut i: usize = 0;
    while i < fresh.len()
        invariant
            i <= fresh.len(),
            all@ == joined_scans(fresh@, i as int),
            failed == exists|k: int| 0 <= k < i && (#[trigger] fresh@[k]) is None,
        decreases fresh.len() - i,
    {
        match &fresh[i] {
            Some(f) => join_scan(&mut all, f),
            None => {
                failed = true;
            },
        }
        i = i + 1;
    }
    let ghost found = all@;
    let ghost all_sources = texts(sources@);
    let mut k: usize = 0;
    assert(all@ =~= found + not_scanned(all_sources, lists@, fresh@, playlist@, 0));
    while k < playlist.len()
        invariant
            sources.len() == lists.len() == fresh.len(),
            all_sources == texts(sources@),
            k <= playlist.len(),
            all@ == found + not_scanned(all_sources, lists@, fresh@, playlist@, k as int),
        decreases playlist.len() - k,
    {
        let ghost was = not_scanned(all_sources, lists@, fresh@, playlist@, k as int);
        if may_stand_there(sources, &lists, fresh, playlist[k].path.as_str()) {
            all.push(playlist[k].clone());
            assert((found + was).push(playlist@[k as int]) =~= found + was.push(
                playlist@[k as int],
            ));
        }
        k = k + 1;
    }
    assert(failed == some_failed(fresh@));
    assert(all@ == known_of_sources(all_sources, lists@, fresh@, playlist@));
    let counts = rescan_playlist(&all, playlist, current_track_path);
    let r = (counts.0, counts.1, failed);
    assert(counts == (r.0, r.1));
    r
}

/// Puts the paths of tracks behind a list.
fn push_paths(out: &mut Vec<String>, list: &Vec<Track>)
    ensures
        texts(final(out)@) == texts(old(out)@) + paths_of(list@),
{
    let ghost before = texts(out@);
    let mut i: usize = 0;
    assert(texts(out@) =~= before + paths_of(list@).take(0));
    while i < list.len()
        invariant
            i <= list.len(),
            texts(out@) == before + paths_of(list@).take(i as int),
        decreases list.len() - i,
    {
        let ghost was = texts(out@);
        out.push(list[i].path.clone());
        assert(texts(out@) =~= was.push(list@[i as int].path@));
        assert(texts(out@) =~= before + paths_of(list@).take(i + 1));
        i = i + 1;
    }
    assert(paths_of(list@).take(i as int) =~= paths_of(list@));
}

/// A part of a list of numbers.
fn slice_of(n: &Vec<usize>, from: usize, to: usize) -> (r: Vec<usize>)
    requires
        from <= to <= n.len(),
    ensures
        r@ == n@.subrange(from as int, to as int),
{
    let mut out: Vec<usize> = Vec::new();
    let mut i: usize = from;
    while i < to
        invariant
            from <= i <= to <= n.len(),
            out@ == n@.subrange(from as int, i as int),
        decreases to - i,
    {
        out.push(n[i]);
        assert(n@.subrange(from as int, i as int).push(n@[i as int]) =~= n@.subrange(
            from as int,
            i + 1,
        ));
        i = i + 1;
    }
    out
}

/// A scan that finds what the playlist holds, but for the track that is playing,
/// and nothing else, changes nothing.
pub proof fn law_rescan_settles(
    playlist: Seq<Track>,
    ids: Seq<usize>,
    fresh: Seq<Track>,
    fresh_ids: Seq<usize>,
    current: Option<usize>,
)
    requires
        ids.len() == playlist.len(),
        fresh_ids.len() == fresh.len(),
        forall|x: usize| #[trigger] ids.contains(x) ==> fresh_ids.contains(x) || current == Some(x),
        forall|x: usize| fresh_ids.contains(x) ==> #[trigger] ids.contains(x),
    ensures
        rescanned(playlist, ids, fresh, fresh_ids, current) == playlist,
        tracks_not_in(fresh, fresh_ids, ids, fresh.len() as int).len() == 0,
        ids.to_set().difference(fresh_ids.to_set()).len() == (if current is Some && ids.contains(
            current->0,
        ) && !fresh_ids.contains(current->0) {
            1nat
        } else {
            0
        }),
{
    let stay = match current {
        Some(c) => fresh_ids.push(c),
        None => fresh_ids,
    };
    assert forall|x: usize| ids.contains(x) implies stay.contains(x) by {
        if current is Some {
            lemma_contains_push(fresh_ids, current->0, x);
        }
    }
    lemma_all_in(playlist, ids, stay, playlist.len() as int);
    assert(playlist.take(playlist.len() as int) =~= playlist);
    lemma_none_new(fresh, fresh_ids, ids, fresh.len() as int);
    let gone = ids.to_set().difference(fresh_ids.to_set());
    if current is Some && ids.contains(current->0) && !fresh_ids.contains(current->0) {
        assert(gone =~= Set::<usize>::empty().insert(current->0));
    } else {
        assert(gone =~= Set::<usize>::empty());
    }
}

proof fn lemma_all_in(list: Seq<Track>, ids: Seq<usize>, among: Seq<usize>, n: int)
    requires
        ids.len() == list.len(),
        0 <= n <= list.len(),
        forall|x: usize| ids.contains(x) ==> among.contains(x),
    ensures
        tracks_in(list, ids, among, n) == list.take(n),
    decreases n,
{
    if n > 0 {
        lemma_all_in(list, ids, among, n - 1);
        assert(ids.contains(ids[n - 1]));
        assert(list.take(n) =~= list.take(n - 1).push(list[n - 1]));
    } else {
        assert(list.take(0) =~= Seq::<Track>::empty());
    }
}

proof fn lemma_none_new(list: Seq<Track>, ids: Seq<usize>, among: Seq<usize>, n: int)
    requires
        ids.len() == list.len(),
        0 <= n <= list.len(),
        forall|x: usize| ids.contains(x) ==> #[trigger] among.contains(x),
    ensures
        tracks_not_in(list, ids, among, n) == Seq::<Track>::empty(),
    decreases n,
{
    if n > 0 {
        lemma_none_new(list, ids, among, n - 1);
        assert(ids.contains(ids[n - 1]));
    }
}

/// A rescan never removes the track that is playing, nor one that was found
/// again.
pub proof fn law_rescan_keeps(
    playlist: Seq<Track>,
    ids: Seq<usize>,
    fresh: Seq<Track>,
    fresh_ids: Seq<usize>,
    current: Option<usize>,
    i: int,
)
    requires
        0 <= i < playlist.len() == ids.len(),
        current == Some(ids[i]) || fresh_ids.contains(ids[i]),
    ensures
        rescanned(playlist, ids, fresh, fresh_ids, current).contains(playlist[i]),
{
    let stay = match current {
        Some(c) => fresh_ids.push(c),
        None => fresh_ids,
    };
    if current is Some {
        lemma_contains_push(fresh_ids, current->0, ids[i]);
    }
    lemma_in_kept(playlist, ids, stay, playlist.len() as int, i);
    let kept = tracks_in(playlist, ids, stay, playlist.len() as int);
    let k = choose|k: int| 0 <= k < kept.len() && kept[k] == playlist[i];
    let all = rescanned(playlist, ids, fresh, fresh_ids, current);
    assert(all[k] == playlist[i]);
}

proof fn lemma_in_kept(list: Seq<Track>, ids: Seq<usize>, among: Seq<usize>, n: int, i: int)
    requires
        0 <= i < n <= list.len() == ids.len(),
        among.contains(ids[i]),
    ensures
        tracks_in(list, ids, among, n).contains(list[i]),
    decreases n,
{
    if i < n - 1 {
        lemma_in_kept(list, ids, among, n - 1, i);
    }
    lemma_contains_push(tracks_in(list, ids, among, n - 1), list[n - 1], list[i]);
}

/// What the scans of several sources hold together: what one of them found.
proof fn lemma_joined_scans(fresh: Seq<Option<Vec<Track>>>, n: int, path: Seq<char>)
    requires
        0 <= n <= fresh.len(),
    ensures
        paths_of(joined_scans(fresh, n)).contains(path) <==> exists|i: int|
            0 <= i < n && found_in(#[trigger] fresh[i], path),
    decreases n,
{
    let now = paths_of(joined_scans(fresh, n));
    if n <= 0 {
        assert(now =~= Seq::empty());
    } else {
        lemma_joined_scans(fresh, n - 1, path);
        let front = joined_scans(fresh, n - 1);
        match fresh[n - 1] {
            Some(f) => {
                let more = elsewhere(f@, paths_of(front), f.len() as int);
                lemma_elsewhere(f@, paths_of(front), f.len() as int, path);
                assert(f@.take(f.len() as int) =~= f@);
                assert(now =~= paths_of(front) + paths_of(more));
                lemma_contains_either(paths_of(front), paths_of(more), path);
                if found_in(fresh[n - 1], path) {
                    assert(now.contains(path));
                }
            },
            None => {},
        }
    }
}

/// Whether a scan found this path.
pub open spec fn found_in(fresh: Option<Vec<Track>>, path: Seq<char>) -> bool {
    match fresh {
        Some(f) => paths_of(f@).contains(path),
        None => false,
    }
}

proof fn lemma_contains_either<T>(a: Seq<T>, b: Seq<T>, x: T)
    ensures
        (a + b).contains(x) <==> a.contains(x) || b.contains(x),
{
    if a.contains(x) {
        let k = choose|k: int| 0 <= k < a.len() && a[k] == x;
        assert((a + b)[k] == x);
    }
    if b.contains(x) {
        let k = choose|k: int| 0 <= k < b.len() && b[k] == x;
        assert((a + b)[a.len() + k] == x);
    }
}

proof fn lemma_elsewhere(list: Seq<Track>, paths: Seq<Seq<char>>, n: int, path: Seq<char>)
    requires
        0 <= n <= list.len(),
    ensures
        paths_of(elsewhere(list, paths, n)).contains(path) <==> paths_of(list.take(n)).contains(
            path,
        ) && !paths.contains(path),
    decreases n,
{
    if n > 0 {
        lemma_elsewhere(list, paths, n - 1, path);
        let t = list[n - 1];
        let front = elsewhere(list, paths, n - 1);
        assert(list.take(n) =~= list.take(n - 1).push(t));
        assert(paths_of(list.take(n)) =~= paths_of(list.take(n - 1)).push(t.path@));
        lemma_contains_push(paths_of(list.take(n - 1)), t.path@, path);
        assert(paths_of(front.push(t)) =~= paths_of(front).push(t.path@));
        lemma_contains_push(paths_of(front), t.path@, path);
    }
}

/// Where the paths of some of the tracks that are compared are among those of others,
/// so are their numbers.
proof fn lemma_numbers_follow(paths: Seq<Seq<char>>, n: Seq<usize>, a: int, b: int, c: int, d: int)
    requires
        tells_apart(paths, n),
        0 <= a <= b <= paths.len(),
        0 <= c <= d <= paths.len(),
        forall|p: Seq<char>|
            paths.subrange(a, b).contains(p) ==> #[trigger] paths.subrange(c, d).contains(p),
    ensures
        forall|x: usize| n.subrange(a, b).contains(x) ==> n.subrange(c, d).contains(x),
{
    assert forall|x: usize| n.subrange(a, b).contains(x) implies n.subrange(c, d).contains(x) by {
        let i = choose|i: int| 0 <= i < b - a && n.subrange(a, b)[i] == x;
        assert(paths.subrange(a, b)[i] == paths[a + i]);
        assert(paths.subrange(c, d).contains(paths[a + i]));
        let j = choose|j: int| 0 <= j < d - c && paths.subrange(c, d)[j] == paths[a + i];
        assert(n[a + i] == n[c + j]);
        assert(n.subrange(c, d)[j] == x);
    }
}

/// A rescan of any number of sources that hold what the playlist holds, each file in
/// any of them, and nothing else, changes nothing and finds nothing new and nothing
/// gone.
pub proof fn law_unchanged_sources(
    sources: Seq<Seq<char>>,
    lists: Seq<bool>,
    fresh: Seq<Option<Vec<Track>>>,
    before: Seq<Track>,
    current: Option<Seq<char>>,
    n: Seq<usize>,
    after: Seq<Track>,
    counts: (usize, usize),
)
    requires
        !some_failed(fresh),
        forall|p: Seq<char>|
            paths_of(before).contains(p) <==> exists|i: int|
                0 <= i < fresh.len() && #[trigger] found_in(fresh[i], p),
        is_rescan(
            known_of_sources(sources, lists, fresh, before),
            before,
            current,
            n,
            after,
            counts,
        ),
    ensures
        after == before,
        counts == (0usize, 0usize),
{
    let found = joined_scans(fresh, fresh.len() as int);
    if before.len() > 0 {
        assert(paths_of(before)[0] == before[0].path@);
        assert(paths_of(before).contains(before[0].path@));
    }
    lemma_all_scanned(sources, lists, fresh, before, before.len() as int);
    assert(known_of_sources(sources, lists, fresh, before) =~= found);
    let all = scan_paths(found, before, current);
    let a = found.len() as int;
    let b = a + before.len();
    assert(all.subrange(0, a) =~= paths_of(found));
    assert(all.subrange(a, b) =~= paths_of(before));
    assert forall|p: Seq<char>| paths_of(before).contains(p) <==> paths_of(found).contains(p) by {
        lemma_joined_scans(fresh, fresh.len() as int, p);
    }
    lemma_numbers_follow(all, n, 0, a, a, b);
    lemma_numbers_follow(all, n, a, b, 0, a);
    assert(n.take(a) =~= n.subrange(0, a));
    let playing = match current {
        Some(_) => Some(n.last()),
        None => None,
    };
    law_rescan_settles(before, n.subrange(a, b), found, n.take(a), playing);
}

proof fn lemma_all_scanned(
    sources: Seq<Seq<char>>,
    lists: Seq<bool>,
    fresh: Seq<Option<Vec<Track>>>,
    playlist: Seq<Track>,
    n: int,
)
    requires
        fresh.len() > 0 || n == 0,
        !some_failed(fresh),
    ensures
        not_scanned(sources, lists, fresh, playlist, n) == Seq::<Track>::empty(),
    decreases n,
{
    if n > 0 {
        assert(fresh[0] is Some);
        lemma_all_scanned(sources, lists, fresh, playlist, n - 1);
    }
}

proof fn lemma_among_not_scanned(
    sources: Seq<Seq<char>>,
    lists: Seq<bool>,
    fresh: Seq<Option<Vec<Track>>>,
    playlist: Seq<Track>,
    n: int,
    i: int,
)
    requires
        0 <= i < n <= playlist.len(),
        may_be_there(sources, lists, fresh, playlist[i].path@),
    ensures
        not_scanned(sources, lists, fresh, playlist, n).contains(playlist[i]),
    decreases n,
{
    let front = not_scanned(sources, lists, fresh, playlist, n - 1);
    if i < n - 1 {
        lemma_among_not_scanned(sources, lists, fresh, playlist, n - 1, i);
    }
    lemma_contains_push(front, playlist[n - 1], playlist[i]);
}

/// A track that may be of a source that could not be scanned stays.
pub proof fn law_failed_source_keeps(
    sources: Seq<Seq<char>>,
    lists: Seq<bool>,
    fresh: Seq<Option<Vec<Track>>>,
    before: Seq<Track>,
    current: Option<Seq<char>>,
    n: Seq<usize>,
    after: Seq<Track>,
    counts: (usize, usize),
    i: int,
)
    requires
        0 <= i < before.len(),
        may_be_there(sources, lists, fresh, before[i].path@),
        is_rescan(
            known_of_sources(sources, lists, fresh, before),
            before,
            current,
            n,
            after,
            counts,
        ),
    ensures
        after.contains(before[i]),
{
    let known = known_of_sources(sources, lists, fresh, before);
    let all = scan_paths(known, before, current);
    let a = known.len() as int;
    let found = joined_scans(fresh, fresh.len() as int);
    let rest = not_scanned(sources, lists, fresh, before, before.len() as int);
    lemma_among_not_scanned(sources, lists, fresh, before, before.len() as int, i);
    lemma_contains_either(found, rest, before[i]);
    let k = choose|k: int| 0 <= k < known.len() && known[k] == before[i];
    assert(all[k] == all[a + i]);
    assert(n[k] == n[a + i]);
    assert(n.take(a)[k] == n[k]);
    let ids = n.subrange(a, a + before.len());
    assert(ids[i] == n[a + i]);
    let playing = match current {
        Some(_) => Some(n.last()),
        None => None,
    };
    law_rescan_keeps(before, ids, known, n.take(a), playing, i);
}

/// A track with a path like none that the scans found, and that no source holds that
/// could not be scanned, leaves, unless it is playing.
pub proof fn law_gone_tracks_leave(
    sources: Seq<Seq<char>>,
    lists: Seq<bool>,
    fresh: Seq<Option<Vec<Track>>>,
    before: Seq<Track>,
    current: Option<Seq<char>>,
    n: Seq<usize>,
    after: Seq<Track>,
    counts: (usize, usize),
    i: int,
)
    requires
        0 <= i < before.len(),
        is_rescan(
            known_of_sources(sources, lists, fresh, before),
            before,
            current,
            n,
            after,
            counts,
        ),
        ({
            let known = known_of_sources(sources, lists, fresh, before);
            forall|k: int|
                0 <= k < known.len() ==> !alike((#[trigger] known[k]).path@, before[i].path@)
        }),
        current matches Some(c) ==> !alike(c, before[i].path@),
    ensures
        !after.contains(before[i]),
{
    let known = known_of_sources(sources, lists, fresh, before);
    let all = scan_paths(known, before, current);
    let a = known.len() as int;
    let ids = n.subrange(a, a + before.len());
    let fresh_ids = n.take(a);
    let stay = match current {
        Some(_) => fresh_ids.push(n.last()),
        None => fresh_ids,
    };
    let t = before[i];
    let kept = tracks_in(before, ids, stay, before.len() as int);
    let added = tracks_not_in(known, fresh_ids, ids, a);
    lemma_contains_either(kept, added, t);
    if kept.contains(t) {
        lemma_from_kept(before, ids, stay, before.len() as int, t);
        let k = choose|k: int|
            0 <= k < before.len() && #[trigger] before[k] == t && stay.contains(ids[k]);
        assert(all[a + k] == t.path@);
        assert(ids[k] == n[a + k]);
        lemma_contains_push(fresh_ids, n.last(), ids[k]);
        if fresh_ids.contains(ids[k]) {
            let q = choose|q: int| 0 <= q < a && fresh_ids[q] == ids[k];
            assert(n[q] == n[a + k]);
            assert(all[q] == known[q].path@);
            assert(alike(known[q].path@, t.path@));
        } else {
            let z = all.len() - 1;
            assert(all[z] == current->0);
            assert(n[z] == n[a + k]);
        }
    }
    if added.contains(t) {
        lemma_from_new(known, fresh_ids, ids, a, t);
        let q = choose|q: int| 0 <= q < a && known[q] == t;
        assert(alike(known[q].path@, t.path@));
    }
}

proof fn lemma_from_kept(list: Seq<Track>, ids: Seq<usize>, among: Seq<usize>, n: int, t: Track)
    requires
        0 <= n <= list.len() == ids.len(),
        tracks_in(list, ids, among, n).contains(t),
    ensures
        exists|i: int| 0 <= i < n && #[trigger] list[i] == t && among.contains(ids[i]),
    decreases n,
{
    if n > 0 {
        let front = tracks_in(list, ids, among, n - 1);
        lemma_contains_push(front, list[n - 1], t);
        if front.contains(t) {
            lemma_from_kept(list, ids, among, n - 1, t);
        }
    }
}

proof fn lemma_from_new(list: Seq<Track>, ids: Seq<usize>, among: Seq<usize>, n: int, t: Track)
    requires
        0 <= n <= list.len() == ids.len(),
        tracks_not_in(list, ids, among, n).contains(t),
    ensures
        list.contains(t),
    decreases n,
{
    if n > 0 {
        let front = tracks_not_in(list, ids, among, n - 1);
        lemma_contains_push(front, list[n - 1], t);
        if front.contains(t) {
            lemma_from_new(list, ids, among, n - 1, t);
        }
    }
}

proof fn lemma_in_new(list: Seq<Track>, ids: Seq<usize>, among: Seq<usize>, n: int, i: int)
    requires
        0 <= i < n <= list.len() == ids.len(),
        !among.contains(ids[i]),
    ensures
        tracks_not_in(list, ids, among, n).contains(list[i]),
    decreases n,
{
    if i < n - 1 {
        lemma_in_new(list, ids, among, n - 1, i);
    }
    lemma_contains_push(tracks_not_in(list, ids, among, n - 1), list[n - 1], list[i]);
}

/// Whether two numberings agree on two paths that both of them number.
pub open spec fn agree_on(
    p: Seq<Seq<char>>,
    n: Seq<usize>,
    q: Seq<Seq<char>>,
    m: Seq<usize>,
    i: int,
    j: int,
    k: int,
    l: int,
) -> bool {
    p[i] == q[k] && p[j] == q[l] ==> (n[i] == n[j] <==> m[k] == m[l])
}

/// Whether two numberings tell the same paths apart, as those of one system do.
pub open spec fn agree(p: Seq<Seq<char>>, n: Seq<usize>, q: Seq<Seq<char>>, m: Seq<usize>) -> bool {
    forall|i: int, j: int, k: int, l: int|
        0 <= i < p.len() && 0 <= j < p.len() && 0 <= k < q.len() && 0 <= l < q.len()
            ==> #[trigger] agree_on(p, n, q, m, i, j, k, l)
}

/// A second rescan that finds the same files changes nothing, where both times the same
/// paths are told apart. One path is counted as gone where the track that is playing is
/// in the playlist and was not found, and else none.
pub proof fn law_second_rescan_settles(
    fresh: Seq<Track>,
    before: Seq<Track>,
    current: Option<Seq<char>>,
    n: Seq<usize>,
    mid: Seq<Track>,
    counts: (usize, usize),
    m: Seq<usize>,
    after: Seq<Track>,
    more: (usize, usize),
)
    requires
        agree(scan_paths(fresh, before, current), n, scan_paths(fresh, mid, current), m),
        is_rescan(fresh, before, current, n, mid, counts),
        is_rescan(fresh, mid, current, m, after, more),
    ensures
        after == mid,
        more.0 == 0,
        more.1 == (if current is Some && m.subrange(
            fresh.len() as int,
            (fresh.len() + mid.len()) as int,
        ).contains(m.last()) && !m.take(fresh.len() as int).contains(m.last()) {
            1usize
        } else {
            0
        }),
{
    let a = fresh.len() as int;
    let p1 = scan_paths(fresh, before, current);
    let p2 = scan_paths(fresh, mid, current);
    let ids1 = n.subrange(a, a + before.len());
    let ids2 = m.subrange(a, a + mid.len());
    let stay = match current {
        Some(_) => n.take(a).push(n.last()),
        None => n.take(a),
    };
    let playing = match current {
        Some(_) => Some(m.last()),
        None => None,
    };
    let kept = tracks_in(before, ids1, stay, before.len() as int);
    let added = tracks_not_in(fresh, n.take(a), ids1, a);
    assert(mid =~= kept + added);
    assert forall|i: int| 0 <= i < mid.len() implies m.take(a).contains(#[trigger] m[a + i])
        || playing == Some(m[a + i]) by {
        let t = mid[i];
        assert(p2[a + i] == t.path@);
        lemma_contains_either(kept, added, t);
        assert(mid.contains(t));
        if kept.contains(t) {
            lemma_from_kept(before, ids1, stay, before.len() as int, t);
            let k = choose|k: int|
                0 <= k < before.len() && #[trigger] before[k] == t && stay.contains(ids1[k]);
            assert(p1[a + k] == t.path@);
            assert(ids1[k] == n[a + k]);
            lemma_contains_push(n.take(a), n.last(), ids1[k]);
            if n.take(a).contains(ids1[k]) {
                let q = choose|q: int| 0 <= q < a && n.take(a)[q] == ids1[k];
                assert(p1[q] == fresh[q].path@ && p2[q] == fresh[q].path@);
                assert(agree_on(p1, n, p2, m, q, a + k, q, a + i));
                assert(m.take(a)[q] == m[a + i]);
            } else {
                let z1 = p1.len() - 1;
                let z2 = p2.len() - 1;
                assert(p1[z1] == current->0 && p2[z2] == current->0);
                assert(agree_on(p1, n, p2, m, z1, a + k, z2, a + i));
            }
        } else {
            lemma_from_new(fresh, n.take(a), ids1, a, t);
            let q = choose|q: int| 0 <= q < a && fresh[q] == t;
            assert(p2[q] == t.path@);
            assert(m[q] == m[a + i]);
            assert(m.take(a)[q] == m[a + i]);
        }
    }
    assert forall|x: usize| #[trigger] ids2.contains(x) implies m.take(a).contains(x) || playing
        == Some(x) by {
        let i = choose|i: int| 0 <= i < mid.len() && ids2[i] == x;
        assert(ids2[i] == m[a + i]);
    }
    assert forall|x: usize| m.take(a).contains(x) implies #[trigger] ids2.contains(x) by {
        let q = choose|q: int| 0 <= q < a && m.take(a)[q] == x;
        assert(p1[q] == fresh[q].path@ && p2[q] == fresh[q].path@);
        if ids1.contains(n.take(a)[q]) {
            let k = choose|k: int| 0 <= k < before.len() && ids1[k] == n.take(a)[q];
            assert(ids1[k] == n[a + k]);
            assert(n.take(a)[q] == n[q]);
            assert(p1[a + k] == before[k].path@);
            assert(n.take(a).contains(ids1[k]));
            lemma_contains_push(n.take(a), n.last(), ids1[k]);
            lemma_in_kept(before, ids1, stay, before.len() as int, k);
            lemma_contains_either(kept, added, before[k]);
            let i = choose|i: int| 0 <= i < mid.len() && mid[i] == before[k];
            assert(p2[a + i] == before[k].path@);
            assert(agree_on(p1, n, p2, m, q, a + k, q, a + i));
            assert(ids2[i] == x);
        } else {
            lemma_in_new(fresh, n.take(a), ids1, a, q);
            lemma_contains_either(kept, added, fresh[q]);
            let i = choose|i: int| 0 <= i < mid.len() && mid[i] == fresh[q];
            assert(p2[a + i] == fresh[q].path@);
            assert(m[a + i] == m[q]);
            assert(ids2[i] == x);
        }
    }
    law_rescan_settles(mid, ids2, fresh, m.take(a), playing);
}

/// Whether a list holds a track with the components of a path.
pub open spec fn holds_parts(list: Seq<Track>, path: Seq<char>) -> bool {
    exists|i: int| 0 <= i < list.len() && parts((#[trigger] list[i]).path@) == parts(path)
}

/// On portable paths a second rescan that finds the same files changes nothing. One path
/// is counted as gone where the track that is playing is in the playlist and was not
/// found, and else none.
pub proof fn law_second_rescan_of_portable(
    fresh: Seq<Track>,
    before: Seq<Track>,
    current: Option<Seq<char>>,
    n: Seq<usize>,
    mid: Seq<Track>,
    counts: (usize, usize),
    m: Seq<usize>,
    after: Seq<Track>,
    more: (usize, usize),
)
    requires
        forall|i: int|
            0 <= i < scan_paths(fresh, before, current).len() ==> portable(
                #[trigger] scan_paths(fresh, before, current)[i],
            ),
        is_rescan(fresh, before, current, n, mid, counts),
        is_rescan(fresh, mid, current, m, after, more),
    ensures
        after == mid,
        more.0 == 0,
        more.1 == (if current is Some && holds_parts(mid, current->0) && !holds_parts(
            fresh,
            current->0,
        ) {
            1usize
        } else {
            0
        }),
{
    let a = fresh.len() as int;
    let p1 = scan_paths(fresh, before, current);
    let p2 = scan_paths(fresh, mid, current);
    assert forall|i: int, j: int, k: int, l: int|
        0 <= i < p1.len() && 0 <= j < p1.len() && 0 <= k < p2.len() && 0 <= l
            < p2.len() implies #[trigger] agree_on(p1, n, p2, m, i, j, k, l) by {
        assert(portable(p1[i]) && portable(p1[j]));
        assert(n[i] == n[j] <==> parts(p1[i]) == parts(p1[j]));
        if p1[i] == p2[k] && p1[j] == p2[l] {
            assert(m[k] == m[l] <==> parts(p2[k]) == parts(p2[l]));
        }
    }
    law_second_rescan_settles(fresh, before, current, n, mid, counts, m, after, more);
    if current is Some {
        let c = current->0;
        let z = p2.len() - 1;
        assert(p2[z] == c && p1[p1.len() - 1] == c);
        assert(portable(p1[p1.len() - 1]));
        lemma_rescan_of_portable(fresh, before, current, n, mid, counts);
        let ids2 = m.subrange(a, a + mid.len());
        assert forall|k: int| 0 <= k < mid.len() implies (#[trigger] ids2[k] == m[z] <==> parts(
            mid[k].path@,
        ) == parts(c)) by {
            assert(p2[a + k] == mid[k].path@);
            assert(ids2[k] == m[a + k]);
        }
        assert forall|q: int| 0 <= q < a implies (#[trigger] m.take(a)[q] == m[z] <==> parts(
            fresh[q].path@,
        ) == parts(c)) by {
            assert(p2[q] == fresh[q].path@);
            assert(portable(p1[q]));
            assert(m.take(a)[q] == m[q]);
        }
        if ids2.contains(m[z]) {
            let k = choose|k: int| 0 <= k < mid.len() && ids2[k] == m[z];
            assert(parts(mid[k].path@) == parts(c));
        }
        if holds_parts(mid, c) {
            let k = choose|k: int|
                0 <= k < mid.len() && parts((#[trigger] mid[k]).path@) == parts(c);
            assert(ids2[k] == m[z]);
        }
        if m.take(a).contains(m[z]) {
            let q = choose|q: int| 0 <= q < a && m.take(a)[q] == m[z];
            assert(parts(fresh[q].path@) == parts(c));
        }
        if holds_parts(fresh, c) {
            let q = choose|q: int| 0 <= q < a && parts((#[trigger] fresh[q]).path@) == parts(c);
            assert(m.take(a)[q] == m[z]);
        }
    }
}

/// What a rescan leaves on portable paths has portable paths.
proof fn lemma_rescan_of_portable(
    fresh: Seq<Track>,
    before: Seq<Track>,
    current: Option<Seq<char>>,
    n: Seq<usize>,
    mid: Seq<Track>,
    counts: (usize, usize),
)
    requires
        forall|i: int|
            0 <= i < scan_paths(fresh, before, current).len() ==> portable(
                #[trigger] scan_paths(fresh, before, current)[i],
            ),
        is_rescan(fresh, before, current, n, mid, counts),
    ensures
        forall|k: int| 0 <= k < mid.len() ==> portable(#[trigger] mid[k].path@),
{
    let a = fresh.len() as int;
    let p = scan_paths(fresh, before, current);
    let ids = n.subrange(a, a + before.len());
    let stay = match current {
        Some(_) => n.take(a).push(n.last()),
        None => n.take(a),
    };
    let kept = tracks_in(before, ids, stay, before.len() as int);
    let added = tracks_not_in(fresh, n.take(a), ids, a);
    assert forall|k: int| 0 <= k < mid.len() implies portable(#[trigger] mid[k].path@) by {
        let t = mid[k];
        assert(mid.contains(t));
        lemma_contains_either(kept, added, t);
        if kept.contains(t) {
            lemma_from_kept(before, ids, stay, before.len() as int, t);
            let i = choose|i: int|
                0 <= i < before.len() && #[trigger] before[i] == t && stay.contains(ids[i]);
            assert(p[a + i] == t.path@);
        } else {
            lemma_from_new(fresh, n.take(a), ids, a, t);
            let q = choose|q: int| 0 <= q < a && fresh[q] == t;
            assert(p[q] == t.path@);
        }
    }
}

/// Shuffling picks the last track of the list by the number behind the seed in the generator's
/// sequence, from all tracks.
pub proof fn law_shuffle_picks_the_last<T>(s: Seq<T>, seed: u64)
    requires
        s.len() > 1,
    ensures
        ({
            let number = (seed.wrapping_mul(6364136223846793005).wrapping_add(1)) as usize;
            shuffle_of(s, seed).last() == s[number as int % s.len() as int]
        }),
{
    let last = (s.len() - 1) as nat;
    let r = next_random(seed);
    let pick = (r as usize) as int % (last as int + 1);
    let t = swapped(s, last as int, pick);
    assert(t[last as int] == s[pick]);
    lemma_shuffled_leaves(t, (last - 1) as nat, r, last as int);
    lemma_shuffled_keeps(t, (last - 1) as nat, r);
}

/// What stands behind the part that is shuffled stays.
proof fn lemma_shuffled_leaves<T>(s: Seq<T>, last: nat, rng: u64, i: int)
    requires
        last < i < s.len(),
    ensures
        shuffled(s, last, rng)[i] == s[i],
    decreases last,
{
    if last > 0 {
        let r = next_random(rng);
        let pick = (r as usize) as int % (last as int + 1);
        lemma_shuffled_leaves(swapped(s, last as int, pick), (last - 1) as nat, r, i);
    }
}

/// What is left of the tracks of a source: those at a path that is there and has an extension
/// that is played, and no others.
pub proof fn law_media_are_taken(
    paths: Seq<String>,
    exts: Seq<Option<String>>,
    there: Seq<bool>,
    n: int,
)
    requires
        0 <= n <= paths.len() == exts.len() == there.len(),
    ensures
        forall|i: int|
            #![trigger paths[i]]
            0 <= i < n && there[i] && exts[i] is Some && is_supported(exts[i]->0@) ==> taken(
                paths,
                exts,
                there,
                n,
            ).contains(Track { path: paths[i], kind: kind_for(Some(exts[i]->0@)) }),
        forall|t: Track| #[trigger]
            taken(paths, exts, there, n).contains(t) ==> exists|i: int|
                0 <= i < n && #[trigger] paths[i] == t.path && there[i] && exts[i] is Some
                    && is_supported(exts[i]->0@) && t.kind == kind_for(Some(exts[i]->0@)),
        taken(paths, exts, there, n).len() <= n,
    decreases n,
{
    if n > 0 {
        law_media_are_taken(paths, exts, there, n - 1);
        let front = taken(paths, exts, there, n - 1);
        let all = taken(paths, exts, there, n);
        assert forall|i: int|
            #![trigger paths[i]]
            0 <= i < n && there[i] && exts[i] is Some && is_supported(
                exts[i]->0@,
            ) implies all.contains(
            Track { path: paths[i], kind: kind_for(Some(exts[i]->0@)) },
        ) by {
            let t = Track { path: paths[i], kind: kind_for(Some(exts[i]->0@)) };
            if i < n - 1 {
                let k = choose|k: int| 0 <= k < front.len() && front[k] == t;
                assert(all[k] == t);
            } else {
                assert(all[front.len() as int] == t);
            }
        }
        assert forall|t: Track| #[trigger] all.contains(t) implies exists|i: int|
            0 <= i < n && #[trigger] paths[i] == t.path && there[i] && exts[i] is Some
                && is_supported(exts[i]->0@) && t.kind == kind_for(Some(exts[i]->0@)) by {
            let k = choose|k: int| 0 <= k < all.len() && all[k] == t;
            if k < front.len() {
                assert(front[k] == t);
                assert(front.contains(t));
            } else {
                assert(paths[n - 1] == t.path);
            }
        }
    }
}

/// A folder gives all its files that are played and nothing else, shuffled or not; and where
/// it has none, that is the error.
pub proof fn law_folder_gives_its_media(
    paths: Vec<String>,
    exts: Seq<Option<String>>,
    seed: Option<u64>,
    r: Result<Seq<Track>, PlaylistError>,
)
    requires
        exts.len() == paths.len(),
        is_playlist_of(Source::Folder(paths), exts, seed, r),
    ensures
        r is Ok <==> exists|i: int|
            0 <= i < paths.len() && exts[i] is Some && is_supported((#[trigger] exts[i])->0@),
        r matches Err(e) ==> e == PlaylistError::NoMedia,
        r matches Ok(list) ==> {
            &&& forall|i: int|
                #![trigger paths@[i]]
                0 <= i < paths.len() && exts[i] is Some && is_supported(exts[i]->0@)
                    ==> list.contains(
                    Track { path: paths@[i], kind: kind_for(Some(exts[i]->0@)) },
                )
            &&& forall|t: Track| #[trigger]
                list.contains(t) ==> exists|i: int|
                    0 <= i < paths.len() && #[trigger] paths@[i] == t.path && exts[i] is Some
                        && is_supported(exts[i]->0@)
        },
{
    broadcast use vstd::seq_lib::group_to_multiset_ensures;

    let there = Seq::new(paths@.len(), |i: int| true);
    let n = paths.len() as int;
    let t = taken(paths@, exts, there, n);
    law_media_are_taken(paths@, exts, there, n);
    if exists|i: int|
        0 <= i < paths.len() && exts[i] is Some && is_supported((#[trigger] exts[i])->0@) {
        let i = choose|i: int|
            0 <= i < paths.len() && exts[i] is Some && is_supported((#[trigger] exts[i])->0@);
        assert(there[i]);
        assert(t.contains(Track { path: paths@[i], kind: kind_for(Some(exts[i]->0@)) }));
    }
    if t.len() > 0 {
        assert(t.contains(t[0]));
        let sorted = choose|sorted: Seq<Track>| #[trigger]
            path_sorted(t, sorted) && r == Ok::<Seq<Track>, PlaylistError>(
                maybe_shuffled(sorted, seed),
            );
        let list = maybe_shuffled(sorted, seed);
        if let Some(x) = seed {
            law_shuffle_keeps_tracks(sorted, x);
        }
        assert(list.to_multiset() == t.to_multiset());
        assert forall|x: Track| list.contains(x) <==> t.contains(x) by {
            assert(list.to_multiset().count(x) == t.to_multiset().count(x));
        }
        assert forall|i: int|
            #![trigger paths@[i]]
            0 <= i < paths.len() && exts[i] is Some && is_supported(
                exts[i]->0@,
            ) implies list.contains(
            Track { path: paths@[i], kind: kind_for(Some(exts[i]->0@)) },
        ) by {
            assert(there[i]);
        }
    }
}

/// One file is played whatever it is, and nothing gives the error.
pub proof fn law_one_file_is_played(
    path: String,
    exts: Seq<Option<String>>,
    seed: Option<u64>,
    r: Result<Seq<Track>, PlaylistError>,
    none: Result<Seq<Track>, PlaylistError>,
)
    requires
        exts.len() == 1,
        is_playlist_of(Source::File(path), exts, seed, r),
        is_playlist_of(Source::Nothing, exts, seed, none),
    ensures
        r matches Ok(list) && list.len() == 1 && list[0].path == path && list[0].kind == kind_for(
            text_view(exts[0]),
        ),
        none == Err::<Seq<Track>, PlaylistError>(PlaylistError::NoMedia),
{
}

/// Of the tracks with one key the first stays and the others leave.
pub proof fn law_first_of_each_stays<T>(s: Seq<T>, keys: Seq<Seq<char>>, i: int)
    requires
        s.len() == keys.len(),
        0 <= i < s.len(),
    ensures
        !keys.take(i).contains(keys[i]) ==> first_of_each(s, keys).contains(s[i]),
        first_of_each(s, keys).len() == first_of_each(keys, keys).len(),
        first_of_each(s, keys).len() <= s.len(),
    decreases keys.len(),
{
    let front = first_of_each(s.drop_last(), keys.drop_last());
    let all = first_of_each(s, keys);
    if keys.len() > 1 {
        law_first_of_each_stays(s.drop_last(), keys.drop_last(), 0);
    } else {
        assert(keys.drop_last() =~= Seq::empty());
        assert(first_of_each(s.drop_last(), keys.drop_last()).len() == 0);
        assert(first_of_each(keys.drop_last(), keys.drop_last()).len() == 0);
    }
    assert(first_of_each(keys, keys) == if keys.drop_last().contains(keys.last()) {
        first_of_each(keys.drop_last(), keys.drop_last())
    } else {
        first_of_each(keys.drop_last(), keys.drop_last()).push(keys.last())
    });
    if i < keys.len() - 1 {
        law_first_of_each_stays(s.drop_last(), keys.drop_last(), i);
        assert(keys.drop_last().take(i) =~= keys.take(i));
        if front.contains(s[i]) {
            let k = choose|k: int| 0 <= k < front.len() && front[k] == s[i];
            assert(all[k] == s[i]);
        }
    } else {
        assert(keys.take(i) =~= keys.drop_last());
        if !keys.take(i).contains(keys[i]) {
            assert(all[front.len() as int] == s[i]);
        }
    }
}

/// Comments and empty lines of a playlist file do not count: without them it names the same.
pub proof fn law_comments_do_not_count(all: Seq<Seq<char>>, i: int)
    requires
        0 <= i < all.len(),
        trimmed(all[i]).len() == 0 || trimmed(all[i])[0] == '#',
    ensures
        named_files(all) == named_files(all.remove(i)),
    decreases i,
{
    if i == 0 {
        assert(all.remove(0) =~= all.drop_first());
    } else {
        law_comments_do_not_count(all.drop_first(), i - 1);
        assert(all.remove(i).drop_first() =~= all.drop_first().remove(i - 1));
        assert(all.remove(i)[0] == all[0]);
    }
}

/// Every other line names a file, without the white space around it.
pub proof fn law_lines_name_files(all: Seq<Seq<char>>)
    requires
        forall|i: int|
            0 <= i < all.len() ==> trimmed(#[trigger] all[i]).len() > 0 && trimmed(all[i])[0]
                != '#',
    ensures
        named_files(all) == all.map_values(|l: Seq<char>| trimmed(l)),
    decreases all.len(),
{
    if all.len() > 0 {
        let rest = all.drop_first();
        assert forall|i: int| 0 <= i < rest.len() implies trimmed(#[trigger] rest[i]).len() > 0
            && trimmed(rest[i])[0] != '#' by {
            assert(rest[i] == all[i + 1]);
        }
        law_lines_name_files(rest);
    }
    assert(named_files(all) =~= all.map_values(|l: Seq<char>| trimmed(l)));
}

/// A saved playlist begins with the line that tells its format, and each path has a line.
pub proof fn law_saved_playlist_is_text(paths: Seq<Seq<char>>, path: Seq<char>)
    ensures
        m3u_content(Seq::empty()) == seq!['#', 'E', 'X', 'T', 'M', '3', 'U', '\n'],
        m3u_content(paths.push(path)) == m3u_content(paths) + path + seq!['\n'],
{
    reveal_strlit("#EXTM3U\n");
    assert("#EXTM3U\n"@ =~= seq!['#', 'E', 'X', 'T', 'M', '3', 'U', '\n']);
    assert(m3u_content(Seq::empty()) =~= "#EXTM3U\n"@);
    assert(paths.push(path).drop_last() =~= paths);
    assert(m3u_content(paths.push(path)) =~= m3u_content(paths) + path + seq!['\n']);
}

/// A playlist is saved under the name that it is given, with the ending of playlists where it
/// has none of theirs; a name that is a path with such an ending is that path.
pub proof fn law_playlist_names_end_as_playlists(
    windows: bool,
    name: Seq<char>,
    dir: Option<Seq<char>>,
    r: Option<Seq<char>>,
)
    requires
        is_save_path(windows, name, dir, r),
    ensures
        !ends_as_playlist(name) ==> playlist_file_name(name) == name + seq!['.', 'm', '3', 'u'],
        ends_as_playlist(name) ==> playlist_file_name(name) == name,
        ends_as_playlist(name + seq!['.', 'm', '3', 'u']),
        ends_as_playlist(name + seq!['.', 'm', '3', 'u', '8']),
        (name.contains('/') || name.contains('\\')) && ends_as_playlist(name) ==> r == Some(name),
        !name.contains('/') && !name.contains('\\') ==> (r is None <==> dir is None),
        name.contains('/') || name.contains('\\') ==> r is Some,
{
    reveal_strlit(".m3u");
    reveal_strlit(".m3u8");
    assert(".m3u"@ =~= seq!['.', 'm', '3', 'u']);
    assert(".m3u8"@ =~= seq!['.', 'm', '3', 'u', '8']);
    let a = name + seq!['.', 'm', '3', 'u'];
    let b = name + seq!['.', 'm', '3', 'u', '8'];
    assert(a.subrange(a.len() - 4, a.len() as int) =~= ".m3u"@);
    assert(b.subrange(b.len() - 5, b.len() as int) =~= ".m3u8"@);
}

/// On Windows the program keeps its files in a folder of its own among the settings.
pub proof fn law_settings_folder_on_windows(base: Seq<char>)
    requires
        base.len() > 2,
        base.last() != '/' && base.last() != '\\',
    ensures
        config_dir_in(true, base) == base + seq!['\\', 'k', 'e', 'e', 't'],
{
    reveal_strlit("keet");
    assert("keet"@ =~= seq!['k', 'e', 'e', 't']);
    assert(base + seq!['\\'] + "keet"@ =~= base + seq!['\\', 'k', 'e', 'e', 't']);
}

/// Files that a scan found anew come into the playlist, behind what was there.
pub proof fn law_new_files_come_at_the_end(
    playlist: Seq<Track>,
    ids: Seq<usize>,
    fresh: Seq<Track>,
    fresh_ids: Seq<usize>,
    current: Option<usize>,
    i: int,
)
    requires
        ids.len() == playlist.len(),
        fresh_ids.len() == fresh.len(),
        0 <= i < fresh.len(),
        !ids.contains(fresh_ids[i]),
    ensures
        ({
            let after = rescanned(playlist, ids, fresh, fresh_ids, current);
            let added = tracks_not_in(fresh, fresh_ids, ids, fresh.len() as int);
            &&& after.contains(fresh[i])
            &&& added.contains(fresh[i])
            &&& added.is_suffix_of(after)
            &&& forall|k: int|
                0 <= k < after.len() - added.len() ==> playlist.contains(#[trigger] after[k])
        }),
{
    let stay = match current {
        Some(c) => fresh_ids.push(c),
        None => fresh_ids,
    };
    let kept = tracks_in(playlist, ids, stay, playlist.len() as int);
    let added = tracks_not_in(fresh, fresh_ids, ids, fresh.len() as int);
    let after = rescanned(playlist, ids, fresh, fresh_ids, current);
    lemma_in_new(fresh, fresh_ids, ids, fresh.len() as int, i);
    lemma_contains_either(kept, added, fresh[i]);
    assert(after.subrange(after.len() - added.len(), after.len() as int) =~= added);
    assert forall|k: int| 0 <= k < after.len() - added.len() implies playlist.contains(
        #[trigger] after[k],
    ) by {
        assert(kept[k] == after[k]);
        assert(kept.contains(after[k]));
        lemma_from_kept(playlist, ids, stay, playlist.len() as int, after[k]);
    }
}

/// A file in a folder that could not be scanned may still be there; one that is neither under
/// it nor in a playlist file may not, where another source could be scanned.
pub proof fn law_files_of_a_failed_folder(
    folder: Seq<char>,
    rest: Seq<char>,
    path: Seq<char>,
    found: Vec<Track>,
)
    requires
        folder.len() > 2,
        folder.last() != '/' && folder.last() != '\\',
    ensures
        ({
            let fresh = seq![Some(found), None];
            let lists = seq![false, false];
            let sources = seq![path, folder];
            &&& may_be_there(sources, lists, fresh, folder + seq!['/'] + rest)
            &&& may_be_there(sources, lists, fresh, folder + seq!['\\'] + rest)
            &&& may_be_there(sources, seq![false, true], fresh, path)
            &&& !folder.is_prefix_of(path) ==> !may_be_there(sources, lists, fresh, path)
        }),
{
    let fresh = seq![Some(found), None];
    let a = folder + seq!['/'] + rest;
    let b = folder + seq!['\\'] + rest;
    assert(fresh[1] is None && fresh[0] is Some);
    assert(a.subrange(0, folder.len() as int) =~= folder);
    assert(b.subrange(0, folder.len() as int) =~= folder);
    assert(a[folder.len() as int] == '/');
    assert(b[folder.len() as int] == '\\');
}

/// Scans that are put together hold each path that a scan found, and one path once where each
/// scan holds it once: what an earlier scan found is not added by a later one.
pub proof fn law_scans_are_put_together(front: Seq<Track>, list: Seq<Track>, i: int)
    requires
        0 <= i < list.len(),
    ensures
        ({
            let more = elsewhere(list, paths_of(front), list.len() as int);
            &&& !paths_of(front).contains(list[i].path@) ==> more.contains(list[i])
            &&& forall|k: int|
                0 <= k < more.len() ==> list.contains(#[trigger] more[k]) && !paths_of(
                    front,
                ).contains(more[k].path@)
        }),
{
    lemma_elsewhere_tracks(list, paths_of(front), list.len() as int, i);
}

proof fn lemma_elsewhere_tracks(list: Seq<Track>, paths: Seq<Seq<char>>, n: int, i: int)
    requires
        0 <= n <= list.len(),
    ensures
        0 <= i < n && !paths.contains(list[i].path@) ==> elsewhere(list, paths, n).contains(list[i]),
        forall|k: int|
            0 <= k < elsewhere(list, paths, n).len() ==> list.contains(
                #[trigger] elsewhere(list, paths, n)[k],
            ) && !paths.contains(elsewhere(list, paths, n)[k].path@),
    decreases n,
{
    if n > 0 {
        lemma_elsewhere_tracks(list, paths, n - 1, i);
        let front = elsewhere(list, paths, n - 1);
        let all = elsewhere(list, paths, n);
        assert(list.contains(list[n - 1]));
        if 0 <= i < n - 1 && !paths.contains(list[i].path@) {
            let k = choose|k: int| 0 <= k < front.len() && front[k] == list[i];
            assert(all[k] == list[i]);
        }
        if i == n - 1 && !paths.contains(list[i].path@) {
            assert(all[front.len() as int] == list[i]);
        }
        assert forall|k: int| 0 <= k < all.len() implies list.contains(#[trigger] all[k])
            && !paths.contains(all[k].path@) by {
            if k < front.len() {
                assert(all[k] == front[k]);
            }
        }
    }
}

/// Playlist files are told by two extensions, in any case of letters.
pub proof fn law_playlists_by_extension(ext: Seq<char>)
    ensures
        playlist_extension(Some(ext)) <==> {
            ||| lowercased(ext) == seq!['m', '3', 'u']
            ||| lowercased(ext) == seq!['m', '3', 'u', '8']
        },
        !playlist_extension(None),
{
    reveal_strlit("m3u");
    reveal_strlit("m3u8");
    assert("m3u"@ =~= seq!['m', '3', 'u']);
    assert("m3u8"@ =~= seq!['m', '3', 'u', '8']);
}

} // verus!
