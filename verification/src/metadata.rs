//! What the tags of a file tell, and the cache that keeps it for a playlist.
use vstd::prelude::*;

use crate::paths::alike;
use crate::playlist::{number_paths, tells_apart};
use crate::text::{contains, holds, lowercased, same, strip_suffix, texts, trim, trimmed};
use crate::track::{
    file_name_of, may_be_named, path_file_name, text_view,
};

verus! {

/// The standard meaning of a tag, where it has one that counts here.
#[derive(Clone, Copy, Debug, PartialEq, Eq, Structural)]
pub enum TagMeaning {
    Title,
    Artist,
    Lyrics,
    Other,
}

/// A tag of a file. `text` is its value where that is a text; `gain` and `peak`
/// are the numbers that this text gives when it is read as a gain and as a
/// peak, as the bits of their floating-point representation.
pub struct Tag {
    pub meaning: TagMeaning,
    pub key: String,
    pub text: Option<String>,
    pub gain: Option<u32>,
    pub peak: Option<u32>,
}

/// What is known of a file from its tags.
pub struct TagSummary {
    pub title: Option<String>,
    pub artist: Option<String>,
    pub lyrics: Option<String>,
    pub rg_track_gain: Option<u32>,
    pub rg_track_peak: Option<u32>,
    pub rg_album_gain: Option<u32>,
    pub rg_album_peak: Option<u32>,
}

impl TagSummary {
    /// Nothing is known yet.
    pub open spec fn nothing() -> Self {
        TagSummary {
            title: None,
            artist: None,
            lyrics: None,
            rg_track_gain: None,
            rg_track_peak: None,
            rg_album_gain: None,
            rg_album_peak: None,
        }
    }

    /// Whether another set of tags is asked.
    pub open spec fn wants_more(self) -> bool {
        self.title is None || self.artist is None || self.lyrics is None
    }
}

/// A value that is there, else another.
pub open spec fn or_else<V>(a: Option<V>, b: Option<V>) -> Option<V> {
    match a {
        Some(_) => a,
        None => b,
    }
}

/// What is known after one more tag. The last title and artist count where
/// `replace` holds, else the first; of all else the first that can be read.
pub open spec fn with_tag(s: TagSummary, tag: Tag, replace: bool) -> TagSummary {
    let key = lowercased(tag.key@);
    let read = |m: TagMeaning| -> Option<String> { if tag.meaning == m { tag.text } else { None } };
    let number = |name: Seq<char>, n: Option<u32>| -> Option<u32> {
        if tag.text is Some && key == name { n } else { None }
    };
    TagSummary {
        title: if replace {
            or_else(read(TagMeaning::Title), s.title)
        } else {
            or_else(s.title, read(TagMeaning::Title))
        },
        artist: if replace {
            or_else(read(TagMeaning::Artist), s.artist)
        } else {
            or_else(s.artist, read(TagMeaning::Artist))
        },
        lyrics: or_else(
            or_else(s.lyrics, read(TagMeaning::Lyrics)),
            if key == "lyrics"@ || key == "unsyncedlyrics"@ {
                tag.text
            } else {
                None
            },
        ),
        rg_track_gain: or_else(s.rg_track_gain, number("replaygain_track_gain"@, tag.gain)),
        rg_track_peak: or_else(s.rg_track_peak, number("replaygain_track_peak"@, tag.peak)),
        rg_album_gain: or_else(s.rg_album_gain, number("replaygain_album_gain"@, tag.gain)),
        rg_album_peak: or_else(s.rg_album_peak, number("replaygain_album_peak"@, tag.peak)),
    }
}

/// What is known after the first `n` tags of a list.
pub open spec fn with_tags(s: TagSummary, tags: Seq<Tag>, n: int, replace: bool) -> TagSummary
    decreases n,
{
    if n <= 0 {
        s
    } else {
        with_tag(with_tags(s, tags, n - 1, replace), tags[n - 1], replace)
    }
}

/// What the tags of a file tell: those that stand in the stream first, then,
/// where the title, the artist or the lyrics are missing, those found around it.
pub open spec fn summary_of(inner: Seq<Tag>, outer: Seq<Tag>) -> TagSummary {
    let first = with_tags(TagSummary::nothing(), inner, inner.len() as int, true);
    if first.wants_more() {
        with_tags(first, outer, outer.len() as int, false)
    } else {
        first
    }
}

/// A copy of a text that may be missing.
pub fn copy_text(s: &Option<String>) -> (r: Option<String>)
    ensures
        r == *s,
{
    match s {
        Some(s) => Some(s.clone()),
        None => None,
    }
}

/// The first of two texts that is there.
fn text_or(a: Option<String>, b: Option<String>) -> (r: Option<String>)
    ensures
        r == or_else(a, b),
{
    match a {
        Some(_) => a,
        None => b,
    }
}

/// The first of two numbers that is there.
fn number_or(a: Option<u32>, b: Option<u32>) -> (r: Option<u32>)
    ensures
        r == or_else(a, b),
{
    match a {
        Some(_) => a,
        None => b,
    }
}

/// The text of a tag, where the tag means this.
fn text_for(tag: &Tag, m: TagMeaning) -> (r: Option<String>)
    ensures
        r == (if tag.meaning == m {
            tag.text
        } else {
            None
        }),
{
    if tag.meaning == m {
        copy_text(&tag.text)
    } else {
        None
    }
}

/// Takes in one tag.
fn take_tag(s: TagSummary, tag: &Tag, replace: bool) -> (r: TagSummary)
    ensures
        r == with_tag(s, *tag, replace),
{
    let key = tag.key.to_lowercase();
    let k = key.as_str();
    let has_text = tag.text.is_some();
    let title = text_for(tag, TagMeaning::Title);
    let artist = text_for(tag, TagMeaning::Artist);
    let by_meaning = text_for(tag, TagMeaning::Lyrics);
    let by_key = if same(k, "lyrics") || same(k, "unsyncedlyrics") {
        copy_text(&tag.text)
    } else {
        None
    };
    let track_gain: Option<u32> = if has_text && same(k, "replaygain_track_gain") {
        tag.gain
    } else {
        None
    };
    let track_peak: Option<u32> = if has_text && same(k, "replaygain_track_peak") {
        tag.peak
    } else {
        None
    };
    let album_gain: Option<u32> = if has_text && same(k, "replaygain_album_gain") {
        tag.gain
    } else {
        None
    };
    let album_peak: Option<u32> = if has_text && same(k, "replaygain_album_peak") {
        tag.peak
    } else {
        None
    };
    TagSummary {
        title: if replace {
            text_or(title, s.title)
        } else {
            text_or(s.title, title)
        },
        artist: if replace {
            text_or(artist, s.artist)
        } else {
            text_or(s.artist, artist)
        },
        lyrics: text_or(text_or(s.lyrics, by_meaning), by_key),
        rg_track_gain: number_or(s.rg_track_gain, track_gain),
        rg_track_peak: number_or(s.rg_track_peak, track_peak),
        rg_album_gain: number_or(s.rg_album_gain, album_gain),
        rg_album_peak: number_or(s.rg_album_peak, album_peak),
    }
}

/// What the tags of a file tell: `inner` are those that stand in the stream,
/// `outer` those found around it.
pub fn summarise_tags(inner: &Vec<Tag>, outer: &Vec<Tag>) -> (r: TagSummary)
    ensures
        r == summary_of(inner@, outer@),
{
    let mut s = TagSummary {
        title: None,
        artist: None,
        lyrics: None,
        rg_track_gain: None,
        rg_track_peak: None,
        rg_album_gain: None,
        rg_album_peak: None,
    };
    let mut i: usize = 0;
    while i < inner.len()
        invariant
            i <= inner.len(),
            s == with_tags(TagSummary::nothing(), inner@, i as int, true),
        decreases inner.len() - i,
    {
        s = take_tag(s, &inner[i], true);
        i = i + 1;
    }
    let ghost first = s;
    if s.title.is_none() || s.artist.is_none() || s.lyrics.is_none() {
        let mut j: usize = 0;
        while j < outer.len()
            invariant
                j <= outer.len(),
                s == with_tags(first, outer@, j as int, false),
            decreases outer.len() - j,
        {
            s = take_tag(s, &outer[j], false);
            j = j + 1;
        }
    }
    s
}

/// A tag about gain without its unit: the text between white space, without
/// the first of these endings that it has, between white space.
pub open spec fn gain_text(s: Seq<char>) -> Seq<char> {
    let t = trimmed(s);
    let n = t.len() as int;
    let body = if " dB"@.is_suffix_of(t) || " db"@.is_suffix_of(t) {
        t.take(n - 3)
    } else if "dB"@.is_suffix_of(t) || "db"@.is_suffix_of(t) {
        t.take(n - 2)
    } else {
        t
    };
    trimmed(body)
}

/// The number in a tag about gain, as text.
pub fn rg_gain_text(s: &str) -> (r: String)
    ensures
        r@ == gain_text(s@),
{
    proof {
        reveal_strlit(" dB");
        reveal_strlit(" db");
        reveal_strlit("dB");
        reveal_strlit("db");
    }
    let t = trim(s);
    let body = match strip_suffix(t.as_str(), " dB") {
        Some(b) => b,
        None => match strip_suffix(t.as_str(), " db") {
            Some(b) => b,
            None => match strip_suffix(t.as_str(), "dB") {
                Some(b) => b,
                None => match strip_suffix(t.as_str(), "db") {
                    Some(b) => b,
                    None => t,
                },
            },
        },
    };
    trim(body.as_str())
}

/// The gain that a tag such as `-7.2 dB` names, as `reader` reads numbers.
pub fn parse_rg_gain_value<F: Fn(&str) -> Option<u32>>(s: &str, reader: F) -> (r: Option<u32>)
    requires
        forall|t: &str| #[trigger] call_requires(reader, (t,)),
    ensures
        exists|t: &str| t@ == gain_text(s@) && #[trigger] call_ensures(reader, (t,), r),
{
    let t = rg_gain_text(s);
    reader(t.as_str())
}

/// The peak that a tag names, as `reader` reads numbers.
pub fn parse_rg_peak_value<F: Fn(&str) -> Option<u32>>(s: &str, reader: F) -> (r: Option<u32>)
    requires
        forall|t: &str| #[trigger] call_requires(reader, (t,)),
    ensures
        exists|t: &str| t@ == trimmed(s@) && #[trigger] call_ensures(reader, (t,), r),
{
    let t = trim(s);
    reader(t.as_str())
}

/// What is kept of a track: how it is shown, what a search looks at, and its
/// tags.
pub struct CachedMeta {
    pub display: String,
    pub search_text: String,
    pub tags: TagSummary,
}

/// The title with the artist in front, or the one of the two that is known.
pub open spec fn display_of(artist: Option<Seq<char>>, title: Option<Seq<char>>) -> Option<
    Seq<char>,
> {
    match (artist, title) {
        (Some(a), Some(t)) => Some(a + " - "@ + t),
        (None, Some(t)) => Some(t),
        (Some(a), None) => Some(a),
        (None, None) => None,
    }
}

/// What a search looks at: how the track is shown and its file name, both in
/// small letters.
pub open spec fn search_text_of(display: Seq<char>, file_name: Seq<char>) -> Seq<char> {
    lowercased(display) + seq!['\0'] + lowercased(file_name)
}

/// What is kept of a file with these tags and this name; nothing where neither
/// the artist nor the title is known.
pub fn meta_from(tags: TagSummary, file_name: &str) -> (r: Option<CachedMeta>)
    ensures
        r is Some <==> display_of(text_view(tags.artist), text_view(tags.title)) is Some,
        r matches Some(m) ==> {
            &&& m.tags == tags
            &&& Some(m.display@) == display_of(text_view(tags.artist), text_view(tags.title))
            &&& m.search_text@ == search_text_of(m.display@, file_name@)
        },
{
    let display = match (&tags.artist, &tags.title) {
        (Some(a), Some(t)) => {
            let mut d = a.clone();
            d.append(" - ");
            d.append(t.as_str());
            d
        },
        (None, Some(t)) => t.clone(),
        (Some(a), None) => a.clone(),
        (None, None) => {
            return None;
        },
    };
    let mut search_text = display.as_str().to_lowercase();
    search_text.push('\0');
    let name = file_name.to_lowercase();
    search_text.append(name.as_str());
    assert(search_text@ =~= search_text_of(display@, file_name@));
    Some(CachedMeta { display, search_text, tags })
}

/// The file name that a path ends with, or nothing.
pub open spec fn name_or_empty(path: Seq<char>) -> Seq<char> {
    match file_name_of(path) {
        Some(n) => n,
        None => Seq::empty(),
    }
}

/// Whether a text is the file name that a system finds in a path, or empty where
/// it finds none.
pub open spec fn is_name_text(path: Seq<char>, text: Seq<char>) -> bool {
    exists|name: Option<Seq<char>>| #[trigger]
        may_be_named(path, name) && text == (match name {
            Some(n) => n,
            None => Seq::empty(),
        })
}

/// The file name that a path ends with, or an empty text.
pub fn file_name_text(path: &str) -> (r: String)
    ensures
        is_name_text(path@, r@),
{
    let name = path_file_name(path);
    assert(may_be_named(path@, text_view(name)));
    match name {
        Some(n) => n,
        None => String::new(),
    }
}

/// What is kept of the file at a path, whose tags are these.
pub fn read_metadata_full(path: &str, inner: &Vec<Tag>, outer: &Vec<Tag>) -> (r: Option<CachedMeta>)
    ensures
        ({
            let tags = summary_of(inner@, outer@);
            let display = display_of(text_view(tags.artist), text_view(tags.title));
            &&& r is Some <==> display is Some
            &&& r matches Some(m) ==> {
                &&& m.tags == tags
                &&& Some(m.display@) == display
                &&& exists|name: Seq<char>| #[trigger]
                    is_name_text(path@, name) && m.search_text@ == search_text_of(m.display@, name)
            }
        }),
{
    let tags = summarise_tags(inner, outer);
    let name = file_name_text(path);
    assert(is_name_text(path@, name@));
    meta_from(tags, name.as_str())
}

/// How the file at a path is shown, where its tags tell it.
pub fn read_metadata_display(path: &str, inner: &Vec<Tag>, outer: &Vec<Tag>) -> (r: Option<String>)
    ensures
        ({
            let tags = summary_of(inner@, outer@);
            text_view(r) == display_of(text_view(tags.artist), text_view(tags.title))
        }),
{
    match read_metadata_full(path, inner, outer) {
        Some(m) => Some(m.display),
        None => None,
    }
}

/// The lyrics in a file with these tags, whatever else they tell.
pub fn read_lyrics(inner: &Vec<Tag>, outer: &Vec<Tag>) -> (r: Option<String>)
    ensures
        r == summary_of(inner@, outer@).lyrics,
{
    summarise_tags(inner, outer).lyrics
}

impl Clone for TagSummary {
    fn clone(&self) -> (r: Self)
        ensures
            r == *self,
    {
        TagSummary {
            title: copy_text(&self.title),
            artist: copy_text(&self.artist),
            lyrics: copy_text(&self.lyrics),
            rg_track_gain: self.rg_track_gain,
            rg_track_peak: self.rg_track_peak,
            rg_album_gain: self.rg_album_gain,
            rg_album_peak: self.rg_album_peak,
        }
    }
}

impl Clone for CachedMeta {
    fn clone(&self) -> (r: Self)
        ensures
            r == *self,
    {
        CachedMeta {
            display: self.display.clone(),
            search_text: self.search_text.clone(),
            tags: self.tags.clone(),
        }
    }
}

/// What is known of the tracks of a playlist, by their place in it, and whether
/// the scan that fills it is to stop.
pub struct MetadataCache {
    pub entries: Vec<Option<CachedMeta>>,
    pub cancel: bool,
}

/// What is known of the track at a place.
pub open spec fn entry_at(entries: Seq<Option<CachedMeta>>, index: int) -> Option<CachedMeta> {
    if 0 <= index < entries.len() {
        entries[index]
    } else {
        None
    }
}

/// The entry of the last of the first `n` old places with this number.
pub open spec fn last_entry(
    entries: Seq<Option<CachedMeta>>,
    old_ids: Seq<usize>,
    id: usize,
    n: int,
) -> Option<CachedMeta>
    decreases n,
{
    if n <= 0 {
        None
    } else if old_ids[n - 1] == id && entry_at(entries, n - 1) is Some {
        entry_at(entries, n - 1)
    } else {
        last_entry(entries, old_ids, id, n - 1)
    }
}

/// The entries when the tracks have changed places: an entry goes to the first
/// new place with its number.
pub open spec fn reindexed(
    entries: Seq<Option<CachedMeta>>,
    new_ids: Seq<usize>,
    old_ids: Seq<usize>,
) -> Seq<Option<CachedMeta>> {
    Seq::new(
        new_ids.len(),
        |j: int|
            if new_ids.take(j).contains(new_ids[j]) {
                None
            } else {
                last_entry(entries, old_ids, new_ids[j], old_ids.len() as int)
            },
    )
}

impl MetadataCache {
    /// A cache for a playlist of this length, with nothing known.
    pub fn new(len: usize) -> (r: Self)
        ensures
            r.entries@ == Seq::new(len as nat, |i: int| None::<CachedMeta>),
            !r.cancel,
    {
        let mut entries: Vec<Option<CachedMeta>> = Vec::new();
        while entries.len() < len
            invariant
                entries.len() <= len,
                forall|i: int| 0 <= i < entries.len() ==> entries@[i] is None,
            decreases len - entries.len(),
        {
            entries.push(None);
        }
        assert(entries@ =~= Seq::new(len as nat, |i: int| None::<CachedMeta>));
        MetadataCache { entries, cancel: false }
    }

    /// How the track at a place is shown: as its tags tell, else by file name.
    pub fn display_name(&self, index: usize, path: &str) -> (r: String)
        ensures
            match entry_at(self.entries@, index as int) {
                Some(m) => r@ == m.display@,
                None => is_name_text(path@, r@),
            },
    {
        if index < self.entries.len() {
            match &self.entries[index] {
                Some(m) => {
                    return m.display.clone();
                },
                None => {},
            }
        }
        file_name_text(path)
    }

    /// Whether a search for these small letters finds the track at a place. An
    /// empty search finds nothing.
    pub fn search_matches(&self, index: usize, path: &str, query: &str) -> (r: bool)
        ensures
            query@.len() == 0 ==> !r,
            query@.len() > 0 ==> match entry_at(self.entries@, index as int) {
                Some(m) => r == holds(m.search_text@, query@),
                None => exists|name: Seq<char>| #[trigger]
                    is_name_text(path@, name) && r == holds(lowercased(name), query@),
            },
    {
        if query.is_empty() {
            return false;
        }
        if index < self.entries.len() {
            match &self.entries[index] {
                Some(m) => {
                    return contains(m.search_text.as_str(), query);
                },
                None => {},
            }
        }
        let name = file_name_text(path);
        assert(is_name_text(path@, name@));
        contains(name.as_str().to_lowercase().as_str(), query)
    }

    /// The lyrics of the track at a place.
    pub fn lyrics(&self, index: usize) -> (r: Option<String>)
        ensures
            r == (match entry_at(self.entries@, index as int) {
                Some(m) => m.tags.lyrics,
                None => None,
            }),
    {
        if index < self.entries.len() {
            match &self.entries[index] {
                Some(m) => {
                    return copy_text(&m.tags.lyrics);
                },
                None => {},
            }
        }
        None
    }

    /// The artist and the title of the track at a place.
    pub fn artist_title(&self, index: usize) -> (r: (Option<String>, Option<String>))
        ensures
            r == (match entry_at(self.entries@, index as int) {
                Some(m) => (m.tags.artist, m.tags.title),
                None => (None, None),
            }),
    {
        if index < self.entries.len() {
            match &self.entries[index] {
                Some(m) => {
                    return (copy_text(&m.tags.artist), copy_text(&m.tags.title));
                },
                None => {},
            }
        }
        (None, None)
    }

    /// Keeps what is known of the track at a place; nothing happens behind the
    /// end.
    pub fn set(&mut self, index: usize, meta: CachedMeta)
        ensures
            final(self).cancel == old(self).cancel,
            final(self).entries@ == if index < old(self).entries.len() {
                old(self).entries@.update(index as int, Some(meta))
            } else {
                old(self).entries@
            },
    {
        if index < self.entries.len() {
            self.entries.set(index, Some(meta));
        }
    }

    /// Moves the entries to the new places of their tracks, where places have
    /// these numbers.
    pub fn reindex_with(&mut self, new_ids: &Vec<usize>, old_ids: &Vec<usize>)
        ensures
            final(self).cancel == old(self).cancel,
            final(self).entries@ == reindexed(old(self).entries@, new_ids@, old_ids@),
    {
        let mut fresh: Vec<Option<CachedMeta>> = Vec::new();
        let ghost target = reindexed(self.entries@, new_ids@, old_ids@);
        let mut j: usize = 0;
        while j < new_ids.len()
            invariant
                j <= new_ids.len(),
                *self == *old(self),
                target == reindexed(self.entries@, new_ids@, old_ids@),
                fresh@ == target.take(j as int),
            decreases new_ids.len() - j,
        {
            let mut k: usize = 0;
            while k < j && new_ids[k] != new_ids[j]
                invariant
                    k <= j < new_ids.len(),
                    forall|t: int| 0 <= t < k ==> new_ids@[t] != new_ids@[j as int],
                decreases j - k,
            {
                k = k + 1;
            }
            proof {
                if k < j {
                    assert(new_ids@.take(j as int)[k as int] == new_ids@[j as int]);
                }
            }
            let moved = if k < j {
                None
            } else {
                self.find_last(old_ids, new_ids[j])
            };
            fresh.push(moved);
            assert(fresh@ =~= target.take(j + 1));
            j = j + 1;
        }
        assert(target.take(j as int) =~= target);
        self.entries = fresh;
    }

    /// The entry of the last old place with this number.
    fn find_last(&self, old_ids: &Vec<usize>, id: usize) -> (r: Option<CachedMeta>)
        ensures
            r == last_entry(self.entries@, old_ids@, id, old_ids.len() as int),
    {
        let mut n: usize = old_ids.len();
        while n > 0
            invariant
                n <= old_ids.len(),
                last_entry(self.entries@, old_ids@, id, n as int) == last_entry(
                    self.entries@,
                    old_ids@,
                    id,
                    old_ids.len() as int,
                ),
            decreases n,
        {
            if old_ids[n - 1] == id && n - 1 < self.entries.len() {
                match &self.entries[n - 1] {
                    Some(m) => {
                        return Some(m.clone());
                    },
                    None => {},
                }
            }
            n = n - 1;
        }
        None
    }

    /// Moves the entries to the new places of their tracks.
    pub fn reindex(&mut self, new_playlist: &Vec<String>, old_playlist: &Vec<String>)
        ensures
            final(self).cancel == old(self).cancel,
            exists|ids: Seq<usize>|
                {
                    &&& #[trigger] tells_apart(texts(old_playlist@) + texts(new_playlist@), ids)
                    &&& final(self).entries@ == reindexed(
                        old(self).entries@,
                        ids.skip(old_playlist.len() as int),
                        ids.take(old_playlist.len() as int),
                    )
                },
    {
        let mut all: Vec<String> = Vec::new();
        push_texts(&mut all, old_playlist);
        push_texts(&mut all, new_playlist);
        assert(texts(all@) =~= texts(old_playlist@) + texts(new_playlist@));
        let ids = number_paths(&all);
        let ghost whole = ids@;
        let mut old_ids = ids;
        let new_ids = old_ids.split_off(old_playlist.len());
        assert(old_ids@ =~= whole.take(old_playlist.len() as int));
        assert(new_ids@ =~= whole.skip(old_playlist.len() as int));
        self.reindex_with(&new_ids, &old_ids);
    }

    /// Forgets a place; the ones behind it move up.
    pub fn remove_at(&mut self, index: usize)
        ensures
            final(self).cancel == old(self).cancel,
            final(self).entries@ == if index < old(self).entries.len() {
                old(self).entries@.remove(index as int)
            } else {
                old(self).entries@
            },
    {
        if index < self.entries.len() {
            self.entries.remove(index);
        }
    }

    /// Whether something is known of the track at a place.
    pub fn is_set(&self, index: usize) -> (r: bool)
        ensures
            r == entry_at(self.entries@, index as int) is Some,
    {
        index < self.entries.len() && self.entries[index].is_some()
    }

    /// The place that a scan of `len` tracks reads next, from `from` on: the
    /// first of which nothing is known. None at the end, or where the scan is
    /// to stop.
    pub fn next_to_scan(&self, from: usize, len: usize) -> (r: Option<usize>)
        ensures
            match r {
                Some(i) => {
                    &&& !self.cancel
                    &&& from <= i < len
                    &&& entry_at(self.entries@, i as int) is None
                    &&& forall|k: int| from <= k < i ==> entry_at(self.entries@, k) is Some
                },
                None => self.cancel || forall|k: int|
                    from <= k < len ==> entry_at(self.entries@, k) is Some,
            },
    {
        if self.cancel {
            return None;
        }
        let mut i: usize = from;
        while i < len
            invariant
                !self.cancel,
                from <= i,
                i <= len || i == from,
                forall|k: int| from <= k < i ==> entry_at(self.entries@, k) is Some,
            decreases len - i,
        {
            if !self.is_set(i) {
                return Some(i);
            }
            i = i + 1;
        }
        None
    }
}

/// Puts texts behind a list.
fn push_texts(out: &mut Vec<String>, list: &Vec<String>)
    ensures
        texts(final(out)@) == texts(old(out)@) + texts(list@),
{
    let ghost before = texts(out@);
    let mut i: usize = 0;
    assert(texts(out@) =~= before + texts(list@).take(0));
    while i < list.len()
        invariant
            i <= list.len(),
            texts(out@) == before + texts(list@).take(i as int),
        decreases list.len() - i,
    {
        let ghost was = texts(out@);
        out.push(list[i].clone());
        assert(texts(out@) =~= was.push(list@[i as int]@));
        assert(texts(out@) =~= before + texts(list@).take(i + 1));
        i = i + 1;
    }
    assert(texts(list@).take(i as int) =~= texts(list@));
}

/// What is found of the only old place with a number is its entry.
proof fn lemma_only_entry(
    entries: Seq<Option<CachedMeta>>,
    ids: Seq<usize>,
    i: int,
    n: int,
)
    requires
        ids.no_duplicates(),
        0 <= i < n <= ids.len(),
    ensures
        last_entry(entries, ids, ids[i], n) == entry_at(entries, i),
    decreases n,
{
    if n - 1 == i {
        if entry_at(entries, i) is None {
            lemma_no_entry(entries, ids, ids[i], n - 1);
        }
    } else {
        assert(ids[n - 1] != ids[i]);
        lemma_only_entry(entries, ids, i, n - 1);
    }
}

proof fn lemma_no_entry(entries: Seq<Option<CachedMeta>>, ids: Seq<usize>, id: usize, n: int)
    requires
        0 <= n <= ids.len(),
        forall|k: int| 0 <= k < n ==> ids[k] != id,
    ensures
        last_entry(entries, ids, id, n) is None,
    decreases n,
{
    if n > 0 {
        lemma_no_entry(entries, ids, id, n - 1);
    }
}

/// In playlists without duplicates every entry follows its track: what was known
/// at a track's old place is known at its new one, and of a track that was not
/// there before nothing is known.
pub proof fn law_entries_follow_tracks(
    entries: Seq<Option<CachedMeta>>,
    new_ids: Seq<usize>,
    old_ids: Seq<usize>,
    j: int,
)
    requires
        new_ids.no_duplicates(),
        old_ids.no_duplicates(),
        0 <= j < new_ids.len(),
    ensures
        forall|i: int|
            0 <= i < old_ids.len() && #[trigger] old_ids[i] == new_ids[j] ==> reindexed(
                entries,
                new_ids,
                old_ids,
            )[j] == entry_at(entries, i),
        !old_ids.contains(new_ids[j]) ==> reindexed(entries, new_ids, old_ids)[j] is None,
{
    if new_ids.take(j).contains(new_ids[j]) {
        let k = choose|k: int| 0 <= k < j && new_ids.take(j)[k] == new_ids[j];
        assert(new_ids[k] == new_ids[j]);
    }
    assert forall|i: int| 0 <= i < old_ids.len() && #[trigger] old_ids[i] == new_ids[j] implies reindexed(
        entries,
        new_ids,
        old_ids,
    )[j] == entry_at(entries, i) by {
        lemma_only_entry(entries, old_ids, i, old_ids.len() as int);
    }
    if !old_ids.contains(new_ids[j]) {
        lemma_no_entry(entries, old_ids, new_ids[j], old_ids.len() as int);
    }
}

/// In playlists in which no two paths are alike every entry follows the path of its
/// track, and of a track at a path like none before nothing is known.
pub proof fn law_entries_follow_paths(
    entries: Seq<Option<CachedMeta>>,
    old_paths: Seq<Seq<char>>,
    new_paths: Seq<Seq<char>>,
    ids: Seq<usize>,
    j: int,
)
    requires
        tells_apart(old_paths + new_paths, ids),
        forall|i: int, k: int|
            0 <= i < k < old_paths.len() ==> !alike(#[trigger] old_paths[i], #[trigger] old_paths[k]),
        forall|i: int, k: int|
            0 <= i < k < new_paths.len() ==> !alike(#[trigger] new_paths[i], #[trigger] new_paths[k]),
        0 <= j < new_paths.len(),
    ensures
        forall|i: int|
            0 <= i < old_paths.len() && #[trigger] old_paths[i] == new_paths[j] ==> reindexed(
                entries,
                ids.skip(old_paths.len() as int),
                ids.take(old_paths.len() as int),
            )[j] == entry_at(entries, i),
        (forall|i: int| 0 <= i < old_paths.len() ==> !alike(#[trigger] old_paths[i], new_paths[j]))
            ==> reindexed(
            entries,
            ids.skip(old_paths.len() as int),
            ids.take(old_paths.len() as int),
        )[j] is None,
{
    let a = old_paths.len() as int;
    let all = old_paths + new_paths;
    let old_ids = ids.take(a);
    let new_ids = ids.skip(a);
    assert forall|i: int, k: int| 0 <= i < k < old_ids.len() implies old_ids[i] != old_ids[k] by {
        assert(ids[i] == old_ids[i] && ids[k] == old_ids[k]);
        assert(all[i] == old_paths[i] && all[k] == old_paths[k]);
    }
    assert forall|i: int, k: int| 0 <= i < k < new_ids.len() implies new_ids[i] != new_ids[k] by {
        assert(ids[a + i] == new_ids[i] && ids[a + k] == new_ids[k]);
        assert(all[a + i] == new_paths[i] && all[a + k] == new_paths[k]);
    }
    law_entries_follow_tracks(entries, new_ids, old_ids, j);
    assert(ids[a + j] == new_ids[j] && all[a + j] == new_paths[j]);
    assert forall|i: int| 0 <= i < a && #[trigger] old_paths[i] == new_paths[j] implies reindexed(
        entries,
        new_ids,
        old_ids,
    )[j] == entry_at(entries, i) by {
        assert(all[i] == old_paths[i]);
        assert(ids[i] == ids[a + j]);
        assert(old_ids[i] == new_ids[j]);
    }
    if old_ids.contains(new_ids[j]) {
        let i = choose|i: int| 0 <= i < a && old_ids[i] == new_ids[j];
        assert(ids[i] == ids[a + j]);
        assert(all[i] == old_paths[i]);
        assert(alike(old_paths[i], new_paths[j]));
    }
}

/// A playlist without duplicates that stays as it is keeps its entries.
pub proof fn law_reindex_same(entries: Seq<Option<CachedMeta>>, ids: Seq<usize>)
    requires
        ids.no_duplicates(),
        entries.len() == ids.len(),
    ensures
        reindexed(entries, ids, ids) == entries,
{
    assert forall|j: int| 0 <= j < ids.len() implies reindexed(entries, ids, ids)[j]
        == entries[j] by {
        law_entries_follow_tracks(entries, ids, ids, j);
        assert(ids[j] == ids[j]);
    }
    assert(reindexed(entries, ids, ids) =~= entries);
}

/// What is known of a file stays known when more of its tags are read, and a
/// title or artist that was found is not replaced by tags found around the
/// stream.
pub proof fn law_outer_tags_only_add(s: TagSummary, tag: Tag)
    ensures
        s.title is Some ==> with_tag(s, tag, false).title == s.title,
        s.artist is Some ==> with_tag(s, tag, false).artist == s.artist,
        s.lyrics is Some ==> with_tag(s, tag, false).lyrics == s.lyrics,
        s.rg_track_gain is Some ==> with_tag(s, tag, false).rg_track_gain == s.rg_track_gain,
        s.rg_track_peak is Some ==> with_tag(s, tag, false).rg_track_peak == s.rg_track_peak,
        s.rg_album_gain is Some ==> with_tag(s, tag, false).rg_album_gain == s.rg_album_gain,
        s.rg_album_peak is Some ==> with_tag(s, tag, false).rg_album_peak == s.rg_album_peak,
{
}

/// A track is found by any part of its file name and of how it is shown, in
/// small letters.
pub proof fn law_search_finds(display: Seq<char>, file_name: Seq<char>, query: Seq<char>)
    requires
        holds(lowercased(display), query) || holds(lowercased(file_name), query),
    ensures
        holds(search_text_of(display, file_name), query),
{
    let d = lowercased(display);
    let n = lowercased(file_name);
    let all = search_text_of(display, file_name);
    if holds(d, query) {
        let i = choose|i: int| crate::text::occurs_at(d, query, i);
        assert(all.subrange(i, i + query.len()) =~= d.subrange(i, i + query.len()));
        assert(crate::text::occurs_at(all, query, i));
    } else {
        let i = choose|i: int| crate::text::occurs_at(n, query, i);
        let k = d.len() + 1 + i;
        assert(all.subrange(k, k + query.len()) =~= n.subrange(i, i + query.len()));
        assert(crate::text::occurs_at(all, query, k));
    }
}

/// Whether a tag holds a title.
pub open spec fn holds_title(tag: Tag) -> bool {
    tag.meaning == TagMeaning::Title && tag.text is Some
}

proof fn lemma_title(s: TagSummary, tags: Seq<Tag>, n: int, replace: bool)
    requires
        0 <= n <= tags.len(),
    ensures
        forall|i: int|
            0 <= i < n && replace && holds_title(#[trigger] tags[i]) && (forall|k: int|
                i < k < n ==> !holds_title(#[trigger] tags[k])) ==> with_tags(
                s,
                tags,
                n,
                replace,
            ).title == tags[i].text,
        forall|i: int|
            0 <= i < n && !replace && s.title is None && holds_title(#[trigger] tags[i]) && (
            forall|k: int| 0 <= k < i ==> !holds_title(#[trigger] tags[k])) ==> with_tags(
                s,
                tags,
                n,
                replace,
            ).title == tags[i].text,
        !replace && s.title is Some ==> with_tags(s, tags, n, replace).title == s.title,
        (forall|i: int| 0 <= i < n ==> !holds_title(#[trigger] tags[i])) ==> with_tags(
            s,
            tags,
            n,
            replace,
        ).title == s.title,
    decreases n,
{
    if n > 0 {
        lemma_title(s, tags, n - 1, replace);
        let last = holds_title(tags[n - 1]);
        assert(!last ==> with_tags(s, tags, n, replace).title == with_tags(
            s,
            tags,
            n - 1,
            replace,
        ).title);
        assert(last && replace ==> with_tags(s, tags, n, replace).title == tags[n - 1].text);
        assert forall|i: int|
            0 <= i < n && !replace && s.title is None && holds_title(#[trigger] tags[i]) && (
            forall|k: int| 0 <= k < i ==> !holds_title(#[trigger] tags[k])) implies with_tags(
            s,
            tags,
            n,
            replace,
        ).title == tags[i].text by {
            if i == n - 1 {
                assert(with_tags(s, tags, n - 1, replace).title == s.title);
            } else {
                assert(with_tags(s, tags, n - 1, replace).title == tags[i].text);
            }
        }
    }
}

/// Of the tags in the stream the last with a title counts; where there is none, the first
/// of those around it; and without any there is none.
pub proof fn law_title_is_found(inner: Seq<Tag>, outer: Seq<Tag>, i: int)
    ensures
        0 <= i < inner.len() && holds_title(inner[i]) && (forall|k: int|
            i < k < inner.len() ==> !holds_title(#[trigger] inner[k])) ==> summary_of(
            inner,
            outer,
        ).title == inner[i].text,
        (forall|k: int| 0 <= k < inner.len() ==> !holds_title(#[trigger] inner[k])) && 0 <= i
            < outer.len() && holds_title(outer[i]) && (forall|k: int|
            0 <= k < i ==> !holds_title(#[trigger] outer[k])) ==> summary_of(
            inner,
            outer,
        ).title == outer[i].text,
        (forall|k: int| 0 <= k < inner.len() ==> !holds_title(#[trigger] inner[k])) && (forall|
            k: int,
        |
            0 <= k < outer.len() ==> !holds_title(#[trigger] outer[k])) ==> summary_of(
            inner,
            outer,
        ).title is None,
{
    let first = with_tags(TagSummary::nothing(), inner, inner.len() as int, true);
    lemma_title(TagSummary::nothing(), inner, inner.len() as int, true);
    lemma_title(first, outer, outer.len() as int, false);
    if 0 <= i < inner.len() && holds_title(inner[i]) {
        assert(holds_title(inner[i]));
    }
}

/// Whether a tag holds an artist.
pub open spec fn holds_artist(tag: Tag) -> bool {
    tag.meaning == TagMeaning::Artist && tag.text is Some
}

proof fn lemma_artist(s: TagSummary, tags: Seq<Tag>, n: int, replace: bool)
    requires
        0 <= n <= tags.len(),
    ensures
        forall|i: int|
            0 <= i < n && replace && holds_artist(#[trigger] tags[i]) && (forall|k: int|
                i < k < n ==> !holds_artist(#[trigger] tags[k])) ==> with_tags(
                s,
                tags,
                n,
                replace,
            ).artist == tags[i].text,
        forall|i: int|
            0 <= i < n && !replace && s.artist is None && holds_artist(#[trigger] tags[i]) && (
            forall|k: int| 0 <= k < i ==> !holds_artist(#[trigger] tags[k])) ==> with_tags(
                s,
                tags,
                n,
                replace,
            ).artist == tags[i].text,
        !replace && s.artist is Some ==> with_tags(s, tags, n, replace).artist == s.artist,
        (forall|i: int| 0 <= i < n ==> !holds_artist(#[trigger] tags[i])) ==> with_tags(
            s,
            tags,
            n,
            replace,
        ).artist == s.artist,
    decreases n,
{
    if n > 0 {
        lemma_artist(s, tags, n - 1, replace);
        let last = holds_artist(tags[n - 1]);
        assert(!last ==> with_tags(s, tags, n, replace).artist == with_tags(
            s,
            tags,
            n - 1,
            replace,
        ).artist);
        assert(last && replace ==> with_tags(s, tags, n, replace).artist == tags[n - 1].text);
        assert forall|i: int|
            0 <= i < n && !replace && s.artist is None && holds_artist(#[trigger] tags[i]) && (
            forall|k: int| 0 <= k < i ==> !holds_artist(#[trigger] tags[k])) implies with_tags(
            s,
            tags,
            n,
            replace,
        ).artist == tags[i].text by {
            if i == n - 1 {
                assert(with_tags(s, tags, n - 1, replace).artist == s.artist);
            } else {
                assert(with_tags(s, tags, n - 1, replace).artist == tags[i].text);
            }
        }
    }
}

/// Of the tags in the stream the last with an artist counts; where there is none, the first
/// of those around it; and without any there is none.
pub proof fn law_artist_is_found(inner: Seq<Tag>, outer: Seq<Tag>, i: int)
    ensures
        0 <= i < inner.len() && holds_artist(inner[i]) && (forall|k: int|
            i < k < inner.len() ==> !holds_artist(#[trigger] inner[k])) ==> summary_of(
            inner,
            outer,
        ).artist == inner[i].text,
        (forall|k: int| 0 <= k < inner.len() ==> !holds_artist(#[trigger] inner[k])) && 0 <= i
            < outer.len() && holds_artist(outer[i]) && (forall|k: int|
            0 <= k < i ==> !holds_artist(#[trigger] outer[k])) ==> summary_of(
            inner,
            outer,
        ).artist == outer[i].text,
        (forall|k: int| 0 <= k < inner.len() ==> !holds_artist(#[trigger] inner[k])) && (forall|
            k: int,
        |
            0 <= k < outer.len() ==> !holds_artist(#[trigger] outer[k])) ==> summary_of(
            inner,
            outer,
        ).artist is None,
{
    let first = with_tags(TagSummary::nothing(), inner, inner.len() as int, true);
    lemma_artist(TagSummary::nothing(), inner, inner.len() as int, true);
    lemma_artist(first, outer, outer.len() as int, false);
    if 0 <= i < inner.len() && holds_artist(inner[i]) {
        assert(holds_artist(inner[i]));
    }
}

/// Whether a tag holds lyrics: it means them, or its key names them.
pub open spec fn holds_lyrics(tag: Tag) -> bool {
    tag.text is Some && (tag.meaning == TagMeaning::Lyrics || lowercased(tag.key@) == "lyrics"@
        || lowercased(tag.key@) == "unsyncedlyrics"@)
}

proof fn lemma_lyrics(s: TagSummary, tags: Seq<Tag>, n: int, replace: bool)
    requires
        0 <= n <= tags.len(),
    ensures
        forall|i: int|
            0 <= i < n && s.lyrics is None && holds_lyrics(#[trigger] tags[i]) && (forall|k: int|
                0 <= k < i ==> !holds_lyrics(#[trigger] tags[k])) ==> with_tags(
                s,
                tags,
                n,
                replace,
            ).lyrics == tags[i].text,
        s.lyrics is Some ==> with_tags(s, tags, n, replace).lyrics == s.lyrics,
        (forall|i: int| 0 <= i < n ==> !holds_lyrics(#[trigger] tags[i])) ==> with_tags(
            s,
            tags,
            n,
            replace,
        ).lyrics == s.lyrics,
    decreases n,
{
    if n > 0 {
        lemma_lyrics(s, tags, n - 1, replace);
        let before = with_tags(s, tags, n - 1, replace).lyrics;
        let after = with_tags(s, tags, n, replace).lyrics;
        assert(!holds_lyrics(tags[n - 1]) ==> after == before);
        assert(before is Some ==> after == before);
        assert(before is None && holds_lyrics(tags[n - 1]) ==> after == tags[n - 1].text);
        assert forall|i: int|
            0 <= i < n && s.lyrics is None && holds_lyrics(#[trigger] tags[i]) && (forall|k: int|
                0 <= k < i ==> !holds_lyrics(#[trigger] tags[k])) implies after
            == tags[i].text by {
            if i == n - 1 {
                assert(before == s.lyrics);
            } else {
                assert(before == tags[i].text);
            }
        }
    }
}

/// The first lyrics count: those in the stream, else those around it.
pub proof fn law_lyrics_are_found(inner: Seq<Tag>, outer: Seq<Tag>, i: int)
    ensures
        0 <= i < inner.len() && holds_lyrics(inner[i]) && (forall|k: int|
            0 <= k < i ==> !holds_lyrics(#[trigger] inner[k])) ==> summary_of(inner, outer).lyrics
            == inner[i].text,
        (forall|k: int| 0 <= k < inner.len() ==> !holds_lyrics(#[trigger] inner[k])) && 0 <= i
            < outer.len() && holds_lyrics(outer[i]) && (forall|k: int|
            0 <= k < i ==> !holds_lyrics(#[trigger] outer[k])) ==> summary_of(inner, outer).lyrics
            == outer[i].text,
        (forall|k: int| 0 <= k < inner.len() ==> !holds_lyrics(#[trigger] inner[k])) && (forall|
            k: int,
        |
            0 <= k < outer.len() ==> !holds_lyrics(#[trigger] outer[k])) ==> summary_of(
            inner,
            outer,
        ).lyrics is None,
{
    let first = with_tags(TagSummary::nothing(), inner, inner.len() as int, true);
    lemma_lyrics(TagSummary::nothing(), inner, inner.len() as int, true);
    lemma_lyrics(first, outer, outer.len() as int, false);
    if 0 <= i < inner.len() && holds_lyrics(inner[i]) {
        assert(holds_lyrics(inner[i]));
    }
}

/// Which tags hold which loudness: a tag with a text counts by its key, in any case of
/// letters, for the one that it names, where that was not found yet; title, artist and lyrics
/// have no part in it.
pub proof fn law_tags_hold_loudness(s: TagSummary, tag: Tag, replace: bool)
    ensures
        ({
            let r = with_tag(s, tag, replace);
            let key = lowercased(tag.key@);
            let read = tag.text is Some;
            &&& read && s.rg_track_gain is None && key == "replaygain_track_gain"@
                ==> r.rg_track_gain == tag.gain
            &&& read && s.rg_track_peak is None && key == "replaygain_track_peak"@
                ==> r.rg_track_peak == tag.peak
            &&& read && s.rg_album_gain is None && key == "replaygain_album_gain"@
                ==> r.rg_album_gain == tag.gain
            &&& read && s.rg_album_peak is None && key == "replaygain_album_peak"@
                ==> r.rg_album_peak == tag.peak
            &&& !read || key != "replaygain_track_gain"@ ==> r.rg_track_gain == s.rg_track_gain
            &&& !read || key != "replaygain_track_peak"@ ==> r.rg_track_peak == s.rg_track_peak
            &&& !read || key != "replaygain_album_gain"@ ==> r.rg_album_gain == s.rg_album_gain
            &&& !read || key != "replaygain_album_peak"@ ==> r.rg_album_peak == s.rg_album_peak
            &&& s.rg_track_gain is Some ==> r.rg_track_gain == s.rg_track_gain
            &&& s.rg_track_peak is Some ==> r.rg_track_peak == s.rg_track_peak
            &&& s.rg_album_gain is Some ==> r.rg_album_gain == s.rg_album_gain
            &&& s.rg_album_peak is Some ==> r.rg_album_peak == s.rg_album_peak
        }),
{
}

/// A track is shown by its artist and its title, with a hyphen between them; by the one of
/// the two that is known; and by neither where both are missing.
pub proof fn law_artist_stands_in_front(artist: Seq<char>, title: Seq<char>)
    ensures
        display_of(Some(artist), Some(title)) == Some(artist + seq![' ', '-', ' '] + title),
        display_of(Some(artist), None) == Some(artist),
        display_of(None, Some(title)) == Some(title),
        display_of(None, None) is None,
{
    reveal_strlit(" - ");
    assert(" - "@ =~= seq![' ', '-', ' ']);
}

/// A number with or without its unit behind it, and a space between them or not, is read as
/// the number.
pub proof fn law_gain_is_read_without_unit(n: Seq<char>)
    requires
        n.len() > 0,
        !crate::text::is_space(n[0]),
        !crate::text::is_space(n.last()),
        n.last() != 'B' && n.last() != 'b',
    ensures
        gain_text(n) == n,
        gain_text(n + seq!['d', 'B']) == n,
        gain_text(n + seq!['d', 'b']) == n,
        gain_text(n + seq![' ', 'd', 'B']) == n,
        gain_text(n + seq![' ', 'd', 'b']) == n,
{
    reveal_strlit(" dB");
    reveal_strlit(" db");
    reveal_strlit("dB");
    reveal_strlit("db");
    assert(" dB"@ =~= seq![' ', 'd', 'B']);
    assert(" db"@ =~= seq![' ', 'd', 'b']);
    assert("dB"@ =~= seq!['d', 'B']);
    assert("db"@ =~= seq!['d', 'b']);
    lemma_not_ending(n);
    lemma_with_unit(n, seq!['d', 'B']);
    lemma_with_unit(n, seq!['d', 'b']);
    lemma_with_unit(n, seq![' ', 'd', 'B']);
    lemma_with_unit(n, seq![' ', 'd', 'b']);
    let b = n + seq!['d', 'B'];
    let c = n + seq!['d', 'b'];
    assert(!(seq![' ', 'd', 'B'] =~= b.skip(b.len() - 3)) || n.last() == ' ') by {
        assert(b.skip(b.len() - 3)[0] == n.last());
    }
    assert(!(seq![' ', 'd', 'b'] =~= b.skip(b.len() - 3))) by {
        assert(b.skip(b.len() - 3)[2] == 'B');
    }
    assert(!(seq![' ', 'd', 'b'] =~= c.skip(c.len() - 3)) || n.last() == ' ') by {
        assert(c.skip(c.len() - 3)[0] == n.last());
    }
    assert(!(seq![' ', 'd', 'B'] =~= c.skip(c.len() - 3))) by {
        assert(c.skip(c.len() - 3)[2] == 'b');
    }
}

proof fn lemma_not_ending(n: Seq<char>)
    requires
        n.len() > 0,
        n.last() != 'B' && n.last() != 'b',
    ensures
        !seq!['d', 'B'].is_suffix_of(n) && !seq!['d', 'b'].is_suffix_of(n),
        !seq![' ', 'd', 'B'].is_suffix_of(n) && !seq![' ', 'd', 'b'].is_suffix_of(n),
{
    if seq!['d', 'B'].is_suffix_of(n) {
        assert(n.subrange(n.len() - 2, n.len() as int)[1] == n.last());
    }
    if seq!['d', 'b'].is_suffix_of(n) {
        assert(n.subrange(n.len() - 2, n.len() as int)[1] == n.last());
    }
    if seq![' ', 'd', 'B'].is_suffix_of(n) {
        assert(n.subrange(n.len() - 3, n.len() as int)[2] == n.last());
    }
    if seq![' ', 'd', 'b'].is_suffix_of(n) {
        assert(n.subrange(n.len() - 3, n.len() as int)[2] == n.last());
    }
}

proof fn lemma_with_unit(n: Seq<char>, unit: Seq<char>)
    requires
        n.len() > 0,
        unit.len() > 0,
        !crate::text::is_space(n[0]),
        !crate::text::is_space(n.last()),
        !crate::text::is_space(unit.last()),
    ensures
        trimmed(n + unit) == n + unit,
        trimmed(n) == n,
        unit.is_suffix_of(n + unit),
        (n + unit).take((n + unit).len() - unit.len()) == n,
{
    let t = n + unit;
    assert(t[0] == n[0] && t.last() == unit.last());
    assert(t.subrange(t.len() - unit.len(), t.len() as int) =~= unit);
    assert(t.take(t.len() - unit.len()) =~= n);
}

/// What is known of a track is not lost when it stood at several places: it is known at its
/// first new place where anything was known at one of the old ones, and it is what was known at
/// the last of these.
pub proof fn law_known_entry_is_kept(
    entries: Seq<Option<CachedMeta>>,
    new_ids: Seq<usize>,
    old_ids: Seq<usize>,
    j: int,
    i: int,
)
    requires
        0 <= j < new_ids.len(),
        !new_ids.take(j).contains(new_ids[j]),
        0 <= i < old_ids.len() <= entries.len(),
        old_ids[i] == new_ids[j],
        entries[i] is Some,
        forall|k: int|
            i < k < old_ids.len() ==> #[trigger] old_ids[k] != new_ids[j] || entries[k] is None,
    ensures
        reindexed(entries, new_ids, old_ids)[j] == entries[i],
{
    lemma_last_known(entries, old_ids, i, old_ids.len() as int);
}

proof fn lemma_last_known(entries: Seq<Option<CachedMeta>>, ids: Seq<usize>, i: int, n: int)
    requires
        0 <= i < n <= ids.len() <= entries.len(),
        entries[i] is Some,
        forall|k: int| i < k < n ==> #[trigger] ids[k] != ids[i] || entries[k] is None,
    ensures
        last_entry(entries, ids, ids[i], n) == entries[i],
    decreases n,
{
    if n - 1 > i {
        assert(ids[n - 1] != ids[i] || entries[n - 1] is None);
        lemma_last_known(entries, ids, i, n - 1);
    }
}

} // verus!
