//! Tracks: a path and the kind of medium, which its extension tells.
//!
//! A path is a text: a file name that is not UTF-8 cannot be held.
use vstd::prelude::*;

use crate::text::{all_ascii, ascii_lower, lowercased, same};

verus! {

/// What plays a track: sound is decoded here, video in a window of its own.
#[derive(Clone, Copy, Debug, PartialEq, Eq, Structural)]
pub enum MediaKind {
    Audio,
    Video,
}

/// An item of a playlist.
#[derive(Debug, PartialEq, Eq)]
pub struct Track {
    pub path: String,
    pub kind: MediaKind,
}

impl View for Track {
    type V = (Seq<char>, MediaKind);

    open spec fn view(&self) -> (Seq<char>, MediaKind) {
        (self.path@, self.kind)
    }
}

/// A path with a colon behind its first character, as behind the letter of a
/// drive.
pub open spec fn colon_second(path: Seq<char>) -> bool {
    path.len() >= 2 && path[1] == ':'
}

/// A path with two separators in front, as in front of a share.
pub open spec fn double_front(path: Seq<char>) -> bool {
    path.len() >= 2 && (path[0] == '/' || path[0] == '\\') && (path[1] == '/' || path[1] == '\\')
}

/// A path that is read alike on every system: no backslash, no colon where that
/// of a drive stands, and not two slashes in front.
pub open spec fn portable(path: Seq<char>) -> bool {
    &&& !path.contains('\\')
    &&& !colon_second(path)
    &&& !double_front(path)
}

/// A path that may stand for itself: two separators and a question mark in front.
pub open spec fn verbatim(path: Seq<char>) -> bool {
    double_front(path) && path.len() >= 3 && path[2] == '?'
}

/// A text with a slash for each backslash.
pub open spec fn with_slashes(path: Seq<char>) -> Seq<char> {
    path.map_values(
        |c: char|
            if c == '\\' {
                '/'
            } else {
                c
            },
    )
}

/// A text with slashes and backslashes exchanged, as a path that stands for itself is
/// read: only a backslash separates.
pub open spec fn turned(path: Seq<char>) -> Seq<char> {
    path.map_values(
        |c: char|
            if c == '\\' {
                '/'
            } else if c == '/' {
                '\\'
            } else {
                c
            },
    )
}

/// The place of the first separator from `from` on, or the end.
pub open spec fn next_separator(path: Seq<char>, from: int) -> int
    decreases path.len() - from,
{
    if from >= path.len() {
        path.len() as int
    } else if path[from] == '/' || path[from] == '\\' {
        from
    } else {
        next_separator(path, from + 1)
    }
}

/// The place behind the share that a path begins with: two separators, the name of a
/// server, a separator and the name of a share. Zero where there is none.
pub open spec fn share_end(path: Seq<char>) -> int {
    let server = next_separator(path, 2);
    let share = next_separator(path, server + 1);
    if double_front(path) && server > 2 && server < path.len() && share > server + 1 {
        share
    } else {
        0
    }
}

/// A path as systems read it on which a backslash separates too and a share in front has
/// a root of its own.
pub open spec fn off_share(path: Seq<char>) -> Seq<char> {
    let rest = with_slashes(path).skip(share_end(path));
    if share_end(path) > 0 && rest.len() == 0 {
        seq!['/']
    } else {
        rest
    }
}

/// A path as systems read it on which a backslash separates too and a letter with
/// a colon in front names a drive.
pub open spec fn slashed(path: Seq<char>) -> Seq<char> {
    let p = with_slashes(path);
    if colon_second(path) && ('a' <= path[0] <= 'z' || 'A' <= path[0] <= 'Z') {
        p.skip(2)
    } else {
        p
    }
}

/// The pieces between the slashes of a path.
pub open spec fn pieces(path: Seq<char>) -> Seq<Seq<char>>
    decreases path.len(),
{
    if path.len() == 0 {
        seq![Seq::empty()]
    } else {
        let front = pieces(path.drop_last());
        if path.last() == '/' {
            front.push(Seq::empty())
        } else {
            front.drop_last().push(front.last().push(path.last()))
        }
    }
}

/// The final component of a path: the last piece that is neither empty nor a
/// dot, unless it is two dots.
pub open spec fn file_name_of(path: Seq<char>) -> Option<Seq<char>> {
    let names = pieces(path).filter(|p: Seq<char>| p.len() > 0 && p != seq!['.']);
    if names.len() == 0 || names.last() == seq!['.', '.'] {
        None
    } else {
        Some(names.last())
    }
}

/// The position behind the last dot, or zero where there is none.
pub open spec fn behind_dot(name: Seq<char>) -> int
    decreases name.len(),
{
    if name.len() == 0 {
        0
    } else if name.last() == '.' {
        name.len() as int
    } else {
        behind_dot(name.drop_last())
    }
}

/// The part of a file name behind its last dot; none without a dot, and none
/// where the only dot is in front.
pub open spec fn extension_of_name(name: Seq<char>) -> Option<Seq<char>> {
    if behind_dot(name) <= 1 {
        None
    } else {
        Some(name.skip(behind_dot(name)))
    }
}

/// The extension of a path.
pub open spec fn extension_of(path: Seq<char>) -> Option<Seq<char>> {
    match file_name_of(path) {
        Some(name) => extension_of_name(name),
        None => None,
    }
}

/// The text of a string that may be missing.
pub open spec fn text_view(s: Option<String>) -> Option<Seq<char>> {
    match s {
        Some(s) => Some(s@),
        None => None,
    }
}

/// Whether a system may find this file name in a path. On a portable path all
/// systems find the same. Else a backslash is a part of a name on some and a separator on
/// others; there two separators in front name a share, and a path that stands for itself
/// has a front in which no name is found.
pub open spec fn may_be_named(path: Seq<char>, name: Option<Seq<char>>) -> bool {
    &&& portable(path) ==> name == file_name_of(path)
    &&& {
        ||| name == file_name_of(path)
        ||| name == file_name_of(slashed(path))
        ||| double_front(path) && name == file_name_of(off_share(path))
        ||| verbatim(path) && (name matches Some(n) ==> file_name_of(turned(path)) == Some(
            turned(n),
        ))
    }
}

/// The extension of a file name, where there is one.
pub open spec fn extension_in(name: Option<Seq<char>>) -> Option<Seq<char>> {
    match name {
        Some(n) => extension_of_name(n),
        None => None,
    }
}

/// Whether a system may find this extension in a path: that of a file name that it finds.
pub open spec fn may_extend(path: Seq<char>, ext: Option<Seq<char>>) -> bool {
    exists|name: Option<Seq<char>>| #[trigger]
        may_be_named(path, name) && ext == extension_in(name)
}

/// `std::path::Path::extension` gives the part of the file name behind its last
/// dot. Where systems read the path in different ways it is that of one of their
/// readings.
#[verifier::external_body]
pub(crate) fn path_extension(path: &str) -> (r: Option<String>)
    ensures
        may_extend(path@, text_view(r)),
{
    std::path::Path::new(path).extension().map(|e| e.to_string_lossy().into_owned())
}

/// `std::path::Path::file_name` gives the final component of a path, where that is
/// a name. Where systems read the path in different ways it is that of one of their
/// readings.
#[verifier::external_body]
pub(crate) fn path_file_name(path: &str) -> (r: Option<String>)
    ensures
        may_be_named(path@, text_view(r)),
{
    std::path::Path::new(path).file_name().map(|e| e.to_string_lossy().into_owned())
}

/// The extensions of sound files, in small letters.
pub open spec fn is_audio(e: Seq<char>) -> bool {
    ||| e == "mp3"@
    ||| e == "flac"@
    ||| e == "wav"@
    ||| e == "ogg"@
    ||| e == "aac"@
    ||| e == "m4a"@
    ||| e == "aiff"@
    ||| e == "aif"@
}

/// The extensions of video files, in small letters.
pub open spec fn is_video(e: Seq<char>) -> bool {
    ||| e == "mp4"@
    ||| e == "mkv"@
    ||| e == "webm"@
    ||| e == "mov"@
    ||| e == "avi"@
    ||| e == "m4v"@
}

/// Whether an extension in small letters names a sound file.
pub fn is_audio_extension(e: &str) -> (r: bool)
    ensures
        r == is_audio(e@),
{
    same(e, "mp3") || same(e, "flac") || same(e, "wav") || same(e, "ogg") || same(e, "aac")
        || same(e, "m4a") || same(e, "aiff") || same(e, "aif")
}

/// Whether an extension in small letters names a video file.
pub fn is_video_extension(e: &str) -> (r: bool)
    ensures
        r == is_video(e@),
{
    same(e, "mp4") || same(e, "mkv") || same(e, "webm") || same(e, "mov") || same(e, "avi")
        || same(e, "m4v")
}

/// Whether a file with this extension is played.
pub open spec fn is_supported(ext: Seq<char>) -> bool {
    is_audio(lowercased(ext)) || is_video(lowercased(ext))
}

/// Whether folders and playlists take in files with this extension; capital and
/// small letters are the same.
pub fn is_supported_media_extension(ext: &str) -> (r: bool)
    ensures
        r == is_supported(ext@),
        all_ascii(ext@) ==> r == {
            let e = ext@.map_values(|c: char| ascii_lower(c));
            is_audio(e) || is_video(e)
        },
{
    let e = ext.to_lowercase();
    is_audio_extension(e.as_str()) || is_video_extension(e.as_str())
}

/// The kind of medium that an extension tells: video for those of video files,
/// else sound.
pub open spec fn kind_for(ext: Option<Seq<char>>) -> MediaKind {
    match ext {
        Some(e) => if is_video(lowercased(e)) {
            MediaKind::Video
        } else {
            MediaKind::Audio
        },
        None => MediaKind::Audio,
    }
}

/// The kind of medium that an extension tells.
pub fn media_kind_for_extension(ext: Option<String>) -> (r: MediaKind)
    ensures
        r == kind_for(text_view(ext)),
        ext matches Some(e) ==> (all_ascii(e@) ==> (r is Video <==> is_video(
            e@.map_values(|c: char| ascii_lower(c)),
        ))),
{
    match ext {
        Some(e) => if is_video_extension(e.to_lowercase().as_str()) {
            MediaKind::Video
        } else {
            MediaKind::Audio
        },
        None => MediaKind::Audio,
    }
}

/// Whether a file may be of this kind: as the extension tells that is found in its
/// path.
pub open spec fn may_be_kind(path: Seq<char>, kind: MediaKind) -> bool {
    exists|ext: Option<Seq<char>>| #[trigger] may_extend(path, ext) && kind == kind_for(ext)
}

/// The kind of medium at a path.
pub fn media_kind_for_path(path: &str) -> (r: MediaKind)
    ensures
        may_be_kind(path@, r),
        portable(path@) ==> r == kind_for(extension_of(path@)),
{
    let ext = path_extension(path);
    assert(may_extend(path@, text_view(ext)));
    media_kind_for_extension(ext)
}

impl Track {
    /// The track at a path.
    pub fn new(path: String) -> (r: Self)
        ensures
            r.path == path,
            may_be_kind(path@, r.kind),
            portable(path@) ==> r.kind == kind_for(extension_of(path@)),
    {
        let kind = media_kind_for_path(path.as_str());
        Track { path, kind }
    }
}

impl Clone for Track {
    fn clone(&self) -> (r: Self)
        ensures
            r == *self,
    {
        Track { path: self.path.clone(), kind: self.kind }
    }
}

/// No extension is both a sound's and a video's.
pub proof fn law_kinds_are_disjoint(e: Seq<char>)
    ensures
        !(is_audio(e) && is_video(e)),
{
    reveal_strlit("mp3");
    reveal_strlit("flac");
    reveal_strlit("wav");
    reveal_strlit("ogg");
    reveal_strlit("aac");
    reveal_strlit("m4a");
    reveal_strlit("aiff");
    reveal_strlit("aif");
    reveal_strlit("mp4");
    reveal_strlit("mkv");
    reveal_strlit("webm");
    reveal_strlit("mov");
    reveal_strlit("avi");
    reveal_strlit("m4v");
    if is_video(e) {
        assert(e.len() > 2);
        assert(e == "mp4"@ ==> e[2] == '4');
        assert(e == "m4v"@ ==> e[2] == 'v');
        assert(e == "mkv"@ ==> e[1] == 'k');
        assert(e == "webm"@ ==> e[1] == 'e');
        assert(e == "mov"@ ==> e[1] == 'o');
        assert(e == "avi"@ ==> e[1] == 'v');
    }
    if is_audio(e) {
        assert(e == "mp3"@ ==> e[2] == '3' && e[1] == 'p');
        assert(e == "m4a"@ ==> e[2] == 'a' && e[1] == '4');
        assert(e == "flac"@ ==> e[1] == 'l');
        assert(e == "wav"@ ==> e[1] == 'a' && e[2] == 'v' && e[0] == 'w');
        assert(e == "ogg"@ ==> e[1] == 'g');
        assert(e == "aac"@ ==> e[1] == 'a');
        assert(e == "aiff"@ ==> e[1] == 'i');
        assert(e == "aif"@ ==> e[1] == 'i');
    }
}

/// The files that are played: sound and video by these extensions, in any case of letters, and
/// no others. Video goes to a window of its own; what has no extension, or another, counts as
/// sound where it is named itself.
pub proof fn law_media_by_extension(ext: Seq<char>)
    ensures
        ({
            let e = lowercased(ext);
            let sound = {
                ||| e == "mp3"@
                ||| e == "flac"@
                ||| e == "wav"@
                ||| e == "ogg"@
                ||| e == "aac"@
                ||| e == "m4a"@
                ||| e == "aiff"@
                ||| e == "aif"@
            };
            let video = {
                ||| e == "mp4"@
                ||| e == "mkv"@
                ||| e == "webm"@
                ||| e == "mov"@
                ||| e == "avi"@
                ||| e == "m4v"@
            };
            &&& is_supported(ext) <==> sound || video
            &&& video ==> kind_for(Some(ext)) == MediaKind::Video
            &&& !video ==> kind_for(Some(ext)) == MediaKind::Audio
        }),
        kind_for(None) == MediaKind::Audio,
{
}

/// The file name of a path is what stands behind its last slash, and the extension what
/// stands behind the last dot of that.
pub proof fn law_names_stand_behind_the_last_slash(folder: Seq<char>, stem: Seq<char>, ext: Seq<char>)
    requires
        !stem.contains('/') && !ext.contains('/') && !ext.contains('.'),
        stem.len() > 0 && stem != seq!['.'],
    ensures
        file_name_of(folder + seq!['/'] + (stem + seq!['.'] + ext)) == Some(
            stem + seq!['.'] + ext,
        ),
        extension_of(folder + seq!['/'] + (stem + seq!['.'] + ext)) == Some(ext),
{
    let name = stem + seq!['.'] + ext;
    let path = folder + seq!['/'] + name;
    assert forall|i: int| 0 <= i < name.len() implies name[i] != '/' by {
        if i < stem.len() {
            assert(stem.contains(stem[i]));
        } else if i > stem.len() {
            assert(name[i] == ext[i - stem.len() - 1]);
            assert(ext.contains(ext[i - stem.len() - 1]));
        }
    }
    lemma_last_piece(folder + seq!['/'], name);
    lemma_pieces_end(folder);
    assert((folder + seq!['/']).drop_last() =~= folder);
    assert(pieces(folder + seq!['/']).last() =~= Seq::<char>::empty());
    let all = pieces(path);
    assert(all.last() =~= name);
    let wanted = |p: Seq<char>| p.len() > 0 && p != seq!['.'];
    assert(name.len() > 1);
    assert(wanted(all.last()));
    lemma_filter_last(all, wanted);
    if name == seq!['.', '.'] {
        assert(stem.len() == 1 && stem[0] == name[0]);
        assert(stem =~= seq!['.']);
    }
    lemma_behind_dot(stem, ext);
    assert(name.skip(stem.len() as int + 1) =~= ext);
}

proof fn lemma_pieces_end(path: Seq<char>)
    ensures
        pieces(path).len() > 0,
    decreases path.len(),
{
    if path.len() > 0 {
        lemma_pieces_end(path.drop_last());
    }
}

/// A text without slashes goes behind the last piece.
proof fn lemma_last_piece(front: Seq<char>, name: Seq<char>)
    requires
        forall|i: int| 0 <= i < name.len() ==> name[i] != '/',
    ensures
        pieces(front + name).len() > 0,
        pieces(front + name).last() == pieces(front).last() + name,
    decreases name.len(),
{
    lemma_pieces_end(front + name);
    if name.len() > 0 {
        lemma_last_piece(front, name.drop_last());
        assert((front + name).drop_last() =~= front + name.drop_last());
        assert(pieces(front).last() + name =~= (pieces(front).last() + name.drop_last()).push(
            name.last(),
        ));
    } else {
        assert(front + name =~= front);
        assert(pieces(front).last() + name =~= pieces(front).last());
    }
}

proof fn lemma_filter_last(all: Seq<Seq<char>>, wanted: spec_fn(Seq<char>) -> bool)
    requires
        all.len() > 0,
        wanted(all.last()),
    ensures
        all.filter(wanted).len() > 0,
        all.filter(wanted).last() == all.last(),
{
    reveal(Seq::filter);
}

proof fn lemma_behind_dot(stem: Seq<char>, ext: Seq<char>)
    requires
        !ext.contains('.'),
    ensures
        behind_dot(stem + seq!['.'] + ext) == stem.len() + 1,
    decreases ext.len(),
{
    let name = stem + seq!['.'] + ext;
    if ext.len() > 0 {
        assert(name.last() == ext.last());
        assert(ext.contains(ext.last()));
        assert(name.drop_last() =~= stem + seq!['.'] + ext.drop_last());
        assert forall|i: int| 0 <= i < ext.drop_last().len() implies ext.drop_last()[i] != '.' by {
            assert(ext.contains(ext[i]));
        }
        lemma_behind_dot(stem, ext.drop_last());
    } else {
        assert(name =~= stem + seq!['.']);
        assert(name.last() == '.');
    }
}

} // verus!
