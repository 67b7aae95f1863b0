//! Paths as texts: their components, their order, and what the standard
//! library makes of them.
use vstd::prelude::*;

use crate::text::{ascii_lower, to_chars};
use crate::track::{
    behind_dot, colon_second, double_front, extension_of_name, file_name_of, off_share, pieces,
    portable, share_end, slashed, text_view, turned, verbatim, with_slashes,
};

verus! {

/// The component that the piece at `i` of a path is, as numbers that order as
/// components do: the root, then the current folder, then the folder above,
/// then names. An empty piece is a component only in front, where it is the
/// root; a dot only in front of a path.
pub open spec fn part_of(p: Seq<char>, i: int) -> Option<Seq<int>> {
    if p.len() == 0 {
        if i == 0 {
            Some(seq![0int])
        } else {
            None
        }
    } else if p == seq!['.'] {
        if i == 0 {
            Some(seq![1int])
        } else {
            None
        }
    } else if p == seq!['.', '.'] {
        Some(seq![2int])
    } else {
        Some(name_part(p))
    }
}

/// The component that a name is.
pub open spec fn name_part(p: Seq<char>) -> Seq<int> {
    seq![3int] + p.map_values(|c: char| c as int + 1)
}

/// The components of the first `n` pieces of a path.
pub open spec fn parts_upto(all: Seq<Seq<char>>, n: int) -> Seq<Seq<int>>
    decreases n,
{
    if n <= 0 {
        Seq::empty()
    } else {
        match part_of(all[n - 1], n - 1) {
            Some(p) => parts_upto(all, n - 1).push(p),
            None => parts_upto(all, n - 1),
        }
    }
}

/// The components of a path.
pub open spec fn parts(path: Seq<char>) -> Seq<Seq<int>> {
    if path.len() == 0 {
        Seq::empty()
    } else {
        parts_upto(pieces(path), pieces(path).len() as int)
    }
}

/// The components in a row, each closed by a zero.
pub open spec fn in_a_row(all: Seq<Seq<int>>) -> Seq<int>
    decreases all.len(),
{
    if all.len() == 0 {
        Seq::empty()
    } else {
        in_a_row(all.drop_last()) + all.last() + seq![0int]
    }
}

/// The order of a dictionary.
pub open spec fn row_le(a: Seq<int>, b: Seq<int>) -> bool
    decreases a.len(),
{
    if a.len() == 0 {
        true
    } else if b.len() == 0 {
        false
    } else if a[0] != b[0] {
        a[0] < b[0]
    } else {
        row_le(a.drop_first(), b.drop_first())
    }
}

/// Whether a path comes before another or is the same path: component by
/// component.
pub open spec fn path_le(a: Seq<char>, b: Seq<char>) -> bool {
    row_le(in_a_row(parts(a)), in_a_row(parts(b)))
}

/// Whether there is a system that tells of two paths that the first is not after the
/// second (`r`), or that it is.
pub uninterp spec fn some_tells(a: Seq<char>, b: Seq<char>, r: bool) -> bool;

/// `<=` of `std::path::Path` compares two paths component by component. What it gives
/// of paths that are not portable is what a system tells.
#[verifier::external_body]
pub(crate) fn path_not_after(a: &str, b: &str) -> (r: bool)
    ensures
        portable(a@) && portable(b@) ==> r == path_le(a@, b@),
        some_tells(a@, b@, r),
{
    std::path::Path::new(a) <= std::path::Path::new(b)
}

/// Whether a character is an ASCII letter.
pub open spec fn is_letter(c: char) -> bool {
    'a' <= c <= 'z' || 'A' <= c <= 'Z'
}

/// The letter of the drive that a path may begin with, in small letters.
pub open spec fn drive_of(path: Seq<char>) -> Option<char> {
    if colon_second(path) && is_letter(path[0]) {
        Some(ascii_lower(path[0]))
    } else {
        None
    }
}

/// The letter of the drive in a path that may stand for itself, in small letters.
pub open spec fn verbatim_drive_of(path: Seq<char>) -> Option<char> {
    if path.len() >= 6 && path.take(4) == seq!['\\', '\\', '?', '\\'] && is_letter(path[4])
        && path[5] == ':' {
        Some(ascii_lower(path[4]))
    } else {
        None
    }
}

/// A path without the letter of its drive, and with a slash for each backslash.
pub open spec fn behind_drive(path: Seq<char>) -> Seq<char> {
    let p = with_slashes(path);
    if drive_of(path) is Some {
        p.skip(1)
    } else if verbatim_drive_of(path) is Some {
        p.remove(4)
    } else {
        p
    }
}

/// Whether two paths are the same on some system, or differ there in the letters
/// of their drives at most: one with the same components where backslashes
/// separate.
pub open spec fn alike(a: Seq<char>, b: Seq<char>) -> bool {
    &&& drive_of(a) == drive_of(b)
    &&& verbatim_drive_of(a) == verbatim_drive_of(b)
    &&& parts(behind_drive(a)) == parts(behind_drive(b))
}

/// A portable path holds nothing that systems read in different ways.
pub proof fn lemma_portable_behind_drive(path: Seq<char>)
    requires
        portable(path),
    ensures
        drive_of(path) is None,
        behind_drive(path) == path,
{
    assert forall|i: int| 0 <= i < path.len() implies path[i] != '\\' by {
        assert(path.contains(path[i]));
    }
    if path.len() >= 4 {
        assert(path.take(4)[0] != '\\');
    }
    assert(behind_drive(path) =~= path);
}

/// `==` of `std::path::Path` tells whether two paths have the same components. A
/// path is the same as itself, and paths that are the same are alike. Whether
/// paths that are alike are the same, where systems read them in different ways,
/// is left open.
#[verifier::external_body]
pub(crate) fn path_same(a: &str, b: &str) -> (r: bool)
    ensures
        portable(a@) && portable(b@) ==> r == (parts(a@) == parts(b@)),
        a@ == b@ ==> r,
        r ==> alike(a@, b@),
{
    std::path::Path::new(a) == std::path::Path::new(b)
}

/// The text in a reading of paths, where there is one.
pub open spec fn read_as(
    reading: spec_fn(Seq<char>) -> Seq<char>,
    path: Option<Seq<char>>,
) -> Option<Seq<char>> {
    match path {
        Some(p) => Some(reading(p)),
        None => None,
    }
}

/// Whether `r` is a path without its final component; none for a root and for the empty
/// path.
pub open spec fn is_parent(path: Seq<char>, r: Option<Seq<char>>) -> bool {
    &&& r is None <==> (parts(path).len() == 0 || parts(path).last() == seq![0int])
    &&& r matches Some(p) ==> parts(p) == parts(path).drop_last()
}

/// Whether `r` is what stands in front of the last piece between the backslashes of a path.
pub open spec fn is_cut(path: Seq<char>, r: Seq<char>) -> bool {
    exists|j: int, k: int|
        {
            &&& r.len() <= j && 0 < j < k <= path.len()
            &&& path[j - 1] == '\\'
            &&& forall|i: int| r.len() <= i < j ==> path[i] == '\\'
            &&& !#[trigger] path.subrange(j, k).contains('\\')
            &&& forall|i: int| k <= i < path.len() ==> path[i] == '\\'
        }
}

/// Whether a system may take this for the path without its final component.
pub open spec fn may_be_parent(path: Seq<char>, r: Option<Seq<char>>) -> bool {
    &&& r matches Some(p) ==> p.is_prefix_of(path)
    &&& portable(path) ==> is_parent(path, r)
    &&& {
        ||| is_parent(path, r)
        ||| is_parent(slashed(path), read_as(|p: Seq<char>| slashed(p), r))
        ||| double_front(path) && is_parent(off_share(path), read_as(|p: Seq<char>| off_share(p), r))
        ||| verbatim(path) && (r matches Some(p) ==> is_cut(path, p))
    }
}

/// `std::path::Path::parent` gives the path without its final component; none
/// for a root and for the empty path. It is the front of the path. Where systems read the
/// path in different ways it is that of one of their readings.
#[verifier::external_body]
pub(crate) fn path_parent(path: &str) -> (r: Option<String>)
    ensures
        may_be_parent(path@, text_view(r)),
{
    std::path::Path::new(path).parent().map(|p| p.to_string_lossy().into_owned())
}

/// The texts that a name put behind a path may have. One with a drive in front
/// may stand for itself, and so may one from the root, alone or on the drive, the share or
/// the device of the path; where a backslash or a drive is a part of a name, it does not. Else a
/// separator comes between, unless there is one, or the path is a drive alone.
pub open spec fn is_joined(r: Seq<char>, base: Seq<char>, name: Seq<char>) -> bool {
    ||| colon_second(name) && r == name
    ||| name.len() > 0 && (name[0] == '/' || name[0] == '\\') && {
        ||| r == name
        ||| colon_second(base) && r == base.take(2) + name
        ||| share_end(base) > 0 && r == base.take(share_end(base)) + name
        ||| double_front(base) && base.len() >= 4 && base[2] == '.' && r == base.take(4) + name
    }
    ||| !(name.len() > 0 && name[0] == '/') && is_appended(r, base, name)
}

/// The texts that a name may have behind a path.
pub open spec fn is_appended(r: Seq<char>, base: Seq<char>, name: Seq<char>) -> bool {
    if base.len() == 0 || base.last() == '/' {
        r == base + name
    } else {
        ||| r == base + seq!['/'] + name
        ||| base.last() != '\\' && r == base + seq!['\\'] + name
        ||| (base.last() == '\\' || (colon_second(base) && base.len() == 2)) && r == base + name
    }
}

/// Whether a text is one name: not empty, no separators, no drive, and not the name of a
/// folder itself or of the one above.
pub open spec fn is_plain(name: Seq<char>) -> bool {
    &&& name.len() > 0 && !name.contains('/') && !name.contains('\\')
    &&& !colon_second(name)
    &&& name != seq!['.'] && name != seq!['.', '.']
}

/// Whether a system may give a name behind a path this text. Behind a path that stands for
/// itself a plain name is one more component; what becomes of other names there is left
/// open.
pub open spec fn may_be_joined(r: Seq<char>, base: Seq<char>, name: Seq<char>) -> bool {
    ||| is_joined(r, base, name)
    ||| verbatim(base) && (is_plain(name) ==> parts(turned(r)) == parts(turned(base)).push(
        name_part(name),
    ))
}

/// `std::path::Path::join` puts a path behind another, with the separator of
/// the system between them.
#[verifier::external_body]
pub(crate) fn path_join(base: &str, name: &str) -> (r: String)
    ensures
        may_be_joined(r@, base@, name@),
{
    std::path::Path::new(base).join(name).to_string_lossy().into_owned()
}

/// A name behind a path, as systems write it: on Windows with a backslash between
/// them, elsewhere with a slash. There is none where the path is empty or ends in a
/// separator, nor behind a drive alone; a name on a drive of its own stands for itself.
pub open spec fn named_in(windows: bool, base: Seq<char>, name: Seq<char>) -> Seq<char> {
    if windows && drive_of(name) is Some {
        name
    } else if base.len() == 0 || base.last() == '/' || (windows && (base.last() == '\\' || (
    drive_of(base) is Some && base.len() == 2))) {
        base + name
    } else if windows {
        base + seq!['\\'] + name
    } else {
        base + seq!['/'] + name
    }
}

fn has_drive(v: &Vec<char>) -> (r: bool)
    ensures
        r == drive_of(v@) is Some,
{
    v.len() >= 2 && v[1] == ':' && (('a' <= v[0] && v[0] <= 'z') || ('A' <= v[0] && v[0] <= 'Z'))
}

/// Puts a name behind a path.
pub fn name_in(windows: bool, base: &str, name: &str) -> (r: String)
    requires
        !name@.contains('/'),
        !name@.contains('\\'),
    ensures
        r@ == named_in(windows, base@, name@),
{
    if windows && has_drive(&to_chars(name)) {
        return name.to_string();
    }
    let v = to_chars(base);
    let n = v.len();
    let mut out = base.to_string();
    if !(n == 0 || v[n - 1] == '/' || (windows && (v[n - 1] == '\\' || (n == 2 && has_drive(
        &v,
    ))))) {
        out.push(
            if windows {
                '\\'
            } else {
                '/'
            },
        );
    }
    out.append(name);
    assert(out@ =~= named_in(windows, base@, name@));
    out
}

/// A file name without its extension.
pub open spec fn stem_of(name: Seq<char>) -> Seq<char> {
    match extension_of_name(name) {
        Some(_) => name.take(behind_dot(name) - 1),
        None => name,
    }
}

/// Whether the file name of a path is a dot with an extension, as in `a/..txt`.
pub open spec fn dot_stem(path: Seq<char>) -> bool {
    file_name_of(path) matches Some(name) && stem_of(name) == seq!['.']
}

/// Whether `r` is a path with an extension in the place of the one that its file name has,
/// or behind a file name without one; a path without a file name stays as it is.
pub open spec fn is_extended(path: Seq<char>, ext: Seq<char>, r: Seq<char>) -> bool {
    match file_name_of(path) {
        Some(name) => parts(r) == parts(path).drop_last().push(
            name_part(stem_of(name) + seq!['.'] + ext),
        ),
        None => r == path,
    }
}

/// Whether a system may make this text of a path with another extension. What becomes of
/// a file name that is a dot with an extension is left open.
pub open spec fn may_be_extended(path: Seq<char>, ext: Seq<char>, r: Seq<char>) -> bool {
    ||| dot_stem(path) || dot_stem(slashed(path)) || dot_stem(off_share(path)) || dot_stem(
        turned(path),
    )
    ||| {
        &&& portable(path) ==> is_extended(path, ext, r)
        &&& r == path || exists|k: int|
            0 <= k <= path.len() && r == #[trigger] path.take(k) + seq!['.'] + ext
        &&& {
            ||| is_extended(path, ext, r)
            ||| is_extended(slashed(path), ext, slashed(r))
            ||| double_front(path) && is_extended(off_share(path), ext, off_share(r))
            ||| verbatim(path) && (r == path || is_extended(turned(path), ext, turned(r)))
        }
    }
}

/// `std::path::Path::with_extension` puts an extension in the place of the one
/// that a file name has, or behind a file name without one; a path without a
/// file name stays as it is. Where systems read the path in different ways it goes by one
/// of their readings. What becomes of a file name that is a dot with an extension is left
/// open.
#[verifier::external_body]
pub(crate) fn path_with_extension(path: &str, ext: &str) -> (r: String)
    requires
        ext@.len() > 0,
        !ext@.contains('/'),
        !ext@.contains('\\'),
    ensures
        may_be_extended(path@, ext@, r@),
{
    std::path::Path::new(path).with_extension(ext).to_string_lossy().into_owned()
}

/// Of two rows one is not behind the other.
pub proof fn lemma_row_total(a: Seq<int>, b: Seq<int>)
    ensures
        row_le(a, b) || row_le(b, a),
    decreases a.len(),
{
    if a.len() > 0 && b.len() > 0 && a[0] == b[0] {
        lemma_row_total(a.drop_first(), b.drop_first());
    }
}

/// The order of rows is transitive.
pub proof fn lemma_row_transitive(a: Seq<int>, b: Seq<int>, c: Seq<int>)
    requires
        row_le(a, b),
        row_le(b, c),
    ensures
        row_le(a, c),
    decreases a.len(),
{
    if a.len() > 0 && a[0] == b[0] && b[0] == c[0] {
        lemma_row_transitive(a.drop_first(), b.drop_first(), c.drop_first());
    }
}

/// A name behind a path is separated from it by one separator of the system; an own drive of
/// the name counts only on Windows.
pub proof fn law_one_separator_stands_between(base: Seq<char>, name: Seq<char>)
    requires
        base.len() > 2,
    ensures
        base.last() != '/' ==> named_in(false, base, name) == base + seq!['/'] + name,
        base.last() == '/' ==> named_in(false, base, name) == base + name,
        drive_of(name) is None && base.last() != '/' && base.last() != '\\' ==> named_in(
            true,
            base,
            name,
        ) == base + seq!['\\'] + name,
        drive_of(name) is None && (base.last() == '/' || base.last() == '\\') ==> named_in(
            true,
            base,
            name,
        ) == base + name,
        name.len() > 1 && name[1] == ':' && ('a' <= name[0] <= 'z' || 'A' <= name[0] <= 'Z')
            ==> named_in(true, base, name) == name,
        !(name.len() > 1 && name[1] == ':') ==> drive_of(name) is None,
{
}

/// The order of rows is decided by the first difference; a row comes in front of those that
/// go on behind it.
pub proof fn law_first_difference_decides(front: Seq<int>, a: Seq<int>, b: Seq<int>)
    ensures
        a.len() > 0 && b.len() > 0 && a[0] < b[0] ==> row_le(front + a, front + b) && !row_le(
            front + b,
            front + a,
        ),
        row_le(front, front + b),
        b.len() > 0 ==> !row_le(front + b, front),
    decreases front.len(),
{
    if front.len() > 0 {
        law_first_difference_decides(front.drop_first(), a, b);
        assert((front + a).drop_first() =~= front.drop_first() + a);
        assert((front + b).drop_first() =~= front.drop_first() + b);
    } else {
        assert(front + a =~= a);
        assert(front + b =~= b);
    }
}

} // verus!
