//! Lyrics: the LRC format, the line that is sung now, and the LRCLIB service.
//!
//! A time is kept as the sign-magnitude reading of the bit pattern of its
//! seconds in double precision ([`time_key`]), so that times compare as their
//! seconds do.
use vstd::prelude::*;

use crate::json::{json_members, lookup, member, parse, value_view, JsonValue, JsonView};
use crate::sorting::{lemma_sort_empty, lemma_sort_insert, stable_sort_of, total_preorder};
use crate::text::{
    decimal, decimal_text, find_from, first_at, lemma_first_at, lines, lines_of, string_of,
    texts, to_chars, trim, trimmed,
};

verus! {

/// A line of synced lyrics: when it is sung and what is sung.
pub struct LrcLine {
    pub time: i64,
    pub text: String,
}

/// Lyrics, with or without times.
pub enum Lyrics {
    Synced(Vec<LrcLine>),
    Plain(Vec<String>),
}

/// The view of a line that may be missing.
pub open spec fn line_view(l: Option<LrcLine>) -> Option<(i64, Seq<char>)> {
    match l {
        Some(l) => Some(l@),
        None => None,
    }
}

/// Lyrics with their texts as characters.
pub ghost enum LyricsView {
    Synced(Seq<(i64, Seq<char>)>),
    Plain(Seq<Seq<char>>),
}

impl View for LrcLine {
    type V = (i64, Seq<char>);

    open spec fn view(&self) -> (i64, Seq<char>) {
        (self.time, self.text@)
    }
}

/// The lines of synced lyrics as characters.
pub open spec fn timed_lines(v: Seq<LrcLine>) -> Seq<(i64, Seq<char>)> {
    v.map_values(|l: LrcLine| l@)
}

impl View for Lyrics {
    type V = LyricsView;

    open spec fn view(&self) -> LyricsView {
        match self {
            Lyrics::Synced(lines) => LyricsView::Synced(timed_lines(lines@)),
            Lyrics::Plain(lines) => LyricsView::Plain(texts(lines@)),
        }
    }
}

impl LyricsView {
    /// How many lines there are.
    pub open spec fn count(self) -> nat {
        match self {
            LyricsView::Synced(lines) => lines.len(),
            LyricsView::Plain(lines) => lines.len(),
        }
    }

    /// The text of a line; nothing behind the last.
    pub open spec fn line(self, index: int) -> Seq<char> {
        match self {
            LyricsView::Synced(lines) => if 0 <= index < lines.len() {
                lines[index].1
            } else {
                Seq::empty()
            },
            LyricsView::Plain(lines) => if 0 <= index < lines.len() {
                lines[index]
            } else {
                Seq::empty()
            },
        }
    }

    /// The line that is sung at `position`: the one before the first line that
    /// is still to come.
    pub open spec fn line_at(self, position: i64) -> Option<int> {
        match self {
            LyricsView::Synced(lines) => {
                let n = sung_by(lines, position);
                if n == 0 {
                    None
                } else {
                    Some(n - 1)
                }
            },
            LyricsView::Plain(_) => None,
        }
    }
}

/// How many lines stand in front of the first whose time is behind `position`.
pub open spec fn sung_by(lines: Seq<(i64, Seq<char>)>, position: i64) -> int
    decreases lines.len(),
{
    if lines.len() == 0 || lines[0].0 > position {
        0
    } else {
        1 + sung_by(lines.drop_first(), position)
    }
}

/// The lines in front of `sung_by` are due, and the one behind them is not.
proof fn lemma_sung_by(lines: Seq<(i64, Seq<char>)>, position: i64)
    ensures
        0 <= sung_by(lines, position) <= lines.len(),
        forall|i: int| 0 <= i < sung_by(lines, position) ==> (#[trigger] lines[i]).0 <= position,
        sung_by(lines, position) < lines.len() ==> lines[sung_by(lines, position)].0 > position,
    decreases lines.len(),
{
    if lines.len() > 0 && lines[0].0 <= position {
        let rest = lines.drop_first();
        lemma_sung_by(rest, position);
        assert forall|i: int| 0 <= i < sung_by(lines, position) implies (
        #[trigger] lines[i]).0 <= position by {
            if i > 0 {
                assert(lines[i] == rest[i - 1]);
            }
        }
    }
}

impl Lyrics {
    pub fn line_count(&self) -> (r: usize)
        ensures
            r == self@.count(),
    {
        match self {
            Lyrics::Synced(lines) => lines.len(),
            Lyrics::Plain(lines) => lines.len(),
        }
    }

    /// The text of a line; empty behind the last.
    pub fn line_text(&self, index: usize) -> (r: &str)
        ensures
            r@ == self@.line(index as int),
    {
        proof {
            reveal_strlit("");
        }
        match self {
            Lyrics::Synced(lines) => if index < lines.len() {
                lines[index].text.as_str()
            } else {
                ""
            },
            Lyrics::Plain(lines) => if index < lines.len() {
                lines[index].as_str()
            } else {
                ""
            },
        }
    }

    /// The line that is sung at a position, where the lyrics are synced and the
    /// first line is due.
    pub fn current_line(&self, position: i64) -> (r: Option<usize>)
        ensures
            r is Some <==> self@.line_at(position) is Some,
            r matches Some(i) ==> self@.line_at(position) == Some(i as int),
    {
        match self {
            Lyrics::Synced(lines) => {
                let ghost all = timed_lines(lines@);
                let mut n: usize = 0;
                while n < lines.len() && lines[n].time <= position
                    invariant
                        all == timed_lines(lines@),
                        n <= lines.len(),
                        forall|i: int| 0 <= i < n ==> (#[trigger] all[i]).0 <= position,
                    decreases lines.len() - n,
                {
                    assert(all[n as int].0 == lines@[n as int].time);
                    n = n + 1;
                }
                proof {
                    lemma_sung_by(all, position);
                    let k = sung_by(all, position);
                    if k < n {
                        assert(all[k].0 <= position);
                    }
                    if n < k {
                        assert(all[n as int].0 == lines@[n as int].time);
                    }
                }
                if n == 0 {
                    None
                } else {
                    Some(n - 1)
                }
            },
            Lyrics::Plain(_) => None,
        }
    }

    pub fn is_synced(&self) -> (r: bool)
        ensures
            r == (self@ is Synced),
    {
        match self {
            Lyrics::Synced(_) => true,
            Lyrics::Plain(_) => false,
        }
    }
}

/// Where the lyrics of a track come from: a text that is there, or the service, by artist
/// and title.
pub enum LyricsStep {
    Parse(String),
    Fetch(String, String),
    Nothing,
}

/// Whether this is where the lyrics come from: what is kept of the tags comes first, then
/// what the tags of the file hold, then the service, where artist and title are known.
pub open spec fn is_lyrics_step(
    kept: Option<String>,
    embedded: Option<String>,
    artist: Option<String>,
    title: Option<String>,
    step: LyricsStep,
) -> bool {
    match (kept, embedded, artist, title) {
        (Some(text), _, _, _) => step == LyricsStep::Parse(text),
        (None, Some(text), _, _) => step == LyricsStep::Parse(text),
        (None, None, Some(a), Some(t)) => step == LyricsStep::Fetch(a, t),
        _ => step == LyricsStep::Nothing,
    }
}

/// Where the lyrics of a track come from.
pub fn lyrics_step(
    kept: Option<String>,
    embedded: Option<String>,
    artist: Option<String>,
    title: Option<String>,
) -> (r: LyricsStep)
    ensures
        is_lyrics_step(kept, embedded, artist, title, r),
{
    match kept {
        Some(text) => LyricsStep::Parse(text),
        None => match embedded {
            Some(text) => LyricsStep::Parse(text),
            None => match (artist, title) {
                (Some(a), Some(t)) => LyricsStep::Fetch(a, t),
                _ => LyricsStep::Nothing,
            },
        },
    }
}

/// The sign-magnitude reading of a bit pattern: bit 63 is the sign, the other
/// bits are the magnitude. Bit patterns of numbers in double precision compare
/// by it as the numbers do, and both zeros read as zero. What is no number, behind
/// infinity, reads as the largest key: it is after all numbers.
pub open spec fn key_of_bits(bits: u64) -> int {
    let size = bits as int % 0x8000_0000_0000_0000;
    if size > 0x7ff0_0000_0000_0000 {
        i64::MAX as int
    } else if bits >= 0x8000_0000_0000_0000 {
        -size
    } else {
        size
    }
}

/// The time of lyrics that a number of seconds in double precision stands for,
/// given by its bit pattern.
pub fn time_key(bits: u64) -> (r: i64)
    ensures
        r == key_of_bits(bits),
{
    let size = bits % 0x8000_0000_0000_0000;
    if size > 0x7ff0_0000_0000_0000 {
        i64::MAX
    } else if bits >= 0x8000_0000_0000_0000 {
        -(size as i64)
    } else {
        size as i64
    }
}

/// A line whose time is no number is not sung at any time that is one.
pub proof fn law_no_number_is_never_due(bits: u64, position: u64)
    requires
        bits as int % 0x8000_0000_0000_0000 > 0x7ff0_0000_0000_0000,
        position as int % 0x8000_0000_0000_0000 <= 0x7ff0_0000_0000_0000,
    ensures
        key_of_bits(bits) > key_of_bits(position),
{
}

/// The parts of a line such as `[01:23.45]text`: what stands for minutes and for
/// seconds between the brackets, and the text behind them. White space around
/// the line does not count; between the brackets stands exactly one colon.
pub open spec fn lrc_parts(line: Seq<char>) -> Option<(Seq<char>, Seq<char>, Seq<char>)> {
    let l = trimmed(line);
    let close = first_at(l, ']');
    if l.len() == 0 || l[0] != '[' || close == l.len() {
        None
    } else {
        let inside = l.subrange(1, close);
        let colon = first_at(inside, ':');
        if colon == inside.len() || inside.skip(colon + 1).contains(':') {
            None
        } else {
            Some((inside.take(colon), inside.skip(colon + 1), l.skip(close + 1)))
        }
    }
}

/// The parts of a timestamped line, as strings.
pub struct LrcParts {
    pub minutes: String,
    pub seconds: String,
    pub text: String,
}

/// Takes a timestamped line apart.
pub fn split_lrc_line(line: &str) -> (r: Option<LrcParts>)
    ensures
        r is Some <==> lrc_parts(line@) is Some,
        r matches Some(p) ==> lrc_parts(line@) == Some((p.minutes@, p.seconds@, p.text@)),
{
    let l = trim(line);
    let v = to_chars(l.as_str());
    if v.len() == 0 || v[0] != '[' {
        return None;
    }
    let close = find_from(&v, 0, ']');
    assert(v@.skip(0) == v@);
    if close == v.len() {
        return None;
    }
    let ghost inside = v@.subrange(1, close as int);
    let colon = find_from(&v, 1, ':');
    proof {
        lemma_first_at(inside, ':');
        if first_at(inside, ':') < inside.len() {
            let k = first_at(inside, ':');
            assert(v@[k + 1] == ':');
            assert forall|j: int| 1 <= j < k + 1 implies v@[j] != ':' by {
                assert(inside[j - 1] == v@[j]);
            }
        } else {
            assert forall|j: int| 1 <= j < close implies v@[j] != ':' by {
                assert(inside[j - 1] == v@[j]);
            }
        }
    }
    if colon >= close {
        return None;
    }
    assert(colon == first_at(inside, ':') + 1);
    let second = find_from(&v, colon + 1, ':');
    let ghost seconds = inside.skip(colon as int);
    if second < close {
        assert(seconds[second - colon - 1] == ':');
        return None;
    }
    assert forall|j: int| 0 <= j < seconds.len() implies seconds[j] != ':' by {
        assert(seconds[j] == v@[colon + 1 + j]);
    }
    let p = LrcParts {
        minutes: string_of(&v, 1, colon),
        seconds: string_of(&v, colon + 1, close),
        text: string_of(&v, close + 1, v.len()),
    };
    assert(p.minutes@ =~= inside.take(colon - 1));
    assert(p.seconds@ =~= seconds);
    assert(p.text@ =~= v@.skip(close + 1));
    Some(p)
}

/// Whether `reader` may answer `r` for these minutes and seconds.
pub open spec fn answers<F: Fn(&str, &str) -> Option<i64>>(
    reader: F,
    minutes: Seq<char>,
    seconds: Seq<char>,
    r: Option<i64>,
) -> bool {
    exists|m: &str, s: &str|
        m@ == minutes && s@ == seconds && #[trigger] call_ensures(reader, (m, s), r)
}

/// The time and the text of one line, as `reader` reads the numbers in it.
pub open spec fn reads_line<F: Fn(&str, &str) -> Option<i64>>(
    reader: F,
    line: Seq<char>,
    r: Option<(i64, Seq<char>)>,
) -> bool {
    match lrc_parts(line) {
        None => r is None,
        Some((m, s, text)) => match r {
            Some((t, x)) => x == text && answers(reader, m, s, Some(t)),
            None => answers(reader, m, s, None),
        },
    }
}

/// Reads a timestamped line; `reader` turns the texts of the minutes and the
/// seconds into a time, or refuses them.
pub fn parse_lrc_timestamp<F: Fn(&str, &str) -> Option<i64>>(line: &str, reader: &F) -> (r: Option<
    LrcLine,
>)
    requires
        forall|m: &str, s: &str| #[trigger] call_requires(*reader, (m, s)),
    ensures
        reads_line(*reader, line@, line_view(r)),
{
    match split_lrc_line(line) {
        None => None,
        Some(p) => {
            let m = p.minutes.as_str();
            let s = p.seconds.as_str();
            let t = reader(m, s);
            assert(call_ensures(*reader, (m, s), t));
            assert(answers(*reader, p.minutes@, p.seconds@, t));
            match t {
                Some(time) => Some(LrcLine { time, text: p.text }),
                None => None,
            }
        },
    }
}

/// The lines that have a time.
pub open spec fn present(r: Seq<Option<(i64, Seq<char>)>>) -> Seq<(i64, Seq<char>)>
    decreases r.len(),
{
    if r.len() == 0 {
        Seq::empty()
    } else {
        match r.last() {
            Some(l) => present(r.drop_last()).push(l),
            None => present(r.drop_last()),
        }
    }
}

/// The order of lyrics: by time.
pub open spec fn by_time() -> spec_fn((i64, Seq<char>), (i64, Seq<char>)) -> bool {
    |a: (i64, Seq<char>), b: (i64, Seq<char>)| a.0 <= b.0
}

/// The lyrics that a text with these lines holds, where `r` gives the time and
/// the text of each line that has one: synced and in order of time where a line
/// has one, else plain.
pub open spec fn lyrics_of(
    all: Seq<Seq<char>>,
    r: Seq<Option<(i64, Seq<char>)>>,
    out: LyricsView,
) -> bool {
    if present(r).len() > 0 {
        out matches LyricsView::Synced(sorted) && stable_sort_of(present(r), sorted, by_time())
    } else {
        out == LyricsView::Plain(all)
    }
}

/// Puts a line behind those that are not later.
fn insert_line(sorted: &mut Vec<LrcLine>, line: LrcLine, Ghost(input): Ghost<
    Seq<(i64, Seq<char>)>,
>)
    requires
        stable_sort_of(input, timed_lines(old(sorted)@), by_time()),
    ensures
        stable_sort_of(input.push(line@), timed_lines(final(sorted)@), by_time()),
{
    let ghost before = timed_lines(sorted@);
    let ghost x = line@;
    let mut lo: usize = 0;
    let mut hi: usize = sorted.len();
    while lo < hi
        invariant
            before == timed_lines(sorted@),
            stable_sort_of(input, before, by_time()),
            lo <= hi <= sorted.len(),
            forall|i: int| 0 <= i < lo ==> (#[trigger] before[i]).0 <= line.time,
            forall|i: int| hi <= i < before.len() ==> (#[trigger] before[i]).0 > line.time,
        decreases hi - lo,
    {
        let mid = lo + (hi - lo) / 2;
        assert(before[mid as int].0 == sorted@[mid as int].time);
        if sorted[mid].time <= line.time {
            assert forall|i: int| 0 <= i < mid + 1 implies (
            #[trigger] before[i]).0 <= line.time by {
                if i < mid {
                    assert(by_time()(before[i], before[mid as int]));
                }
            }
            lo = mid + 1;
        } else {
            assert forall|i: int| mid <= i < before.len() implies (
            #[trigger] before[i]).0 > line.time by {
                if mid < i {
                    assert(by_time()(before[mid as int], before[i]));
                }
            }
            hi = mid;
        }
    }
    sorted.insert(lo, line);
    assert(timed_lines(sorted@) =~= before.insert(lo as int, x));
    proof {
        assert forall|i: int| 0 <= i < lo implies by_time()(#[trigger] before[i], x) by {
            assert(before[i].0 <= x.0);
        }
        assert forall|i: int| lo <= i < before.len() implies !by_time()(
            #[trigger] before[i],
            x,
        ) by {
            assert(before[i].0 > x.0);
        }
        assert(total_preorder(by_time()));
        lemma_sort_insert(input, before, by_time(), x, lo as int);
    }
}

/// Reads lyrics, synced or plain. They are synced where one line at least
/// begins with a timestamp; then lines without one are left out, and the others
/// come in order of time. `reader` turns the texts of the minutes and the
/// seconds of a timestamp into a time, or refuses them.
pub fn parse_lyrics<F: Fn(&str, &str) -> Option<i64>>(raw: &str, reader: F) -> (out: Lyrics)
    requires
        forall|m: &str, s: &str| #[trigger] call_requires(reader, (m, s)),
    ensures
        exists|r: Seq<Option<(i64, Seq<char>)>>|
            {
                &&& r.len() == lines_of(raw@).len()
                &&& forall|i: int|
                    0 <= i < r.len() ==> reads_line(reader, lines_of(raw@)[i], #[trigger] r[i])
                &&& #[trigger] lyrics_of(lines_of(raw@), r, out@)
            },
{
    let all = lines(raw);
    let mut sorted: Vec<LrcLine> = Vec::new();
    let ghost mut r: Seq<Option<(i64, Seq<char>)>> = Seq::empty();
    let mut i: usize = 0;
    proof {
        lemma_sort_empty(by_time());
        assert(timed_lines(sorted@) =~= Seq::<(i64, Seq<char>)>::empty());
    }
    while i < all.len()
        invariant
            texts(all@) == lines_of(raw@),
            i <= all.len(),
            r.len() == i,
            forall|m: &str, s: &str| #[trigger] call_requires(reader, (m, s)),
            forall|k: int|
                0 <= k < i ==> reads_line(reader, lines_of(raw@)[k], #[trigger] r[k]),
            stable_sort_of(present(r), timed_lines(sorted@), by_time()),
            sorted.len() == present(r).len(),
        decreases all.len() - i,
    {
        let read = parse_lrc_timestamp(all[i].as_str(), &reader);
        let ghost before = r;
        let ghost x = line_view(read);
        proof {
            r = before.push(x);
            assert(r.drop_last() =~= before);
            assert(lines_of(raw@)[i as int] == all@[i as int]@);
        }
        match read {
            Some(l) => {
                let ghost input = present(before);
                insert_line(&mut sorted, l, Ghost(input));
                assert(present(r) == input.push(l@));
                proof {
                    broadcast use vstd::seq_lib::group_to_multiset_ensures;

                    assert(timed_lines(sorted@).to_multiset().len() == present(
                        r,
                    ).to_multiset().len());
                }
            },
            None => {},
        }
        i = i + 1;
    }
    let out = if sorted.len() > 0 {
        Lyrics::Synced(sorted)
    } else {
        Lyrics::Plain(all)
    };
    assert(lyrics_of(lines_of(raw@), r, out@));
    out
}

/// The bytes that a query keeps as they are.
pub open spec fn unreserved(b: u8) -> bool {
    ||| 65 <= b <= 90
    ||| 97 <= b <= 122
    ||| 48 <= b <= 57
    ||| b == 45
    ||| b == 95
    ||| b == 46
    ||| b == 126
}

/// A hexadecimal digit, capital.
pub open spec fn hex_digit(d: int) -> char {
    if d < 10 {
        ((48 + d) as u8) as char
    } else {
        ((55 + d) as u8) as char
    }
}

/// One byte in a query: as it is, or as `%` and two hexadecimal digits.
pub open spec fn encoded_byte(b: u8) -> Seq<char> {
    if unreserved(b) {
        seq![b as char]
    } else {
        seq!['%', hex_digit(b as int / 16), hex_digit(b as int % 16)]
    }
}

/// Bytes in a query.
pub open spec fn percent_encoded(bytes: Seq<u8>) -> Seq<char>
    decreases bytes.len(),
{
    if bytes.len() == 0 {
        Seq::empty()
    } else {
        percent_encoded(bytes.drop_last()) + encoded_byte(bytes.last())
    }
}

/// Appends one hexadecimal digit.
fn push_hex(out: &mut String, d: u8)
    requires
        d < 16,
    ensures
        final(out)@ == old(out)@.push(hex_digit(d as int)),
{
    if d < 10 {
        out.push((48 + d) as char);
    } else {
        out.push((55 + d) as char);
    }
}

/// Percent-encodes the UTF-8 bytes of a text for a query parameter.
pub fn urlencod(s: &str) -> (r: String)
    ensures
        r@ == percent_encoded(vstd::utf8::encode_utf8(s@)),
{
    let bytes = s.as_bytes();
    let mut out = String::new();
    let mut i: usize = 0;
    while i < bytes.len()
        invariant
            i <= bytes.len(),
            out@ == percent_encoded(bytes@.take(i as int)),
        decreases bytes.len() - i,
    {
        let b = bytes[i];
        let ghost before = out@;
        assert(bytes@.take(i + 1).drop_last() =~= bytes@.take(i as int));
        assert(bytes@.take(i + 1).last() == b);
        if (b >= 65 && b <= 90) || (b >= 97 && b <= 122) || (b >= 48 && b <= 57) || b == 45 || b
            == 95 || b == 46 || b == 126 {
            out.push(b as char);
            assert(out@ =~= before + encoded_byte(b));
        } else {
            out.push('%');
            push_hex(&mut out, b / 16);
            push_hex(&mut out, b % 16);
            assert(out@ =~= before + encoded_byte(b));
        }
        i = i + 1;
    }
    assert(bytes@.take(bytes.len() as int) =~= bytes@);
    out
}

/// The address that asks LRCLIB for the lyrics of a track.
pub open spec fn lrclib_address(artist: Seq<char>, title: Seq<char>, duration: Option<u32>) -> Seq<
    char,
> {
    let base = "https://lrclib.net/api/get?artist_name="@ + percent_encoded(
        vstd::utf8::encode_utf8(artist),
    ) + "&track_name="@ + percent_encoded(vstd::utf8::encode_utf8(title));
    match duration {
        Some(d) => base + "&duration="@ + decimal(d as nat),
        None => base,
    }
}

/// The address that asks LRCLIB for the lyrics of a track; the duration, in whole
/// seconds, narrows the search.
pub fn lrclib_url(artist: &str, title: &str, duration_secs: Option<u32>) -> (r: String)
    ensures
        r@ == lrclib_address(artist@, title@, duration_secs),
{
    let mut url = String::new();
    url.append("https://lrclib.net/api/get?artist_name=");
    url.append(urlencod(artist).as_str());
    url.append("&track_name=");
    url.append(urlencod(title).as_str());
    assert(url@ =~= lrclib_address(artist@, title@, None));
    if let Some(d) = duration_secs {
        url.append("&duration=");
        url.append(decimal_text(d as u64).as_str());
    }
    url
}

/// A text that is not empty, where the value is one.
pub open spec fn filled_text(v: Option<JsonView>) -> Option<Seq<char>> {
    match v {
        Some(JsonView::Text(s)) => if s.len() > 0 {
            Some(s)
        } else {
            None
        },
        _ => None,
    }
}

/// The lyrics in a reply of LRCLIB: synced ones before plain ones.
pub open spec fn preferred(synced: Option<JsonView>, plain: Option<JsonView>) -> Option<Seq<char>> {
    match filled_text(synced) {
        Some(s) => Some(s),
        None => filled_text(plain),
    }
}

/// The text of a value, where it is one that is not empty.
fn take_text(v: Option<JsonValue>) -> (r: Option<String>)
    ensures
        r is Some <==> filled_text(value_view(v)) is Some,
        r matches Some(s) ==> filled_text(value_view(v)) == Some(s@),
{
    match v {
        Some(JsonValue::Text(s)) => if s.as_str().is_empty() {
            None
        } else {
            Some(s)
        },
        _ => None,
    }
}

/// Chooses among the members `syncedLyrics` and `plainLyrics` of a reply.
pub fn choose_lyrics(synced: Option<JsonValue>, plain: Option<JsonValue>) -> (r: Option<String>)
    ensures
        r is Some <==> preferred(value_view(synced), value_view(plain)) is Some,
        r matches Some(s) ==> preferred(value_view(synced), value_view(plain)) == Some(s@),
{
    match take_text(synced) {
        Some(s) => Some(s),
        None => take_text(plain),
    }
}

/// The lyrics in a reply of LRCLIB with this status and body.
pub open spec fn reply_lyrics(status: u16, body: Seq<char>) -> Option<Seq<char>> {
    if status != 200 {
        None
    } else {
        match json_members(body) {
            Some(m) => preferred(lookup(m, "syncedLyrics"@), lookup(m, "plainLyrics"@)),
            None => None,
        }
    }
}

/// Reads the lyrics out of a reply of LRCLIB.
pub fn read_reply(status: u16, body: &str) -> (r: Option<String>)
    ensures
        r is Some <==> reply_lyrics(status, body@) is Some,
        r matches Some(s) ==> reply_lyrics(status, body@) == Some(s@),
{
    if status != 200 {
        return None;
    }
    match parse(body) {
        Ok(v) => choose_lyrics(member(&v, "syncedLyrics"), member(&v, "plainLyrics")),
        Err(_) => None,
    }
}

/// A later position never shows an earlier line.
pub proof fn law_lyrics_advance(lines: Seq<(i64, Seq<char>)>, earlier: i64, later: i64)
    requires
        earlier <= later,
    ensures
        sung_by(lines, earlier) <= sung_by(lines, later),
{
    lemma_sung_by(lines, earlier);
    lemma_sung_by(lines, later);
    let k = sung_by(lines, later);
    if k < sung_by(lines, earlier) {
        assert(lines[k].0 <= earlier);
    }
}

/// In the lyrics that a text gives, the line shown at a position is the last
/// whose time is not behind the position, and none is shown before the first.
pub proof fn law_line_shown_is_last_due(
    input: Seq<(i64, Seq<char>)>,
    sorted: Seq<(i64, Seq<char>)>,
    position: i64,
)
    requires
        stable_sort_of(input, sorted, by_time()),
    ensures
        match LyricsView::Synced(sorted).line_at(position) {
            Some(k) => {
                &&& 0 <= k < sorted.len()
                &&& sorted[k].0 <= position
                &&& forall|i: int| k < i < sorted.len() ==> (#[trigger] sorted[i]).0 > position
            },
            None => forall|i: int| 0 <= i < sorted.len() ==> (#[trigger] sorted[i]).0 > position,
        },
{
    lemma_sung_by(sorted, position);
    let n = sung_by(sorted, position);
    assert forall|i: int| n <= i < sorted.len() implies (#[trigger] sorted[i]).0 > position by {
        if n < i {
            assert(by_time()(sorted[n], sorted[i]));
        }
    }
}

/// The value of a hexadecimal digit.
pub open spec fn hex_value(c: char) -> int {
    if '0' <= c <= '9' {
        c as int - 48
    } else {
        c as int - 55
    }
}

/// The bytes that a percent-encoded query stands for.
pub open spec fn percent_decoded(s: Seq<char>) -> Seq<u8>
    decreases s.len(),
{
    if s.len() == 0 {
        Seq::empty()
    } else if s[0] == '%' && s.len() >= 3 {
        seq![(16 * hex_value(s[1]) + hex_value(s[2])) as u8] + percent_decoded(s.skip(3))
    } else {
        seq![s[0] as u8] + percent_decoded(s.skip(1))
    }
}

/// What stands behind an encoded byte is decoded by itself.
proof fn lemma_decode_byte(b: u8, rest: Seq<char>)
    ensures
        percent_decoded(encoded_byte(b) + rest) == seq![b] + percent_decoded(rest),
{
    let s = encoded_byte(b) + rest;
    if unreserved(b) {
        assert(s.skip(1) =~= rest);
        assert(s[0] as u8 == b);
        assert(s[0] != '%');
    } else {
        assert(s.skip(3) =~= rest);
        let hi = b as int / 16;
        let lo = b as int % 16;
        assert(hex_value(hex_digit(hi)) == hi);
        assert(hex_value(hex_digit(lo)) == lo);
        assert(s[1] == hex_digit(hi) && s[2] == hex_digit(lo));
        assert((16 * hi + lo) as u8 == b);
    }
}

/// Decoding undoes encoding.
proof fn lemma_decode_encoded(bytes: Seq<u8>, rest: Seq<char>)
    ensures
        percent_decoded(percent_encoded(bytes) + rest) == bytes + percent_decoded(rest),
    decreases bytes.len(),
{
    if bytes.len() == 0 {
        assert(percent_encoded(bytes) + rest =~= rest);
        assert(bytes + percent_decoded(rest) =~= percent_decoded(rest));
    } else {
        let front = bytes.drop_last();
        let b = bytes.last();
        lemma_decode_encoded(front, encoded_byte(b) + rest);
        lemma_decode_byte(b, rest);
        assert(percent_encoded(bytes) + rest =~= percent_encoded(front) + (encoded_byte(b) + rest));
        assert(front + (seq![b] + percent_decoded(rest)) =~= bytes + percent_decoded(rest));
    }
}

/// A query parameter reaches the service as it was: decoding what `urlencod`
/// writes gives the bytes back.
pub proof fn law_query_round_trip(bytes: Seq<u8>)
    ensures
        percent_decoded(percent_encoded(bytes)) == bytes,
{
    lemma_decode_encoded(bytes, Seq::empty());
    assert(percent_encoded(bytes) + Seq::<char>::empty() =~= percent_encoded(bytes));
    assert(bytes + percent_decoded(Seq::<char>::empty()) =~= bytes);
}

/// An encoded parameter cannot break out of its place in a query: it holds only
/// unreserved characters and percent signs.
pub proof fn law_query_is_safe(bytes: Seq<u8>)
    ensures
        forall|i: int|
            0 <= i < percent_encoded(bytes).len() ==> {
                let c = #[trigger] percent_encoded(bytes)[i];
                c == '%' || (c as u32) < 128 && unreserved(c as u8)
            },
    decreases bytes.len(),
{
    if bytes.len() > 0 {
        let front = percent_encoded(bytes.drop_last());
        let b = bytes.last();
        law_query_is_safe(bytes.drop_last());
        assert forall|i: int| 0 <= i < percent_encoded(bytes).len() implies ({
            let c = #[trigger] percent_encoded(bytes)[i];
            c == '%' || (c as u32) < 128 && unreserved(c as u8)
        }) by {
            if i < front.len() {
                assert(percent_encoded(bytes)[i] == front[i]);
            } else {
                assert(percent_encoded(bytes)[i] == encoded_byte(b)[i - front.len()]);
            }
        }
    }
}

/// A line is read as it is written: minutes and seconds between brackets with a colon between
/// them, and the text behind.
pub proof fn law_timestamps_are_read(minutes: Seq<char>, seconds: Seq<char>, text: Seq<char>)
    requires
        !minutes.contains(':') && !minutes.contains(']'),
        !seconds.contains(':') && !seconds.contains(']'),
        text.len() > 0 ==> !crate::text::is_space(text.last()),
    ensures
        lrc_parts(seq!['['] + minutes + seq![':'] + seconds + seq![']'] + text) == Some(
            (minutes, seconds, text),
        ),
{
    let line = seq!['['] + minutes + seq![':'] + seconds + seq![']'] + text;
    let inside = minutes + seq![':'] + seconds;
    let close = 2 + minutes.len() + seconds.len();
    assert(line[0] == '[');
    assert(line[close as int] == ']');
    assert(line.last() == (if text.len() > 0 {
        text.last()
    } else {
        ']'
    }));
    assert(trimmed(line) == line);
    lemma_first_at(line, ']');
    assert forall|j: int| 0 <= j < close implies line[j] != ']' by {
        if 1 <= j < 1 + minutes.len() {
            assert(line[j] == minutes[j - 1]);
            assert(minutes.contains(minutes[j - 1]));
        } else if j > 1 + minutes.len() {
            assert(line[j] == seconds[j - 2 - minutes.len()]);
            assert(seconds.contains(seconds[j - 2 - minutes.len()]));
        }
    }
    assert(first_at(line, ']') == close);
    assert(line.subrange(1, close as int) =~= inside);
    lemma_first_at(inside, ':');
    assert(inside[minutes.len() as int] == ':');
    assert forall|j: int| 0 <= j < minutes.len() implies inside[j] != ':' by {
        assert(inside[j] == minutes[j]);
        assert(minutes.contains(minutes[j]));
    }
    assert(first_at(inside, ':') == minutes.len());
    assert(inside.skip(minutes.len() as int + 1) =~= seconds);
    assert(inside.take(minutes.len() as int) =~= minutes);
    assert(line.skip(close as int + 1) =~= text);
}

/// A line that does not begin with a bracket has no time.
pub proof fn law_plain_lines_have_no_time(line: Seq<char>)
    requires
        trimmed(line).len() == 0 || trimmed(line)[0] != '[',
    ensures
        lrc_parts(line) is None,
{
}

/// Lyrics are in time where a line has a time, and then they are the lines with a time, from
/// the first to the last; else they are all the lines.
pub proof fn law_lyrics_hold_the_lines(
    all: Seq<Seq<char>>,
    r: Seq<Option<(i64, Seq<char>)>>,
    out: LyricsView,
)
    requires
        lyrics_of(all, r, out),
    ensures
        out is Synced <==> exists|i: int| 0 <= i < r.len() && (#[trigger] r[i]) is Some,
        out matches LyricsView::Synced(lines) ==> {
            &&& forall|i: int, j: int|
                0 <= i < j < lines.len() ==> (#[trigger] lines[i]).0 <= (#[trigger] lines[j]).0
            &&& forall|i: int| 0 <= i < r.len() && r[i] is Some ==> lines.contains(
                (#[trigger] r[i])->0,
            )
            &&& forall|k: int| 0 <= k < lines.len() ==> r.contains(Some(#[trigger] lines[k]))
        },
        out is Plain ==> out == LyricsView::Plain(all),
{
    broadcast use vstd::seq_lib::group_to_multiset_ensures;

    lemma_present(r);
    let timed = present(r);
    if exists|i: int| 0 <= i < r.len() && (#[trigger] r[i]) is Some {
        let i = choose|i: int| 0 <= i < r.len() && (#[trigger] r[i]) is Some;
        assert(timed.contains(r[i]->0));
    }
    if let LyricsView::Synced(lines) = out {
        assert forall|i: int, j: int| 0 <= i < j < lines.len() implies (#[trigger] lines[i]).0 <= (
        #[trigger] lines[j]).0 by {
            assert(by_time()(lines[i], lines[j]));
        }
        assert forall|i: int| 0 <= i < r.len() && r[i] is Some implies lines.contains(
            (#[trigger] r[i])->0,
        ) by {
            assert(timed.contains(r[i]->0));
            assert(timed.to_multiset().count(r[i]->0) > 0);
            assert(lines.to_multiset().count(r[i]->0) > 0);
        }
        assert forall|k: int| 0 <= k < lines.len() implies r.contains(
            Some(#[trigger] lines[k]),
        ) by {
            assert(lines.contains(lines[k]));
            assert(lines.to_multiset().count(lines[k]) > 0);
            assert(timed.contains(lines[k]));
        }
        if timed.len() > 0 {
            assert(timed.contains(timed[0]));
            assert(r.contains(Some(timed[0])));
        }
    }
}

proof fn lemma_present(r: Seq<Option<(i64, Seq<char>)>>)
    ensures
        forall|i: int| 0 <= i < r.len() && r[i] is Some ==> present(r).contains(
            (#[trigger] r[i])->0,
        ),
        forall|x: (i64, Seq<char>)| present(r).contains(x) ==> r.contains(Some(x)),
    decreases r.len(),
{
    if r.len() > 0 {
        let front = r.drop_last();
        lemma_present(front);
        let all = present(r);
        let some = present(front);
        assert forall|i: int| 0 <= i < r.len() && r[i] is Some implies all.contains(
            (#[trigger] r[i])->0,
        ) by {
            if i < front.len() {
                assert(front[i] == r[i]);
                let k = choose|k: int| 0 <= k < some.len() && some[k] == r[i]->0;
                assert(all[k] == r[i]->0);
            } else {
                assert(all[some.len() as int] == r[i]->0);
            }
        }
        assert forall|x: (i64, Seq<char>)| all.contains(x) implies r.contains(Some(x)) by {
            let k = choose|k: int| 0 <= k < all.len() && all[k] == x;
            if k < some.len() {
                assert(some[k] == x);
                assert(some.contains(x));
                assert(front.contains(Some(x)));
                let j = choose|j: int| 0 <= j < front.len() && front[j] == Some(x);
                assert(r[j] == Some(x));
            } else {
                assert(r[r.len() - 1] == Some(x));
            }
        }
    }
}

/// Synced lyrics in a reply come before plain ones; an empty text, a null and a missing member
/// count as none.
pub proof fn law_synced_lyrics_come_first(s: Seq<char>, p: Seq<char>, other: Option<JsonView>)
    requires
        s.len() > 0 && p.len() > 0,
        other matches Some(v) ==> v !is Text || v == JsonView::Text(Seq::empty()),
    ensures
        preferred(Some(JsonView::Text(s)), Some(JsonView::Text(p))) == Some(s),
        preferred(Some(JsonView::Text(s)), other) == Some(s),
        preferred(other, Some(JsonView::Text(p))) == Some(p),
        preferred(other, other) is None,
{
}

/// A reply gives lyrics where its status is a success and its body holds them, under the
/// names of the service.
pub proof fn law_replies_name_their_lyrics(status: u16, body: Seq<char>, s: Seq<char>)
    requires
        s.len() > 0,
    ensures
        status != 200 ==> reply_lyrics(status, body) is None,
        json_members(body) is None ==> reply_lyrics(status, body) is None,
        json_members(body) matches Some(m) ==> {
            &&& m.dom().contains("syncedLyrics"@) && m["syncedLyrics"@] == JsonView::Text(s)
                ==> reply_lyrics(200, body) == Some(s)
            &&& !m.dom().contains("syncedLyrics"@) && m.dom().contains("plainLyrics"@)
                && m["plainLyrics"@] == JsonView::Text(s) ==> reply_lyrics(200, body) == Some(s)
            &&& !m.dom().contains("syncedLyrics"@) && !m.dom().contains("plainLyrics"@)
                ==> reply_lyrics(200, body) is None
        },
{
}

/// The service is asked for the artist, the title and, where it is known, the length, each in
/// a parameter of its own.
pub proof fn law_service_is_asked_for_the_track(artist: Seq<char>, title: Seq<char>, secs: u32)
    ensures
        ({
            let a = percent_encoded(vstd::utf8::encode_utf8(artist));
            let t = percent_encoded(vstd::utf8::encode_utf8(title));
            let asked = lrclib_address(artist, title, None);
            let front = "https://lrclib.net/api/get?artist_name="@;
            let mid = "&track_name="@;
            &&& front.is_prefix_of(asked)
            &&& asked.skip(front.len() as int).take(a.len() as int) == a
            &&& asked.skip((front.len() + a.len()) as int).take(mid.len() as int) == mid
            &&& asked.skip((front.len() + a.len() + mid.len()) as int) == t
            &&& lrclib_address(artist, title, Some(secs)) == asked + "&duration="@ + decimal(
                secs as nat,
            )
        }),
{
    let a = percent_encoded(vstd::utf8::encode_utf8(artist));
    let t = percent_encoded(vstd::utf8::encode_utf8(title));
    let asked = lrclib_address(artist, title, None);
    let front = "https://lrclib.net/api/get?artist_name="@;
    let mid = "&track_name="@;
    assert(asked.take(front.len() as int) =~= front);
    assert(asked.skip(front.len() as int).take(a.len() as int) =~= a);
    assert(asked.skip((front.len() + a.len()) as int).take(mid.len() as int) =~= mid);
    assert(asked.skip((front.len() + a.len() + mid.len()) as int) =~= t);
}

/// Lyrics that are kept are shown before those in the tags of the file, and those before the
/// service is asked, which is only where artist and title are both known.
pub proof fn law_lyrics_come_from_tags_first(
    kept: Option<String>,
    embedded: Option<String>,
    artist: Option<String>,
    title: Option<String>,
    step: LyricsStep,
)
    requires
        is_lyrics_step(kept, embedded, artist, title, step),
    ensures
        kept matches Some(text) ==> step == LyricsStep::Parse(text),
        kept is None ==> (embedded matches Some(text) ==> step == LyricsStep::Parse(text)),
        step matches LyricsStep::Fetch(a, t) ==> kept is None && embedded is None && artist == Some(
            a,
        ) && title == Some(t),
        kept is None && embedded is None && artist is Some && title is Some ==> step is Fetch,
        kept is None && embedded is None && (artist is None || title is None) ==> step is Nothing,
{
}

/// The text of a line is that of the line, and its number those that stand in front.
pub proof fn law_lines_are_counted(lines: Seq<(i64, Seq<char>)>, plain: Seq<Seq<char>>, i: int)
    requires
        0 <= i,
    ensures
        LyricsView::Synced(lines).count() == lines.len(),
        LyricsView::Plain(plain).count() == plain.len(),
        i < lines.len() ==> LyricsView::Synced(lines).line(i) == lines[i].1,
        i < plain.len() ==> LyricsView::Plain(plain).line(i) == plain[i],
        i >= lines.len() ==> LyricsView::Synced(lines).line(i).len() == 0,
        LyricsView::Plain(plain).line_at(0) is None,
{
}

} // verus!
