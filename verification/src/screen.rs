//! The texts and numbers of the player's screen.
use vstd::prelude::*;

use crate::lyrics::LyricsView;
use crate::metadata::{CachedMeta, MetadataCache};
use crate::playlist::paths_of;
use crate::state::{
    BannerHotkey, CellRect, InputMode, InputView, PlayerState, Seconds, UiState, UiView, VizMode,
    VizStyle, RING_BUFFER_SIZE,
};
use crate::text::{
    decimal, decimal_text, pad_left, padded, repeat, repeated, same, string_of, to_chars,
};
use crate::track::Track;
use crate::ui::{clock, format_time, shown_as};

verus! {

/// Whether a character is an ASCII letter.
pub open spec fn is_letter(c: char) -> bool {
    ('a' <= c && c <= 'z') || ('A' <= c && c <= 'Z')
}

/// What is left of a text behind its first letter.
pub open spec fn behind_letter(s: Seq<char>) -> Seq<char>
    decreases s.len(),
{
    if s.len() == 0 {
        s
    } else if is_letter(s[0]) {
        s.drop_first()
    } else {
        behind_letter(s.drop_first())
    }
}

/// What is left is not longer.
pub proof fn lemma_behind_letter(s: Seq<char>)
    ensures
        behind_letter(s).len() <= s.len(),
    decreases s.len(),
{
    if s.len() > 0 && !is_letter(s[0]) {
        lemma_behind_letter(s.drop_first());
    }
}

/// A text without the sequences that style a terminal: the escape character, and
/// where a bracket follows it, all up to the next letter.
pub open spec fn stripped(s: Seq<char>) -> Seq<char>
    decreases s.len(),
{
    if s.len() == 0 {
        s
    } else if s[0] != '\u{1b}' {
        seq![s[0]] + stripped(s.drop_first())
    } else if s.len() > 1 && s[1] == '[' {
        proof {
            lemma_behind_letter(s.skip(2));
        }
        stripped(behind_letter(s.skip(2)))
    } else {
        stripped(s.drop_first())
    }
}

/// A text without the sequences that style a terminal.
pub fn strip_ansi(s: &str) -> (r: String)
    ensures
        r@ == stripped(s@),
{
    let v = to_chars(s);
    let mut out = String::new();
    let mut i: usize = 0;
    assert(v@.skip(0) =~= v@);
    assert(out@ + stripped(v@) =~= stripped(v@));
    while i < v.len()
        invariant
            v@ == s@,
            i <= v.len(),
            out@ + stripped(v@.skip(i as int)) == stripped(v@),
        decreases v.len() - i,
    {
        let ghost rest = v@.skip(i as int);
        let ghost before = out@;
        assert(rest[0] == v@[i as int]);
        assert(rest.drop_first() =~= v@.skip(i + 1));
        if v[i] != '\u{1b}' {
            out.push(v[i]);
            i = i + 1;
            assert(out@ + stripped(v@.skip(i as int)) =~= before + stripped(rest));
        } else if i + 1 < v.len() && v[i + 1] == '[' {
            assert(rest[1] == '[');
            assert(rest.skip(2) =~= v@.skip(i + 2));
            i = skip_letter(&v, i + 2);
        } else {
            assert(i + 1 < v.len() ==> rest[1] == v@[i + 1]);
            i = i + 1;
        }
    }
    assert(out@ + stripped(v@.skip(i as int)) =~= out@);
    out
}

/// The place behind the next letter.
fn skip_letter(v: &Vec<char>, from: usize) -> (r: usize)
    requires
        from <= v.len(),
    ensures
        from <= r <= v.len(),
        v@.skip(r as int) == behind_letter(v@.skip(from as int)),
{
    let mut i: usize = from;
    while i < v.len()
        invariant
            from <= i <= v.len(),
            behind_letter(v@.skip(i as int)) == behind_letter(v@.skip(from as int)),
        decreases v.len() - i,
    {
        let c = v[i];
        assert(v@.skip(i as int)[0] == c);
        assert(v@.skip(i as int).drop_first() =~= v@.skip(i + 1));
        i = i + 1;
        if ('a' <= c && c <= 'z') || ('A' <= c && c <= 'Z') {
            return i;
        }
    }
    assert(v@.skip(i as int) =~= Seq::<char>::empty());
    i
}

/// What is left of a text has no escape character.
pub proof fn law_stripped_is_plain(s: Seq<char>)
    ensures
        !stripped(s).contains('\u{1b}'),
        stripped(s).len() <= s.len(),
    decreases s.len(),
{
    if s.len() > 0 {
        if s[0] != '\u{1b}' {
            law_stripped_is_plain(s.drop_first());
            let rest = stripped(s.drop_first());
            assert forall|i: int| 0 <= i < stripped(s).len() implies stripped(s)[i]
                != '\u{1b}' by {
                if i > 0 {
                    assert(stripped(s)[i] == rest[i - 1]);
                    assert(rest.contains(rest[i - 1]));
                }
            }
        } else if s.len() > 1 && s[1] == '[' {
            lemma_behind_letter(s.skip(2));
            law_stripped_is_plain(behind_letter(s.skip(2)));
        } else {
            law_stripped_is_plain(s.drop_first());
        }
    }
}

/// A text without escape characters stays as it is.
pub proof fn law_plain_stays(s: Seq<char>)
    requires
        !s.contains('\u{1b}'),
    ensures
        stripped(s) == s,
    decreases s.len(),
{
    if s.len() > 0 {
        assert(s.contains(s[0]));
        assert forall|i: int| 0 <= i < s.drop_first().len() implies s.drop_first()[i]
            != '\u{1b}' by {
            assert(s.drop_first()[i] == s[i + 1]);
            assert(s.contains(s[i + 1]));
        }
        law_plain_stays(s.drop_first());
        assert(seq![s[0]] + s.drop_first() =~= s);
    }
}

/// A sequence that styles the terminal is left out, up to its letter; the text in front of it
/// and behind it stays. An escape character without a bracket is left out alone.
pub proof fn law_styles_are_left_out(
    front: Seq<char>,
    style: Seq<char>,
    letter: char,
    rest: Seq<char>,
)
    requires
        !front.contains('\u{1b}'),
        forall|i: int| 0 <= i < style.len() ==> !is_letter(#[trigger] style[i]),
        'a' <= letter <= 'z' || 'A' <= letter <= 'Z',
    ensures
        stripped(front + seq!['\u{1b}', '['] + style + seq![letter] + rest) == front + stripped(
            rest,
        ),
        rest.len() == 0 || rest[0] != '[' ==> stripped(front + seq!['\u{1b}'] + rest) == front
            + stripped(rest),
    decreases front.len(),
{
    let all = front + seq!['\u{1b}', '['] + style + seq![letter] + rest;
    let alone = front + seq!['\u{1b}'] + rest;
    if front.len() == 0 {
        assert(all.skip(2) =~= style + seq![letter] + rest);
        lemma_behind_style(style, letter, rest);
        assert(alone.drop_first() =~= rest);
        assert(front + stripped(rest) =~= stripped(rest));
    } else {
        let less = front.drop_first();
        assert(front.contains(front[0]));
        assert forall|i: int| 0 <= i < less.len() implies less[i] != '\u{1b}' by {
            assert(front.contains(front[i + 1]));
        }
        law_styles_are_left_out(less, style, letter, rest);
        assert(all.drop_first() =~= less + seq!['\u{1b}', '['] + style + seq![letter] + rest);
        assert(alone.drop_first() =~= less + seq!['\u{1b}'] + rest);
        assert(seq![front[0]] + (less + stripped(rest)) =~= front + stripped(rest));
    }
}

proof fn lemma_behind_style(style: Seq<char>, letter: char, rest: Seq<char>)
    requires
        forall|i: int| 0 <= i < style.len() ==> !is_letter(#[trigger] style[i]),
        is_letter(letter),
    ensures
        behind_letter(style + seq![letter] + rest) == rest,
    decreases style.len(),
{
    let all = style + seq![letter] + rest;
    if style.len() == 0 {
        assert(all.drop_first() =~= rest);
    } else {
        lemma_behind_style(style.drop_first(), letter, rest);
        assert(all.drop_first() =~= style.drop_first() + seq![letter] + rest);
        assert(all[0] == style[0]);
    }
}

/// The colours of the note in front of a track.
#[derive(Clone, Copy, Debug, PartialEq, Eq, Structural)]
pub enum NoteColor {
    Green,
    Magenta,
    Red,
    Cyan,
    Yellow,
}

/// The colour that tells an extension.
pub open spec fn color_of(ext: Seq<char>) -> NoteColor {
    if ext == "mp3"@ {
        NoteColor::Green
    } else if ext == "ogg"@ {
        NoteColor::Magenta
    } else if ext == "aac"@ || ext == "m4a"@ {
        NoteColor::Red
    } else if ext == "flac"@ || ext == "alac"@ || ext == "aiff"@ || ext == "aif"@ {
        NoteColor::Cyan
    } else if ext == "wav"@ {
        NoteColor::Yellow
    } else {
        NoteColor::Green
    }
}

/// The colour that tells an extension.
pub fn ext_note_color(ext: &str) -> (r: NoteColor)
    ensures
        r == color_of(ext@),
{
    if same(ext, "mp3") {
        NoteColor::Green
    } else if same(ext, "ogg") {
        NoteColor::Magenta
    } else if same(ext, "aac") || same(ext, "m4a") {
        NoteColor::Red
    } else if same(ext, "flac") || same(ext, "alac") || same(ext, "aiff") || same(ext, "aif") {
        NoteColor::Cyan
    } else if same(ext, "wav") {
        NoteColor::Yellow
    } else {
        NoteColor::Green
    }
}

/// How far a track has come, as the fraction `num / den`, at most one.
#[derive(Clone, Copy, Debug, PartialEq, Eq, Structural)]
pub struct Progress {
    pub num: u128,
    pub den: u128,
}

impl Progress {
    /// A fraction from nothing to one.
    pub open spec fn wf(self) -> bool {
        self.den > 0 && self.num <= self.den
    }
}

/// How far a track has come: nothing while its length is not known.
pub open spec fn progress_of(position: Seconds, total: Seconds) -> Progress {
    if total.num == 0 {
        Progress { num: 0, den: 1 }
    } else {
        let p = position.num * total.den;
        let q = position.den * total.num;
        if p > q {
            Progress { num: q as u128, den: q as u128 }
        } else {
            Progress { num: p as u128, den: q as u128 }
        }
    }
}

/// How far a track has come.
pub fn progress(position: Seconds, total: Seconds) -> (r: Progress)
    requires
        position.wf(),
        total.wf(),
    ensures
        r == progress_of(position, total),
        r.wf(),
{
    if total.num == 0 {
        return Progress { num: 0, den: 1 };
    }
    assert(position.num * total.den <= 0xffff_ffff_ffff_ffff * 0xffff_ffff_ffff_ffff)
        by (nonlinear_arith)
        requires
            position.num <= 0xffff_ffff_ffff_ffff,
            total.den <= 0xffff_ffff_ffff_ffff,
    ;
    assert(0 < position.den * total.num <= 0xffff_ffff_ffff_ffff * 0xffff_ffff_ffff_ffff)
        by (nonlinear_arith)
        requires
            0 < position.den <= 0xffff_ffff_ffff_ffff,
            0 < total.num <= 0xffff_ffff_ffff_ffff,
    ;
    assert(position.num * total.den >= 0) by (nonlinear_arith)
        requires
            position.num >= 0,
            total.den >= 0,
    ;
    let p: u128 = position.num as u128 * total.den as u128;
    let q: u128 = position.den as u128 * total.num as u128;
    if p > q {
        Progress { num: q, den: q }
    } else {
        Progress { num: p, den: q }
    }
}

/// The whole steps of `n` that a track has come.
pub open spec fn steps_of(p: Progress, n: int) -> int {
    (p.num * n) / (p.den as int)
}

/// The whole steps of `n` that a track has come.
fn count_steps(p: Progress, n: usize) -> (r: usize)
    requires
        p.wf(),
    ensures
        r == steps_of(p, n as int),
        r <= n,
        p.num < p.den && n > 0 ==> r < n,
{
    let mut done: usize = 0;
    let mut rest: u128 = 0;
    let mut i: usize = 0;
    assert(p.num * 0 == 0 && 0 * p.den == 0) by (nonlinear_arith);
    while i < n
        invariant
            p.wf(),
            i <= n,
            done <= i,
            rest < p.den,
            done * p.den + rest == p.num * i,
        decreases n - i,
    {
        let gap: u128 = p.den - p.num;
        assert(p.num * (i + 1) == p.num * i + p.num) by (nonlinear_arith);
        if rest >= gap {
            rest = rest - gap;
            assert((done + 1) * p.den == done * p.den + p.den) by (nonlinear_arith);
            done = done + 1;
        } else {
            rest = rest + p.num;
        }
        i = i + 1;
    }
    proof {
        assert(done * p.den == p.den * done) by (nonlinear_arith);
        vstd::arithmetic::div_mod::lemma_fundamental_div_mod_converse(
            p.num * n,
            p.den as int,
            done as int,
            rest as int,
        );
        if p.num < p.den && n > 0 {
            assert(p.num * n < p.den * n) by (nonlinear_arith)
                requires
                    p.num < p.den,
                    n > 0,
            ;
            assert(done < n) by (nonlinear_arith)
                requires
                    done * p.den <= p.num * n,
                    p.num * n < p.den * n,
                    p.den > 0,
            ;
        }
    }
    done
}

/// The partly filled characters of the two styles.
pub open spec fn partials(style: VizStyle) -> Seq<char> {
    match style {
        VizStyle::Dots => seq!['⣀', '⣄', '⣤', '⣦', '⣶', '⣷'],
        VizStyle::Bars => seq!['▏', '▎', '▍', '▌', '▋', '▊', '▉', '█'],
    }
}

/// The bar of progress, `width` characters wide: full ones, one that is partly
/// full, and empty ones.
pub open spec fn bar(p: Progress, width: int, style: VizStyle) -> Seq<char> {
    match style {
        VizStyle::Dots => {
            let steps = steps_of(p, width * 6);
            let full = steps / 6;
            if full >= width {
                repeated('⣿', width as nat)
            } else {
                repeated('⣿', full as nat) + seq![partials(style)[steps % 6]] + repeated(
                    '⣀',
                    (width - full - 1) as nat,
                )
            }
        },
        VizStyle::Bars => {
            let steps = steps_of(p, width * 8);
            let full = steps / 8;
            if full >= width {
                repeated('█', width as nat)
            } else if steps % 8 == 0 {
                repeated('█', full as nat) + repeated('▏', (width - full) as nat)
            } else {
                repeated('█', full as nat) + seq![partials(style)[steps % 8 - 1]] + repeated(
                    '▏',
                    (width - full - 1) as nat,
                )
            }
        },
    }
}

/// The bar of progress, `bar_w` characters wide.
pub fn progress_bar_chars(p: Progress, bar_w: usize, viz_style: VizStyle) -> (r: String)
    requires
        p.wf(),
        bar_w <= usize::MAX / 8,
    ensures
        r@ == bar(p, bar_w as int, viz_style),
{
    match viz_style {
        VizStyle::Dots => {
            let steps = count_steps(p, bar_w * 6);
            let full: usize = steps / 6;
            let frac: usize = steps % 6;
            let mut out = repeat('⣿', full);
            if full < bar_w {
                let c = match frac {
                    0 => '⣀',
                    1 => '⣄',
                    2 => '⣤',
                    3 => '⣦',
                    4 => '⣶',
                    _ => '⣷',
                };
                out.push(c);
                out.append(repeat('⣀', bar_w - full - 1).as_str());
            }
            assert(out@ =~= bar(p, bar_w as int, viz_style));
            out
        },
        VizStyle::Bars => {
            let steps = count_steps(p, bar_w * 8);
            let full: usize = steps / 8;
            let frac: usize = steps % 8;
            let mut out = repeat('█', full);
            if full < bar_w {
                if frac > 0 {
                    let c = match frac {
                        1 => '▏',
                        2 => '▎',
                        3 => '▍',
                        4 => '▌',
                        5 => '▋',
                        6 => '▊',
                        _ => '▉',
                    };
                    out.push(c);
                    out.append(repeat('▏', bar_w - full - 1).as_str());
                } else {
                    out.append(repeat('▏', bar_w - full).as_str());
                }
            }
            assert(out@ =~= bar(p, bar_w as int, viz_style));
            out
        },
    }
}

/// The bar is as wide as it is asked to be, and full when the track is over.
pub proof fn law_bar_width(p: Progress, width: int, style: VizStyle)
    requires
        p.wf(),
        width >= 0,
    ensures
        bar(p, width, style).len() == width,
        p.num == p.den ==> bar(p, width, style) == repeated(
            match style {
                VizStyle::Dots => '⣿',
                VizStyle::Bars => '█',
            },
            width as nat,
        ),
{
    let n = match style {
        VizStyle::Dots => width * 6,
        VizStyle::Bars => width * 8,
    };
    let steps = steps_of(p, n);
    assert(p.num * n >= 0) by (nonlinear_arith)
        requires
            p.num >= 0,
            n >= 0,
    ;
    vstd::arithmetic::div_mod::lemma_div_pos_is_pos(p.num * n, p.den as int);
    if p.num == p.den {
        assert(p.num * n == n * (p.den as int)) by (nonlinear_arith)
            requires
                p.num == p.den,
        ;
        vstd::arithmetic::div_mod::lemma_div_by_multiple(n, p.den as int);
    }
}

/// A bar never shrinks while a track goes on.
pub proof fn law_steps_grow(p: Progress, q: Progress, n: int)
    requires
        p.wf(),
        q.wf(),
        p.den == q.den,
        p.num <= q.num,
        n >= 0,
    ensures
        steps_of(p, n) <= steps_of(q, n),
{
    assert(p.num * n <= q.num * n) by (nonlinear_arith)
        requires
            p.num <= q.num,
            n >= 0,
    ;
    vstd::arithmetic::div_mod::lemma_div_is_ordered(p.num * n, q.num * n, p.den as int);
}

/// The width of the bar of progress on a screen of this width.
pub fn bar_width(term_w: usize) -> (r: usize)
    ensures
        r == (if term_w < 32 {
            8int
        } else if term_w > 44 {
            20
        } else {
            term_w - 24
        }),
{
    if term_w < 32 {
        8
    } else if term_w > 44 {
        20
    } else {
        term_w - 24
    }
}

/// The front of the line of the track: its number among all.
pub open spec fn number_label(track: nat, total: nat) -> Seq<char> {
    "["@ + decimal(track) + "/"@ + decimal(total) + "] "@
}

/// The front of the line of the track.
pub fn track_number_label(track: u64, total: u64) -> (r: String)
    ensures
        r@ == number_label(track as nat, total as nat),
{
    let mut out = "[".to_string();
    out.append(decimal_text(track).as_str());
    out.append("/");
    out.append(decimal_text(total).as_str());
    out.append("] ");
    out
}

/// The characters that a name may take on a screen of this width: what the rest
/// of its line leaves, at least four and at most thirty-five. The rest is counted
/// in bytes.
pub open spec fn name_room(term_w: nat, label_bytes: nat, info_bytes: nat) -> nat {
    let overhead = label_bytes + 5 + info_bytes + 1;
    let room = if term_w < overhead {
        0
    } else {
        (term_w - overhead) as nat
    };
    if room < 4 {
        4
    } else if room > 35 {
        35
    } else {
        room
    }
}

/// A name that is cut to so many characters, with an ellipsis at its end.
pub open spec fn shortened_name(name: Seq<char>, room: nat) -> Seq<char> {
    if name.len() > room && room > 0 {
        name.take(room - 1) + seq!['…']
    } else {
        name
    }
}

fn bytes_in(s: &str) -> (r: usize)
    ensures
        r == vstd::utf8::encode_utf8(s@).len(),
{
    s.as_bytes().len()
}

/// A name as it fits on its line.
pub fn display_name(name: &str, label: &str, track_info: &str, term_w: usize) -> (r: String)
    ensures
        r@ == shortened_name(
            name@,
            name_room(
                term_w as nat,
                vstd::utf8::encode_utf8(label@).len(),
                vstd::utf8::encode_utf8(track_info@).len(),
            ),
        ),
{
    let overhead: usize = bytes_in(label).saturating_add(5).saturating_add(
        bytes_in(track_info),
    ).saturating_add(1);
    let left: usize = if term_w < overhead {
        0
    } else {
        term_w - overhead
    };
    let room: usize = if left < 4 {
        4
    } else if left > 35 {
        35
    } else {
        left
    };
    let v = to_chars(name);
    if v.len() > room {
        let mut out = string_of(&v, 0, room - 1);
        out.push('…');
        assert(out@ =~= name@.take(room - 1) + seq!['…']);
        out
    } else {
        name.to_string()
    }
}

/// A cut name fits the room that it has.
pub proof fn law_name_fits(name: Seq<char>, room: nat)
    requires
        room > 0,
    ensures
        shortened_name(name, room).len() <= room,
        name.len() <= room ==> shortened_name(name, room) == name,
{
}

/// A setting that is shown unless it has its usual value.
pub open spec fn shown_unless(name: Seq<char>, usual: Seq<char>, front: Seq<char>) -> Seq<char> {
    if name == usual {
        Seq::empty()
    } else {
        front + name
    }
}

pub(crate) fn show_unless(out: &mut String, name: &str, usual: &str, front: &str)
    ensures
        final(out)@ == old(out)@ + shown_unless(name@, usual@, front@),
{
    let ghost before = out@;
    if !same(name, usual) {
        out.append(front);
        out.append(name);
    }
    assert(out@ =~= before + shown_unless(name@, usual@, front@));
}

/// The balance as it is shown: nothing at the centre.
pub open spec fn balance_label(balance: int) -> Seq<char> {
    if balance < 0 {
        " BAL:L"@ + decimal((-balance) as nat) + "%"@
    } else if balance > 0 {
        " BAL:R"@ + decimal(balance as nat) + "%"@
    } else {
        Seq::empty()
    }
}

/// The balance as it is shown.
pub fn balance_text(balance: i32) -> (r: String)
    ensures
        r@ == balance_label(balance as int),
{
    let mut out = String::new();
    if balance < 0 {
        out.append(" BAL:L");
        out.append(decimal_text((-(balance as i64)) as u64).as_str());
        out.append("%");
    } else if balance > 0 {
        out.append(" BAL:R");
        out.append(decimal_text(balance as u64).as_str());
        out.append("%");
    }
    assert(out@ =~= balance_label(balance as int));
    out
}

/// How full the ring is, in hundredths.
pub fn buffer_percent(level: usize) -> (r: u64)
    ensures
        r == level * 100 / RING_BUFFER_SIZE as int,
{
    let n: u128 = level as u128 * 100 / RING_BUFFER_SIZE as u128;
    assert(n <= level * 100) by {
        vstd::arithmetic::div_mod::lemma_div_is_ordered_by_denominator(
            level * 100,
            1,
            RING_BUFFER_SIZE as int,
        );
    }
    assert(n <= 0xffff_ffff_ffff_ffff) by (nonlinear_arith)
        requires
            n == level * 100 / 384000,
            level <= 0xffff_ffff_ffff_ffff,
    ;
    n as u64
}

/// The name of a mode of the visualization, short.
pub open spec fn viz_label(m: VizMode) -> Seq<char> {
    match m {
        VizMode::Off => "Off"@,
        VizMode::VuMeter => "VU"@,
        VizMode::SpectrumHorizontal => "SpecH"@,
        VizMode::SpectrumVertical => "SpecV"@,
    }
}

fn viz_name(m: VizMode) -> (r: &'static str)
    ensures
        r@ == viz_label(m),
{
    match m {
        VizMode::Off => "Off",
        VizMode::VuMeter => "VU",
        VizMode::SpectrumHorizontal => "SpecH",
        VizMode::SpectrumVertical => "SpecV",
    }
}

/// How tracks follow each other, and whether they begin again.
pub open spec fn mode_label(shuffle: bool, repeat: bool) -> Seq<char> {
    (if shuffle {
        "shuf"@
    } else {
        "seq"@
    }) + "/"@ + (if repeat {
        "loop"@
    } else {
        "once"@
    })
}

fn push_modes(out: &mut String, shuffle: bool, repeats: bool)
    ensures
        final(out)@ == old(out)@ + mode_label(shuffle, repeats),
{
    let ghost before = out@;
    out.append(
        if shuffle {
            "shuf"
        } else {
            "seq"
        },
    );
    out.append("/");
    out.append(
        if repeats {
            "loop"
        } else {
            "once"
        },
    );
    assert(out@ =~= before + mode_label(shuffle, repeats));
}

/// The line of the player in front of its dot: time, bar, modes, volume and the
/// presets that are not the usual ones.
pub open spec fn status_front(
    s: PlayerState,
    shuffle: bool,
    repeat: bool,
    width: int,
    eq: Seq<char>,
    fx: Seq<char>,
    cf: Seq<char>,
) -> Seq<char> {
    " ["@ + clock(s.position().floor()) + "/"@ + clock(s.duration().floor()) + "] "@ + bar(
        progress_of(s.position(), s.duration()),
        width,
        VizStyle::of(s.viz_style),
    ) + " "@ + mode_label(shuffle, repeat) + " vol:"@ + decimal(s.volume as nat) + "%"@
        + shown_unless(eq, "Flat"@, " eq:"@) + shown_unless(fx, "None"@, " fx:"@) + shown_unless(
        cf,
        "Off"@,
        " cf:"@,
    ) + " "@
}

/// The line of the player in front of its dot.
pub fn status_line_front(
    s: &PlayerState,
    shuffle: bool,
    repeats: bool,
    bar_w: usize,
    eq_name: &str,
    fx_name: &str,
    cf_name: &str,
) -> (r: String)
    requires
        bar_w <= usize::MAX / 8,
    ensures
        r@ == status_front(*s, shuffle, repeats, bar_w as int, eq_name@, fx_name@, cf_name@),
{
    let position = s.time_secs();
    let total = s.total_secs();
    let done = progress(position, total);
    let mut out = " [".to_string();
    out.append(format_time(position.whole()).as_str());
    out.append("/");
    out.append(format_time(total.whole()).as_str());
    out.append("] ");
    out.append(progress_bar_chars(done, bar_w, s.viz_style()).as_str());
    out.append(" ");
    push_modes(&mut out, shuffle, repeats);
    out.append(" vol:");
    out.append(decimal_text(s.volume as u64).as_str());
    out.append("%");
    show_unless(&mut out, eq_name, "Flat", " eq:");
    show_unless(&mut out, fx_name, "None", " fx:");
    show_unless(&mut out, cf_name, "Off", " cf:");
    out.append(" ");
    out
}

/// The line of the player behind its dot: balance, metering, how full the ring
/// is, what the machine is doing, and what the keys of the visualization lead to.
pub open spec fn status_back(s: PlayerState, buffer: nat, stats: Seq<char>) -> Seq<char> {
    balance_label(s.balance as int) + " "@ + (if s.pre_fader {
        "pre"@
    } else {
        "post"@
    }) + " buf:"@ + decimal(buffer) + "%"@ + stats + " {V}:"@ + viz_label(
        VizMode::of(s.viz_mode).after(),
    ) + " {B}:"@ + (match VizStyle::of(s.viz_style) {
        VizStyle::Dots => "Bars"@,
        VizStyle::Bars => "Dots"@,
    })
}

/// The line of the player behind its dot; `stats` is the text about the machine.
pub fn status_line_back(s: &PlayerState, buffer: u64, stats: &str) -> (r: String)
    ensures
        r@ == status_back(*s, buffer as nat, stats@),
{
    let mut out = balance_text(s.balance);
    out.append(" ");
    out.append(
        if s.is_pre_fader() {
            "pre"
        } else {
            "post"
        },
    );
    out.append(" buf:");
    out.append(decimal_text(buffer).as_str());
    out.append("%");
    out.append(stats);
    out.append(" {V}:");
    out.append(viz_name(s.viz_mode().next()));
    out.append(" {B}:");
    out.append(
        match s.viz_style() {
            VizStyle::Dots => "Bars",
            VizStyle::Bars => "Dots",
        },
    );
    out
}

/// The heights that the screen is divided into: the banner with its text and its
/// keys.
#[derive(Clone, Copy, Debug, PartialEq, Eq, Structural)]
pub struct BannerHeights {
    pub text: u16,
    pub keys: u16,
}

/// The height of the banner on a screen of this height: as many lines as it has,
/// at least one.
pub fn banner_height(banner_lines: usize, screen_height: u16) -> (r: u16)
    ensures
        r == (if screen_height == 0 || banner_lines as u16 == 0 {
            1
        } else if (banner_lines as u16) < screen_height {
            banner_lines as u16
        } else {
            screen_height
        }),
{
    let lines: u16 = #[verifier::truncate]
    (banner_lines as u16);
    let h: u16 = if lines < screen_height {
        lines
    } else {
        screen_height
    };
    if h == 0 {
        1
    } else {
        h
    }
}

/// The heights inside the banner: two lines for the keys as far as there is room,
/// and the rest for the text, at least one.
pub fn banner_heights(inner_height: u16) -> (r: BannerHeights)
    ensures
        r.keys == (if inner_height < 2 {
            inner_height as int
        } else {
            2
        }),
        r.text == (if inner_height < 3 {
            1int
        } else {
            inner_height - 2
        }),
{
    BannerHeights {
        text: if inner_height < 3 {
            1
        } else {
            inner_height - 2
        },
        keys: if inner_height < 2 {
            inner_height
        } else {
            2
        },
    }
}

/// The lines of the header: the track, the player, and the curve of the equalizer
/// where there is one.
pub fn header_lines(eq_line: bool) -> (r: usize)
    ensures
        r == (if eq_line {
            3int
        } else {
            2
        }),
{
    if eq_line {
        3
    } else {
        2
    }
}

/// The lines of the visualization: none where it is off, else its own and one
/// above them.
pub fn viz_height(mode: VizMode, lines: usize) -> (r: usize)
    requires
        lines < usize::MAX,
    ensures
        r == (if mode is Off {
            0
        } else {
            lines + 1
        }),
{
    if mode == VizMode::Off {
        0
    } else {
        lines + 1
    }
}

/// The lines that are left for the list under so many others: at least one.
pub open spec fn rows_left(body: nat, taken: nat) -> nat {
    if body < taken + 3 {
        1
    } else {
        (body - taken - 2) as nat
    }
}

/// The lines of the list in a body of this height: what the header, the
/// visualization, the footer and a separator leave, at least one.
pub fn visible_rows(body_height: usize, header: usize, viz: usize) -> (r: usize)
    ensures
        r == rows_left(body_height as nat, (header + viz) as nat),
{
    let used = header.saturating_add(viz).saturating_add(2);
    if body_height <= used {
        1
    } else {
        body_height - used
    }
}

/// A row of an area, one line high where the area reaches it.
pub open spec fn row_of(r: CellRect, row: u16) -> CellRect {
    CellRect {
        x: r.x,
        y: if r.y + row > u16::MAX {
            u16::MAX
        } else {
            (r.y + row) as u16
        },
        w: r.w,
        h: if r.h > row {
            1
        } else {
            0
        },
    }
}

/// A row of an area.
pub fn row_rect(r: CellRect, row: u16) -> (q: CellRect)
    ensures
        q == row_of(r, row),
{
    CellRect {
        x: r.x,
        y: r.y.saturating_add(row),
        w: r.w,
        h: if r.h > row {
            1
        } else {
            0
        },
    }
}

/// Whether a search is typed that is not empty.
pub open spec fn is_searching(u: UiView) -> bool {
    u.input matches InputView::Search(q) && q.len() > 0
}

fn searching(ui: &UiState) -> (r: bool)
    ensures
        r == is_searching(ui@),
{
    match &ui.input_mode {
        InputMode::Search(q) => !q.as_str().is_empty(),
        _ => false,
    }
}

/// The places of the tracks that are listed: what a search found, or all.
pub open spec fn listed(u: UiView, len: nat) -> Seq<usize> {
    if u.filtered.len() == 0 && !is_searching(u) {
        Seq::new(len, |i: int| i as usize)
    } else {
        u.filtered
    }
}

/// The first line that is seen of a list of `total` lines in so many rows: the
/// cursor keeps a margin from the edges, and the list ends with its last line.
pub open spec fn first_line(cursor: int, offset: int, total: int, rows: int) -> int {
    let margin = if rows / 2 < 4 {
        rows / 2
    } else {
        4
    };
    let below = rows - margin;
    let first = if cursor >= offset + below {
        at_least(cursor - at_least(below - 1)) as int
    } else {
        offset
    };
    let second = if cursor < first + margin {
        at_least(cursor - margin) as int
    } else {
        first
    };
    let last = at_least(total - rows) as int;
    if second < last {
        second
    } else {
        last
    }
}

/// The list scrolled so that the cursor is seen.
pub open spec fn scrolled(u: UiView, len: nat, rows: nat) -> UiView {
    UiView {
        scroll_offset: first_line(
            u.cursor as int,
            u.scroll_offset as int,
            listed(u, len).len() as int,
            rows as int,
        ) as usize,
        ..u
    }
}

/// A number, or zero where it is negative.
pub open spec fn at_least(n: int) -> nat {
    if n < 0 {
        0
    } else {
        n as nat
    }
}

fn scroll_place(cursor: usize, offset: usize, total: usize, rows: usize) -> (r: usize)
    ensures
        r == first_line(cursor as int, offset as int, total as int, rows as int),
{
    let margin: usize = if rows / 2 < 4 {
        rows / 2
    } else {
        4
    };
    let below: usize = rows - margin;
    let first: usize = if cursor >= offset && cursor - offset >= below {
        cursor.saturating_sub(below.saturating_sub(1))
    } else {
        offset
    };
    let second: usize = if cursor < first || cursor - first < margin {
        cursor.saturating_sub(margin)
    } else {
        first
    };
    let last: usize = total.saturating_sub(rows);
    if second < last {
        second
    } else {
        last
    }
}

/// Scrolls the list so that the cursor is seen.
pub fn sync_playlist_scroll(ui: &mut UiState, len: usize, rows: usize)
    ensures
        final(ui)@ == scrolled(old(ui)@, len as nat, rows as nat),
{
    let total: usize = if ui.filtered_indices.len() == 0 && !searching(ui) {
        len
    } else {
        ui.filtered_indices.len()
    };
    assert(listed(ui@, len as nat).len() == total);
    ui.scroll_offset = scroll_place(ui.cursor, ui.scroll_offset, total, rows);
}

/// After scrolling, a cursor on the list is among the lines that are seen.
pub proof fn law_cursor_is_seen(u: UiView, len: nat, rows: nat)
    requires
        rows > 0,
        rows <= usize::MAX,
        u.cursor < listed(u, len).len(),
    ensures
        ({
            let top = scrolled(u, len, rows).scroll_offset;
            top <= u.cursor < top + rows
        }),
{
}

/// A line of the list: the number and the name of a track, and whether it is
/// playing and under the cursor.
pub struct ListRow {
    pub number: String,
    pub name: String,
    pub playing: bool,
    pub cursor: bool,
}

/// Whether a line shows the track at a place of the playlist, on a line of the
/// list.
pub open spec fn is_row(
    row: ListRow,
    u: UiView,
    entries: Seq<Option<CachedMeta>>,
    paths: Seq<Seq<char>>,
    track: usize,
    line: int,
) -> bool {
    &&& row.number@ == padded(decimal((track + 1) as nat), 4, ' ')
    &&& shown_as(entries, track as int, paths[track as int], row.name@)
    &&& row.playing == (track == u.current)
    &&& row.cursor == (line == u.cursor)
}

/// The number of lines that are shown of a list: from the offset on, as many as
/// there are rows.
pub open spec fn lines_shown(total: nat, offset: nat, rows: nat) -> nat {
    if offset >= total {
        0
    } else if (total - offset) < rows {
        (total - offset) as nat
    } else {
        rows
    }
}

/// Whether every place that is listed is inside the playlist.
pub open spec fn all_inside(u: UiView, len: nat) -> bool {
    forall|i: int| 0 <= i < u.filtered.len() ==> #[trigger] u.filtered[i] < len
}

/// Whether every place that a search found is inside the playlist.
pub fn places_inside(ui: &UiState, len: usize) -> (r: bool)
    ensures
        r == all_inside(ui@, len as nat),
{
    let mut i: usize = 0;
    while i < ui.filtered_indices.len()
        invariant
            i <= ui.filtered_indices.len(),
            forall|k: int| 0 <= k < i ==> #[trigger] ui.filtered_indices@[k] < len,
        decreases ui.filtered_indices.len() - i,
    {
        if ui.filtered_indices[i] >= len {
            assert(ui@.filtered[i as int] >= len);
            return false;
        }
        i = i + 1;
    }
    true
}

/// The lines of the list that are shown in so many rows. None, in place of an
/// empty list, where a search found nothing.
pub fn playlist_rows(
    ui: &UiState,
    cache: &MetadataCache,
    playlist: &Vec<Track>,
    rows: usize,
) -> (r: Option<Vec<ListRow>>)
    requires
        all_inside(ui@, playlist.len() as nat),
    ensures
        r is None <==> is_searching(ui@) && ui@.filtered.len() == 0,
        r matches Some(v) ==> {
            let items = listed(ui@, playlist.len() as nat);
            &&& v.len() == lines_shown(items.len(), ui@.scroll_offset as nat, rows as nat)
            &&& forall|i: int|
                0 <= i < v.len() ==> is_row(
                    #[trigger] v@[i],
                    ui@,
                    cache.entries@,
                    paths_of(playlist@),
                    items[ui@.scroll_offset + i],
                    ui@.scroll_offset + i,
                )
        },
{
    let active = searching(ui);
    let whole = ui.filtered_indices.len() == 0;
    if active && whole {
        return None;
    }
    let ghost items = listed(ui@, playlist.len() as nat);
    let ghost paths = paths_of(playlist@);
    let total: usize = if whole {
        playlist.len()
    } else {
        ui.filtered_indices.len()
    };
    let mut out: Vec<ListRow> = Vec::new();
    let offset = ui.scroll_offset;
    while out.len() < rows && offset < total && out.len() < total - offset
        invariant
            whole == (ui.filtered_indices.len() == 0),
            !(is_searching(ui@) && whole),
            all_inside(ui@, playlist.len() as nat),
            items == listed(ui@, playlist.len() as nat),
            paths == paths_of(playlist@),
            total == items.len(),
            total == (if whole {
                playlist.len()
            } else {
                ui.filtered_indices.len()
            }),
            offset == ui.scroll_offset,
            out.len() <= lines_shown(total as nat, offset as nat, rows as nat),
            forall|i: int|
                0 <= i < out.len() ==> is_row(
                    #[trigger] out@[i],
                    ui@,
                    cache.entries@,
                    paths,
                    items[offset + i],
                    offset + i,
                ),
        decreases rows - out.len(),
    {
        let line: usize = offset + out.len();
        let track: usize = if whole {
            line
        } else {
            ui.filtered_indices[line]
        };
        assert(track == items[line as int]);
        assert(track < playlist.len()) by {
            if !whole {
                assert(ui@.filtered[line as int] < playlist.len());
            }
        }
        assert(paths[track as int] == playlist@[track as int].path@);
        let row = ListRow {
            number: pad_left(decimal_text(track as u64 + 1).as_str(), 4, ' '),
            name: cache.display_name(track, playlist[track].path.as_str()),
            playing: track == ui.current,
            cursor: line == ui.cursor,
        };
        out.push(row);
    }
    Some(out)
}

/// The line of the list that is marked: the cursor's, where it is shown.
pub fn marked_row(ui: &UiState, shown: usize) -> (r: Option<usize>)
    ensures
        r == ({
            let rel = at_least(ui@.cursor - ui@.scroll_offset);
            if rel < shown {
                Some(rel as usize)
            } else {
                None
            }
        }),
{
    let rel: usize = ui.cursor.saturating_sub(ui.scroll_offset);
    if rel < shown {
        Some(rel)
    } else {
        None
    }
}

/// What stands under the list: what is typed, else a message, else its keys.
pub open spec fn list_footer(u: UiView, message: Option<Seq<char>>) -> Seq<char> {
    match u.input {
        InputView::Search(q) => "/ "@ + q + "_"@,
        InputView::SavePlaylist(n) => "Save playlist as: "@ + n + "_"@,
        InputView::Normal => match message {
            Some(m) => m,
            None => "[L] close  [↑↓] scroll  [Enter] play  [/] search  [D] remove  [S] save"@,
        },
    }
}

/// What stands under the list.
pub fn playlist_footer(ui: &UiState, message: Option<&str>) -> (r: String)
    ensures
        r@ == list_footer(
            ui@,
            match message {
                Some(m) => Some(m@),
                None => None,
            },
        ),
{
    match &ui.input_mode {
        InputMode::Search(q) => {
            let mut out = "/ ".to_string();
            out.append(q.as_str());
            out.append("_");
            out
        },
        InputMode::SavePlaylist(n) => {
            let mut out = "Save playlist as: ".to_string();
            out.append(n.as_str());
            out.append("_");
            out
        },
        InputMode::Normal => match message {
            Some(m) => m.to_string(),
            None => "[L] close  [↑↓] scroll  [Enter] play  [/] search  [D] remove  [S] save".to_string(),
        },
    }
}

/// A time in seconds, as the fraction `num / den`, or the one below zero.
#[derive(Clone, Copy, Debug, PartialEq, Eq, Structural)]
pub struct Moment {
    pub below_zero: bool,
    pub num: u128,
    pub den: u128,
}

impl Moment {
    /// The numerator with its sign.
    pub open spec fn signed(self) -> int {
        if self.below_zero {
            -(self.num as int)
        } else {
            self.num as int
        }
    }

    /// Whether this is the time that lies so many half seconds before a position.
    pub open spec fn lies_before(self, position: Seconds, half: int) -> bool {
        &&& self.den == 2 * position.den
        &&& self.signed() == 2 * position.num - half * position.den
    }
}

/// The time of the lyrics at a position of the track: the position less the offset,
/// so that lyrics with a positive offset are sung later.
pub fn lyrics_moment(ui: &UiState, position: Seconds) -> (r: Moment)
    requires
        position.wf(),
    ensures
        r.lies_before(position, ui@.lyrics_offset as int),
        r.den > 0,
        r.below_zero ==> r.num > 0,
{
    let half = ui.lyrics_offset;
    let den = position.den as u128;
    let at: u128 = 2 * position.num as u128;
    let size: u128 = if half < 0 {
        (-(half as i128)) as u128
    } else {
        half as u128
    };
    assert(0 <= size * den <= 0x8000_0000_0000_0000 * 0xffff_ffff_ffff_ffff) by (nonlinear_arith)
        requires
            0 <= size <= 0x8000_0000_0000_0000,
            0 <= den <= 0xffff_ffff_ffff_ffff,
    ;
    let shift: u128 = size * den;
    assert(half < 0 ==> half * position.den == -shift) by (nonlinear_arith)
        requires
            shift == size * den,
            den == position.den,
            half < 0 ==> size == -half,
    ;
    if half < 0 {
        Moment { below_zero: false, num: at + shift, den: 2 * den }
    } else if shift > at {
        Moment { below_zero: true, num: shift - at, den: 2 * den }
    } else {
        Moment { below_zero: false, num: at - shift, den: 2 * den }
    }
}

/// What is sung at a position without an offset is sung so many half seconds later
/// with one.
pub proof fn law_offset_delays(p: Seconds, half: int, later: Seconds, plain: Moment, shifted: Moment)
    requires
        p.wf(),
        later.wf(),
        2 * later.num * p.den == 2 * p.num * later.den + half * p.den * later.den,
        plain.lies_before(p, 0),
        shifted.lies_before(later, half),
    ensures
        shifted.signed() * plain.den == plain.signed() * shifted.den,
{
    let (a, b, c, d) = (later.num as int, later.den as int, p.num as int, p.den as int);
    assert((2 * a - half * b) * (2 * d) == (2 * c - 0 * d) * (2 * b)) by (nonlinear_arith)
        requires
            2 * a * d == 2 * c * b + half * d * b,
    ;
}

/// The lyrics scrolled: those in time follow the line that is sung, to the
/// middle of the rows, unless they were scrolled by hand; never behind their end.
pub open spec fn lyrics_scrolled(u: UiView, position: i64, rows: nat) -> UiView {
    match u.lyrics {
        Some(l) => {
            let wanted = match l.line_at(position) {
                Some(line) if l is Synced && u.lyrics_auto_scroll => at_least(line - rows / 2),
                _ => u.lyrics_scroll as nat,
            };
            let last = at_least(l.count() - rows);
            UiView {
                lyrics_scroll: (if wanted < last {
                    wanted
                } else {
                    last
                }) as usize,
                ..u
            }
        },
        None => u,
    }
}

/// A line of the lyrics on the screen.
pub struct LyricRow {
    pub text: String,
    pub current: bool,
}

/// Whether a row shows a line of the lyrics; a row behind their end is empty.
pub open spec fn is_lyric_row(row: LyricRow, l: LyricsView, line: int, position: i64) -> bool {
    if line < l.count() {
        &&& row.text@ == "  "@ + l.line(line)
        &&& row.current == (l.line_at(position) == Some(line))
    } else {
        &&& row.text@ == Seq::<char>::empty()
        &&& !row.current
    }
}

/// The rows of the lyrics at a time of theirs, and the lyrics scrolled to
/// them. None where there are no lyrics.
pub fn lyrics_rows(ui: &mut UiState, position: i64, rows: usize) -> (r: Option<Vec<LyricRow>>)
    ensures
        final(ui)@ == lyrics_scrolled(old(ui)@, position, rows as nat),
        r is None <==> old(ui)@.lyrics is None,
        r matches Some(v) ==> {
            let l = old(ui)@.lyrics->0;
            &&& v.len() == rows
            &&& forall|i: int|
                0 <= i < rows ==> is_lyric_row(
                    #[trigger] v@[i],
                    l,
                    final(ui)@.lyrics_scroll + i,
                    position,
                )
        },
{
    let auto = ui.lyrics_auto_scroll;
    let before = ui.lyrics_scroll;
    let ghost l = ui@.lyrics;
    let scroll: usize = match &ui.lyrics {
        Some(lyrics) => {
            let total = lyrics.line_count();
            let now = lyrics.current_line(position);
            let wanted: usize = match now {
                Some(line) => if lyrics.is_synced() && auto {
                    line.saturating_sub(rows / 2)
                } else {
                    before
                },
                None => before,
            };
            let last: usize = total.saturating_sub(rows);
            if wanted < last {
                wanted
            } else {
                last
            }
        },
        None => {
            return None;
        },
    };
    ui.lyrics_scroll = scroll;
    let mut out: Vec<LyricRow> = Vec::new();
    match &ui.lyrics {
        Some(lyrics) => {
            let total = lyrics.line_count();
            let now = lyrics.current_line(position);
            while out.len() < rows
                invariant
                    l == Some(lyrics@),
                    total == lyrics@.count(),
                    match now {
                        Some(line) => lyrics@.line_at(position) == Some(line as int),
                        None => lyrics@.line_at(position) is None,
                    },
                    out.len() <= rows,
                    forall|i: int|
                        0 <= i < out.len() ==> is_lyric_row(
                            #[trigger] out@[i],
                            lyrics@,
                            scroll + i,
                            position,
                        ),
                decreases rows - out.len(),
            {
                let row = if scroll < total && out.len() < total - scroll {
                    let line: usize = scroll + out.len();
                    let mut text = "  ".to_string();
                    text.append(lyrics.line_text(line));
                    let current = match now {
                        Some(n) => n == line,
                        None => false,
                    };
                    LyricRow { text, current }
                } else {
                    LyricRow { text: String::new(), current: false }
                };
                out.push(row);
            }
        },
        None => {},
    }
    Some(out)
}

/// An offset in half seconds as it is shown: with its sign and one decimal.
pub open spec fn offset_label(half: int) -> Seq<char> {
    (if half < 0 {
        "-"@
    } else {
        "+"@
    }) + decimal(
        (if half < 0 {
            -half
        } else {
            half
        } / 2) as nat,
    ) + (if half % 2 == 0 {
        ".0"@
    } else {
        ".5"@
    })
}

/// An offset in half seconds as it is shown.
pub fn offset_text(half: i64) -> (r: String)
    ensures
        r@ == offset_label(half as int),
{
    let size: u64 = if half < 0 {
        (-(half as i128)) as u64
    } else {
        half as u64
    };
    let mut out = if half < 0 {
        "-".to_string()
    } else {
        "+".to_string()
    };
    out.append(decimal_text(size / 2).as_str());
    out.append(
        if size % 2 == 0 {
            ".0"
        } else {
            ".5"
        },
    );
    assert(out@ =~= offset_label(half as int));
    out
}

/// What stands under the lyrics: their keys, and the offset of those in time
/// where they have one.
pub open spec fn lyrics_footer_label(u: UiView) -> Seq<char> {
    let synced = u.lyrics matches Some(l) && l is Synced;
    "[Y] close  [W/S] scroll"@ + (if synced {
        "  [A/D] sync"@
    } else {
        Seq::empty()
    }) + (if synced && u.lyrics_offset != 0 {
        "  offset:"@ + offset_label(u.lyrics_offset as int) + "s"@
    } else {
        Seq::empty()
    })
}

/// What stands under the lyrics.
pub fn lyrics_footer(ui: &UiState) -> (r: String)
    ensures
        r@ == lyrics_footer_label(ui@),
{
    let synced = match &ui.lyrics {
        Some(l) => l.is_synced(),
        None => false,
    };
    let mut out = "[Y] close  [W/S] scroll".to_string();
    if synced {
        out.append("  [A/D] sync");
    }
    if synced && ui.lyrics_offset != 0 {
        out.append("  offset:");
        out.append(offset_text(ui.lyrics_offset).as_str());
        out.append("s");
    }
    assert(out@ =~= lyrics_footer_label(ui@));
    out
}

/// The line of the banner that names the keys of the player.
pub fn banner_help() -> (r: &'static str)
    ensures
        r@ == "{Space} Pause  {↑/↓} Track  {←/→} Seek  {+/-} Vol  {[/]} Bal  {Q} Quit"@,
{
    "{Space} Pause  {↑/↓} Track  {←/→} Seek  {+/-} Vol  {[/]} Bal  {Q} Quit"
}

/// A piece of the banner's line of keys: a key that can be pressed, or a word.
pub struct BannerPiece {
    pub text: String,
    pub hotkey: Option<BannerHotkey>,
}

/// The pieces of the banner's line of keys.
pub open spec fn banner_line() -> Seq<(Seq<char>, Option<BannerHotkey>)> {
    seq![
        (" E "@, Some(BannerHotkey::Eq)),
        (" EQ  "@, None),
        (" X "@, Some(BannerHotkey::Fx)),
        (" FX  "@, None),
        (" C "@, Some(BannerHotkey::Crossfeed)),
        (" Crossfeed  "@, None),
        (" F "@, Some(BannerHotkey::Fader)),
        (" Fader  "@, None),
        (" V "@, Some(BannerHotkey::VizMode)),
        (" B "@, Some(BannerHotkey::VizStyle)),
        (" Viz  "@, None),
        (" I "@, Some(BannerHotkey::Info)),
        (" Info  "@, None),
        (" L "@, Some(BannerHotkey::List)),
        (" List  "@, None),
        (" Y "@, Some(BannerHotkey::Lyrics)),
        (" Lyrics  "@, None),
        (" O "@, Some(BannerHotkey::Open)),
        (" Open  "@, None),
        (" P "@, Some(BannerHotkey::Pick)),
        (" Pick  "@, None),
        (" G "@, Some(BannerHotkey::Shuffle)),
        (" Shuffle  "@, None),
        (" T "@, Some(BannerHotkey::LoopToggle)),
        (" Loop"@, None),
    ]
}

/// Pieces with their texts as characters.
pub open spec fn pieces_view(v: Seq<BannerPiece>) -> Seq<(Seq<char>, Option<BannerHotkey>)> {
    v.map_values(|p: BannerPiece| (p.text@, p.hotkey))
}

fn chip(text: &str, hotkey: BannerHotkey) -> (r: BannerPiece)
    ensures
        r.text@ == text@ && r.hotkey == Some(hotkey),
{
    BannerPiece { text: text.to_string(), hotkey: Some(hotkey) }
}

fn word(text: &str) -> (r: BannerPiece)
    ensures
        r.text@ == text@ && r.hotkey is None,
{
    BannerPiece { text: text.to_string(), hotkey: None }
}

/// The pieces of the banner's line of keys.
pub fn banner_pieces() -> (r: Vec<BannerPiece>)
    ensures
        pieces_view(r@) == banner_line(),
{
    let r = vec![
        chip(" E ", BannerHotkey::Eq),
        word(" EQ  "),
        chip(" X ", BannerHotkey::Fx),
        word(" FX  "),
        chip(" C ", BannerHotkey::Crossfeed),
        word(" Crossfeed  "),
        chip(" F ", BannerHotkey::Fader),
        word(" Fader  "),
        chip(" V ", BannerHotkey::VizMode),
        chip(" B ", BannerHotkey::VizStyle),
        word(" Viz  "),
        chip(" I ", BannerHotkey::Info),
        word(" Info  "),
        chip(" L ", BannerHotkey::List),
        word(" List  "),
        chip(" Y ", BannerHotkey::Lyrics),
        word(" Lyrics  "),
        chip(" O ", BannerHotkey::Open),
        word(" Open  "),
        chip(" P ", BannerHotkey::Pick),
        word(" Pick  "),
        chip(" G ", BannerHotkey::Shuffle),
        word(" Shuffle  "),
        chip(" T ", BannerHotkey::LoopToggle),
        word(" Loop"),
    ];
    assert(pieces_view(r@) =~= banner_line());
    r
}

/// A column further right, at most the last one.
pub open spec fn right_of(x: u16, w: nat) -> u16 {
    if x + w > u16::MAX {
        u16::MAX
    } else {
        (x + w) as u16
    }
}

/// The column behind the first `n` pieces of a line that begins at `x`.
pub open spec fn column_behind(line: Seq<(Seq<char>, Option<BannerHotkey>)>, n: int, x: u16) -> u16
    decreases n,
{
    if n <= 0 {
        x
    } else {
        right_of(column_behind(line, n - 1, x), line[n - 1].0.len())
    }
}

/// The regions of the keys among the first `n` pieces of a line at `y` that
/// begins at `x`.
pub open spec fn regions_of(
    line: Seq<(Seq<char>, Option<BannerHotkey>)>,
    n: int,
    x: u16,
    y: u16,
) -> Seq<(CellRect, BannerHotkey)>
    decreases n,
{
    if n <= 0 {
        Seq::empty()
    } else {
        let front = regions_of(line, n - 1, x, y);
        match line[n - 1].1 {
            Some(hk) => front.push(
                (
                    CellRect {
                        x: column_behind(line, n - 1, x),
                        y,
                        w: line[n - 1].0.len() as u16,
                        h: 1,
                    },
                    hk,
                ),
            ),
            None => front,
        }
    }
}

/// The regions of the keys of a line of pieces, for the mouse.
pub fn banner_regions(pieces: &Vec<BannerPiece>, x: u16, y: u16) -> (r: Vec<(CellRect, BannerHotkey)>)
    requires
        forall|i: int|
            0 <= i < pieces.len() ==> (#[trigger] pieces@[i]).text@.len() <= u16::MAX,
    ensures
        r@ == regions_of(pieces_view(pieces@), pieces.len() as int, x, y),
{
    let mut out: Vec<(CellRect, BannerHotkey)> = Vec::new();
    let ghost line = pieces_view(pieces@);
    let mut cx: u16 = x;
    let mut i: usize = 0;
    while i < pieces.len()
        invariant
            forall|i: int|
                0 <= i < pieces.len() ==> (#[trigger] pieces@[i]).text@.len() <= u16::MAX,
            line == pieces_view(pieces@),
            i <= pieces.len(),
            cx == column_behind(line, i as int, x),
            out@ == regions_of(line, i as int, x, y),
        decreases pieces.len() - i,
    {
        let w: u16 = to_chars(pieces[i].text.as_str()).len() as u16;
        assert(line[i as int] == (pieces@[i as int].text@, pieces@[i as int].hotkey));
        match pieces[i].hotkey {
            Some(hk) => out.push((CellRect { x: cx, y, w, h: 1 }, hk)),
            None => {},
        }
        cx = cx.saturating_add(w);
        i = i + 1;
    }
    out
}

/// The pieces of the banner's line are short.
proof fn lemma_banner_line()
    ensures
        forall|i: int| 0 <= i < banner_line().len() ==> (#[trigger] banner_line()[i]).0.len() <= 12,
{
    reveal_strlit(" E ");
    reveal_strlit(" EQ  ");
    reveal_strlit(" X ");
    reveal_strlit(" FX  ");
    reveal_strlit(" C ");
    reveal_strlit(" Crossfeed  ");
    reveal_strlit(" F ");
    reveal_strlit(" Fader  ");
    reveal_strlit(" V ");
    reveal_strlit(" B ");
    reveal_strlit(" Viz  ");
    reveal_strlit(" I ");
    reveal_strlit(" Info  ");
    reveal_strlit(" L ");
    reveal_strlit(" List  ");
    reveal_strlit(" Y ");
    reveal_strlit(" Lyrics  ");
    reveal_strlit(" O ");
    reveal_strlit(" Open  ");
    reveal_strlit(" P ");
    reveal_strlit(" Pick  ");
    reveal_strlit(" G ");
    reveal_strlit(" Shuffle  ");
    reveal_strlit(" T ");
    reveal_strlit(" Loop");
}

/// The regions of the keys in an area for the banner's keys: in its second row, and none
/// where there is no such row.
pub open spec fn keys_in(x: u16, y: u16, w: u16, h: u16) -> Seq<(CellRect, BannerHotkey)> {
    if h < 2 || w == 0 {
        Seq::empty()
    } else {
        regions_of(
            banner_line(),
            banner_line().len() as int,
            x,
            row_of((CellRect { x, y, w, h }), 1).y,
        )
    }
}

/// Takes the regions of the banner's keys, for the mouse, in place of those it had.
pub fn place_banner_keys(ui: &mut UiState, x: u16, y: u16, w: u16, h: u16)
    ensures
        final(ui)@ == (UiView { regions: keys_in(x, y, w, h), ..old(ui)@ }),
{
    ui.banner_hotkey_regions = if h < 2 || w == 0 {
        Vec::new()
    } else {
        let pieces = banner_pieces();
        proof {
            lemma_banner_line();
            assert forall|i: int| 0 <= i < pieces.len() implies (#[trigger] pieces@[i]).text@.len()
                <= u16::MAX by {
                assert(pieces_view(pieces@)[i].0 == pieces@[i].text@);
            }
            assert(pieces_view(pieces@).len() == pieces.len());
        }
        banner_regions(&pieces, x, row_rect(CellRect { x, y, w, h }, 1).y)
    };
}

/// Every key that is named on the banner can be hit by the mouse: its region
/// stands among the others, one line high and as wide as its text.
pub proof fn law_keys_have_regions(
    line: Seq<(Seq<char>, Option<BannerHotkey>)>,
    n: int,
    x: u16,
    y: u16,
    i: int,
)
    requires
        0 <= i < n <= line.len(),
        line[i].1 is Some,
    ensures
        exists|k: int|
            0 <= k < regions_of(line, n, x, y).len() && (#[trigger] regions_of(line, n, x, y)[k])
                == (
                CellRect { x: column_behind(line, i, x), y, w: line[i].0.len() as u16, h: 1 },
                line[i].1->0,
            ),
    decreases n,
{
    let all = regions_of(line, n, x, y);
    let front = regions_of(line, n - 1, x, y);
    if i == n - 1 {
        assert(all[front.len() as int] == (
            CellRect { x: column_behind(line, i, x), y, w: line[i].0.len() as u16, h: 1 },
            line[i].1->0,
        ));
    } else {
        law_keys_have_regions(line, n - 1, x, y, i);
        let k = choose|k: int|
            0 <= k < front.len() && (#[trigger] front[k]) == (
                CellRect { x: column_behind(line, i, x), y, w: line[i].0.len() as u16, h: 1 },
                line[i].1->0,
            );
        assert(all[k] == front[k]);
    }
}

/// The line at the foot of the screen when a playlist is over.
pub open spec fn idle_label(shuffle: bool, repeat: bool, eq: Seq<char>, fx: Seq<char>, cf: Seq<char>) -> Seq<
    char,
> {
    mode_label(shuffle, repeat) + "  ·  eq:"@ + eq + "  ·  fx:"@ + fx + "  ·  cf:"@ + cf
}

/// The line at the foot of the screen when a playlist is over.
pub fn idle_line(shuffle: bool, repeats: bool, eq_name: &str, fx_name: &str, cf_name: &str) -> (r: String)
    ensures
        r@ == idle_label(shuffle, repeats, eq_name@, fx_name@, cf_name@),
{
    let mut out = String::new();
    push_modes(&mut out, shuffle, repeats);
    assert(out@ =~= mode_label(shuffle, repeats));
    out.append("  ·  eq:");
    out.append(eq_name);
    out.append("  ·  fx:");
    out.append(fx_name);
    out.append("  ·  cf:");
    out.append(cf_name);
    out
}

/// Whether the player stays idle: it neither quits nor has anything to play.
pub fn stays_idle(s: &PlayerState, ui: &UiState) -> (r: bool)
    ensures
        r == (!s.quit && ui@.session_idle),
{
    !s.should_quit() && ui.session_idle
}

/// The colours tell the kinds of files: OGG, AAC, what is kept without loss, WAV, and all others.
pub proof fn law_colors_tell_kinds(ext: Seq<char>)
    ensures
        color_of(ext) is Magenta <==> ext == "ogg"@,
        color_of(ext) is Red <==> ext == "aac"@ || ext == "m4a"@,
        color_of(ext) is Cyan <==> ext == "flac"@ || ext == "alac"@ || ext == "aiff"@ || ext
            == "aif"@,
        color_of(ext) is Yellow <==> ext == "wav"@,
{
    reveal_strlit("mp3");
    reveal_strlit("ogg");
    reveal_strlit("aac");
    reveal_strlit("m4a");
    reveal_strlit("flac");
    reveal_strlit("alac");
    reveal_strlit("aiff");
    reveal_strlit("aif");
    reveal_strlit("wav");
    assert("ogg"@[0] != "aac"@[0]);
    assert("ogg"@[0] != "m4a"@[0]);
    assert("ogg"@.len() != "flac"@.len());
    assert("ogg"@.len() != "alac"@.len());
    assert("ogg"@.len() != "aiff"@.len());
    assert("ogg"@[0] != "aif"@[0]);
    assert("ogg"@[0] != "wav"@[0]);
    assert("ogg"@[0] != "mp3"@[0]);
    assert("aac"@.len() != "flac"@.len());
    assert("aac"@.len() != "alac"@.len());
    assert("aac"@.len() != "aiff"@.len());
    assert("aac"@[1] != "aif"@[1]);
    assert("aac"@[0] != "wav"@[0]);
    assert("aac"@[0] != "mp3"@[0]);
    assert("m4a"@.len() != "flac"@.len());
    assert("m4a"@.len() != "alac"@.len());
    assert("m4a"@.len() != "aiff"@.len());
    assert("m4a"@[0] != "aif"@[0]);
    assert("m4a"@[0] != "wav"@[0]);
    assert("m4a"@[1] != "mp3"@[1]);
    assert("flac"@.len() != "wav"@.len());
    assert("flac"@.len() != "mp3"@.len());
    assert("alac"@.len() != "wav"@.len());
    assert("alac"@.len() != "mp3"@.len());
    assert("aiff"@.len() != "wav"@.len());
    assert("aiff"@.len() != "mp3"@.len());
    assert("aif"@[0] != "wav"@[0]);
    assert("aif"@[0] != "mp3"@[0]);
    assert("wav"@[0] != "mp3"@[0]);
}

/// How far a track has come is its position over its length, at most all of it, and nothing
/// while the length is not known.
pub proof fn law_progress_is_the_part_played(position: Seconds, total: Seconds)
    requires
        position.wf(),
        total.wf(),
    ensures
        ({
            let p = progress_of(position, total);
            let played = position.num * total.den;
            let all = position.den * total.num;
            &&& p.wf()
            &&& total.num == 0 ==> p.num == 0
            &&& total.num > 0 && played <= all ==> p.num == played && p.den == all
            &&& total.num > 0 && played > all ==> p.num == p.den
        }),
{
    assert(0 <= position.num * total.den <= 0xffff_ffff_ffff_ffff * 0xffff_ffff_ffff_ffff)
        by (nonlinear_arith)
        requires
            0 <= position.num <= 0xffff_ffff_ffff_ffff,
            0 <= total.den <= 0xffff_ffff_ffff_ffff,
    ;
    assert(0 <= position.den * total.num <= 0xffff_ffff_ffff_ffff * 0xffff_ffff_ffff_ffff)
        by (nonlinear_arith)
        requires
            0 < position.den <= 0xffff_ffff_ffff_ffff,
            0 <= total.num <= 0xffff_ffff_ffff_ffff,
    ;
    if total.num > 0 {
        assert(position.den * total.num > 0) by (nonlinear_arith)
            requires
                position.den > 0,
                total.num > 0,
        ;
    }
}

/// The steps of a bar are those that are over: no more than the part that was played, and less
/// than one step behind it.
pub proof fn law_steps_are_over(p: Progress, n: int)
    requires
        p.wf(),
        n >= 0,
    ensures
        steps_of(p, n) * p.den <= p.num * n < (steps_of(p, n) + 1) * p.den,
        0 <= steps_of(p, n) <= n,
{
    let d = p.den as int;
    let x = p.num * n;
    assert(0 <= x <= n * d) by (nonlinear_arith)
        requires
            x == p.num * n,
            0 <= p.num <= d,
            n >= 0,
    ;
    vstd::arithmetic::div_mod::lemma_fundamental_div_mod(x, d);
    vstd::arithmetic::div_mod::lemma_mod_bound(x, d);
    vstd::arithmetic::div_mod::lemma_div_pos_is_pos(x, d);
    let q = x / d;
    assert(q * d == d * q && (q + 1) * d == d * q + d) by (nonlinear_arith);
    assert(q <= n) by (nonlinear_arith)
        requires
            q * d <= n * d,
            d > 0,
    ;
}

/// A bar of dots: full characters as far as the steps go, six to each, then one that shows the
/// steps that are left over, then empty ones.
pub proof fn law_bar_of_dots(p: Progress, width: int, i: int)
    requires
        p.wf(),
        0 <= i < width,
    ensures
        ({
            let steps = steps_of(p, width * 6);
            let c = bar(p, width, VizStyle::Dots)[i];
            &&& steps >= i * 6 + 6 ==> c == '⣿'
            &&& steps <= i * 6 ==> c == '⣀'
            &&& steps == i * 6 + 1 ==> c == '⣄'
            &&& steps == i * 6 + 2 ==> c == '⣤'
            &&& steps == i * 6 + 3 ==> c == '⣦'
            &&& steps == i * 6 + 4 ==> c == '⣶'
            &&& steps == i * 6 + 5 ==> c == '⣷'
        }),
{
    law_steps_are_over(p, width * 6);
}

/// A bar of blocks: full characters as far as the steps go, eight to each, then one that shows
/// the steps that are left over, then empty ones.
pub proof fn law_bar_of_blocks(p: Progress, width: int, i: int)
    requires
        p.wf(),
        0 <= i < width,
    ensures
        ({
            let steps = steps_of(p, width * 8);
            let c = bar(p, width, VizStyle::Bars)[i];
            &&& steps >= i * 8 + 8 ==> c == '█'
            &&& steps <= i * 8 + 1 ==> c == '▏'
            &&& steps == i * 8 + 2 ==> c == '▎'
            &&& steps == i * 8 + 3 ==> c == '▍'
            &&& steps == i * 8 + 4 ==> c == '▌'
            &&& steps == i * 8 + 5 ==> c == '▋'
            &&& steps == i * 8 + 6 ==> c == '▊'
            &&& steps == i * 8 + 7 ==> c == '▉'
        }),
{
    law_steps_are_over(p, width * 8);
}

/// A name has the room that the rest of its line leaves, with six columns for what stands
/// between, but never less than four characters and never more than thirty-five; one that is
/// too long loses its end to an ellipsis.
pub proof fn law_name_has_its_room(term_w: nat, label: nat, info: nat, name: Seq<char>)
    ensures
        ({
            let room = name_room(term_w, label, info);
            let shown = shortened_name(name, room);
            &&& 4 <= room <= 35
            &&& 4 < room < 35 ==> term_w == label + info + 6 + room
            &&& term_w >= label + info + 41 ==> room == 35
            &&& term_w <= label + info + 10 ==> room == 4
            &&& name.len() > room ==> shown.len() == room && shown.last() == '…'
                && shown.drop_last() == name.take(room - 1)
        }),
{
    let room = name_room(term_w, label, info);
    if name.len() > room {
        assert(shortened_name(name, room).drop_last() =~= name.take(room - 1));
    }
}

/// The balance is shown with its side and its size, and not at all in the middle.
pub proof fn law_balance_is_shown_by_side(n: nat)
    requires
        n > 0,
    ensures
        balance_label(n as int) == seq![' ', 'B', 'A', 'L', ':', 'R'] + decimal(n) + seq!['%'],
        balance_label(0 - n) == seq![' ', 'B', 'A', 'L', ':', 'L'] + decimal(n) + seq!['%'],
        balance_label(0).len() == 0,
{
    reveal_strlit(" BAL:R");
    reveal_strlit(" BAL:L");
    reveal_strlit("%");
    assert(" BAL:R"@ =~= seq![' ', 'B', 'A', 'L', ':', 'R']);
    assert(" BAL:L"@ =~= seq![' ', 'B', 'A', 'L', ':', 'L']);
    assert("%"@ =~= seq!['%']);
}

/// How tracks follow each other is told in front of the slash, and whether they begin again
/// behind it.
pub proof fn law_modes_are_told(repeat: bool, shuffle: bool)
    ensures
        mode_label(true, repeat).take(5) == seq!['s', 'h', 'u', 'f', '/'],
        mode_label(false, repeat).take(4) == seq!['s', 'e', 'q', '/'],
        mode_label(shuffle, true).skip(mode_label(shuffle, true).len() - 5) == seq![
            '/',
            'l',
            'o',
            'o',
            'p',
        ],
        mode_label(shuffle, false).skip(mode_label(shuffle, false).len() - 5) == seq![
            '/',
            'o',
            'n',
            'c',
            'e',
        ],
{
    reveal_strlit("shuf");
    reveal_strlit("seq");
    reveal_strlit("/");
    reveal_strlit("loop");
    reveal_strlit("once");
    assert(mode_label(true, repeat).take(5) =~= seq!['s', 'h', 'u', 'f', '/']);
    assert(mode_label(false, repeat).take(4) =~= seq!['s', 'e', 'q', '/']);
    assert(mode_label(shuffle, true).skip(mode_label(shuffle, true).len() - 5) =~= seq![
        '/',
        'l',
        'o',
        'o',
        'p',
    ]);
    assert(mode_label(shuffle, false).skip(mode_label(shuffle, false).len() - 5) =~= seq![
        '/',
        'o',
        'n',
        'c',
        'e',
    ]);
}

/// Presets are shown on the player's line, each under its own name, unless they are the usual
/// ones.
pub proof fn law_presets_are_shown_by_name(
    s: PlayerState,
    shuffle: bool,
    repeat: bool,
    width: int,
    name: Seq<char>,
)
    ensures
        ({
            let plain = status_front(s, shuffle, repeat, width, "Flat"@, "None"@, "Off"@);
            let eq = status_front(s, shuffle, repeat, width, name, "None"@, "Off"@);
            let fx = status_front(s, shuffle, repeat, width, "Flat"@, name, "Off"@);
            let cf = status_front(s, shuffle, repeat, width, "Flat"@, "None"@, name);
            &&& name != "Flat"@ ==> eq == plain + seq!['e', 'q', ':'] + name + seq![' ']
            &&& name != "None"@ ==> fx == plain + seq!['f', 'x', ':'] + name + seq![' ']
            &&& name != "Off"@ ==> cf == plain + seq!['c', 'f', ':'] + name + seq![' ']
        }),
{
    reveal_strlit(" eq:");
    reveal_strlit(" fx:");
    reveal_strlit(" cf:");
    reveal_strlit(" ");
    let plain = status_front(s, shuffle, repeat, width, "Flat"@, "None"@, "Off"@);
    let eq = status_front(s, shuffle, repeat, width, name, "None"@, "Off"@);
    let fx = status_front(s, shuffle, repeat, width, "Flat"@, name, "Off"@);
    let cf = status_front(s, shuffle, repeat, width, "Flat"@, "None"@, name);
    if name != "Flat"@ {
        assert(eq =~= plain + seq!['e', 'q', ':'] + name + seq![' ']);
    }
    if name != "None"@ {
        assert(fx =~= plain + seq!['f', 'x', ':'] + name + seq![' ']);
    }
    if name != "Off"@ {
        assert(cf =~= plain + seq!['c', 'f', ':'] + name + seq![' ']);
    }
}

/// The player's line begins with how much was played and how long the track is, goes on with
/// the bar of that, and ends with the modes and the volume.
pub proof fn law_line_tells_time_and_volume(
    s: PlayerState,
    shuffle: bool,
    repeat: bool,
    width: int,
)
    requires
        s.output_rate > 0 && s.sample_rate > 0,
    ensures
        ({
            let played = clock((s.samples_played / s.output_rate) as nat);
            let total = clock((s.total_samples / s.sample_rate) as nat);
            let done = progress_of(
                Seconds { num: s.samples_played, den: s.output_rate },
                Seconds { num: s.total_samples, den: s.sample_rate },
            );
            status_front(s, shuffle, repeat, width, "Flat"@, "None"@, "Off"@) == seq![' ', '[']
                + played + seq!['/'] + total + seq![']', ' '] + bar(
                done,
                width,
                VizStyle::of(s.viz_style),
            ) + seq![' '] + mode_label(shuffle, repeat) + seq![' ', 'v', 'o', 'l', ':'] + decimal(
                s.volume as nat,
            ) + seq!['%', ' ']
        }),
{
    reveal_strlit(" [");
    reveal_strlit("/");
    reveal_strlit("] ");
    reveal_strlit(" ");
    reveal_strlit(" vol:");
    reveal_strlit("%");
    assert(" ["@ =~= seq![' ', '[']);
    assert("/"@ =~= seq!['/']);
    assert("] "@ =~= seq![']', ' ']);
    assert(" "@ =~= seq![' ']);
    assert(" vol:"@ =~= seq![' ', 'v', 'o', 'l', ':']);
    assert("%"@ =~= seq!['%']);
    let front = " ["@ + clock(s.position().floor()) + "/"@ + clock(s.duration().floor()) + "] "@
        + bar(
        progress_of(s.position(), s.duration()),
        width,
        VizStyle::of(s.viz_style),
    ) + " "@ + mode_label(shuffle, repeat) + " vol:"@ + decimal(s.volume as nat);
    assert(status_front(s, shuffle, repeat, width, "Flat"@, "None"@, "Off"@) =~= front + seq![
        '%',
        ' ',
    ]);
}

/// Behind the dot the line tells where levels are measured, how full the ring is, and what the
/// keys of the visualization lead to: the next mode, and the other style.
pub proof fn law_line_tells_what_keys_do(s: PlayerState, buffer: nat, stats: Seq<char>)
    ensures
        ({
            let front = balance_label(s.balance as int) + (if s.pre_fader {
                " pre buf:"@
            } else {
                " post buf:"@
            }) + decimal(buffer) + seq!['%'] + stats + seq![' ', '{', 'V', '}', ':'];
            let end = if s.viz_style == 1 {
                seq![' ', '{', 'B', '}', ':', 'B', 'a', 'r', 's']
            } else {
                seq![' ', '{', 'B', '}', ':', 'D', 'o', 't', 's']
            };
            let line = status_back(s, buffer, stats);
            &&& s.viz_mode == 0 ==> line == front + seq!['V', 'U'] + end
            &&& s.viz_mode == 1 ==> line == front + seq!['S', 'p', 'e', 'c', 'H'] + end
            &&& s.viz_mode == 2 ==> line == front + seq!['S', 'p', 'e', 'c', 'V'] + end
            &&& s.viz_mode == 3 ==> line == front + seq!['O', 'f', 'f'] + end
        }),
{
    reveal_strlit(" ");
    reveal_strlit("pre");
    reveal_strlit("post");
    reveal_strlit(" buf:");
    reveal_strlit(" pre buf:");
    reveal_strlit(" post buf:");
    reveal_strlit("%");
    reveal_strlit(" {V}:");
    reveal_strlit(" {B}:");
    reveal_strlit("Bars");
    reveal_strlit("Dots");
    reveal_strlit("VU");
    reveal_strlit("SpecH");
    reveal_strlit("SpecV");
    reveal_strlit("Off");
    assert(" {V}:"@ =~= seq![' ', '{', 'V', '}', ':']);
    assert("VU"@ =~= seq!['V', 'U']);
    assert("SpecH"@ =~= seq!['S', 'p', 'e', 'c', 'H']);
    assert("SpecV"@ =~= seq!['S', 'p', 'e', 'c', 'V']);
    assert("Off"@ =~= seq!['O', 'f', 'f']);
    assert("%"@ =~= seq!['%']);
    let a = balance_label(s.balance as int);
    let how = if s.pre_fader {
        "pre"@
    } else {
        "post"@
    };
    let both = if s.pre_fader {
        " pre buf:"@
    } else {
        " post buf:"@
    };
    assert(a + " "@ + how + " buf:"@ =~= a + both);
    let style = match VizStyle::of(s.viz_style) {
        VizStyle::Dots => "Bars"@,
        VizStyle::Bars => "Dots"@,
    };
    let end = if s.viz_style == 1 {
        seq![' ', '{', 'B', '}', ':', 'B', 'a', 'r', 's']
    } else {
        seq![' ', '{', 'B', '}', ':', 'D', 'o', 't', 's']
    };
    assert(" {B}:"@ + style =~= end);
    let front = a + both + decimal(buffer) + "%"@ + stats + " {V}:"@ + viz_label(
        VizMode::of(s.viz_mode).after(),
    );
    assert(front + " {B}:"@ + style =~= front + end);
}

/// A list has what the header, the visualization and two more lines leave of the body, and
/// always a line.
pub proof fn law_list_has_what_is_left(body: nat, taken: nat)
    ensures
        body >= taken + 3 ==> rows_left(body, taken) + taken + 2 == body,
        body < taken + 3 ==> rows_left(body, taken) == 1,
{
}

/// A row of an area is so many lines below its top, as wide as the area, and one line high
/// where the area reaches it.
pub proof fn law_rows_lie_below_the_top(r: CellRect, row: u16)
    ensures
        row_of(r, row).x == r.x && row_of(r, row).w == r.w,
        r.y + row <= u16::MAX ==> row_of(r, row).y == r.y + row,
        row < r.h ==> row_of(r, row).h == 1,
        row >= r.h ==> row_of(r, row).h == 0,
{
}

/// The list shows the whole playlist in order where nothing is searched for, else what was
/// found.
pub proof fn law_list_shows_all_or_what_was_found(u: UiView, len: nat)
    requires
        len <= usize::MAX,
    ensures
        u.filtered.len() > 0 ==> listed(u, len) == u.filtered,
        u.filtered.len() == 0 && u.input is Normal ==> listed(u, len).len() == len && forall|i: int|
            0 <= i < len ==> #[trigger] listed(u, len)[i] == i,
        u.filtered.len() == 0 && (u.input matches InputView::Search(q) && q.len() > 0) ==> listed(
            u,
            len,
        ).len() == 0,
{
}

/// Scrolling moves no more than the cursor needs: a list that fits begins with its first line,
/// and one whose cursor is four lines away from the edges stays where it is. In more than eight
/// rows the cursor then keeps that far from an edge, unless the list itself ends there.
pub proof fn law_list_scrolls_with_the_cursor(cursor: int, offset: int, total: int, rows: int)
    requires
        rows > 8,
        0 <= cursor < total,
        0 <= offset,
    ensures
        ({
            let top = first_line(cursor, offset, total, rows);
            &&& total <= rows ==> top == 0
            &&& 0 <= top && (total > rows ==> top + rows <= total)
            &&& offset + 4 <= cursor < offset + rows - 4 && offset + rows <= total ==> top == offset
            &&& top == 0 || top + rows == total || top + 4 <= cursor <= top + rows - 5
            &&& top <= cursor < top + rows
        }),
{
}

/// As many lines are shown as there are rows, as far as the list goes.
pub proof fn law_rows_are_filled(total: nat, offset: nat, rows: nat)
    ensures
        total >= offset + rows ==> lines_shown(total, offset, rows) == rows,
        offset <= total < offset + rows ==> lines_shown(total, offset, rows) == total - offset,
        total < offset ==> lines_shown(total, offset, rows) == 0,
{
}

/// A row of the list shows the number of its track, from one on, at the end of four columns,
/// and marks the track that plays and the line with the cursor.
pub proof fn law_rows_tell_their_tracks(
    row: ListRow,
    u: UiView,
    entries: Seq<Option<CachedMeta>>,
    paths: Seq<Seq<char>>,
    track: usize,
    line: int,
)
    requires
        is_row(row, u, entries, paths, track, line),
    ensures
        decimal((track + 1) as nat).is_suffix_of(row.number@),
        row.number@.len() >= 4,
        row.playing <==> track == u.current,
        row.cursor <==> line == u.cursor,
        0 <= track < entries.len() && entries[track as int] is Some ==> row.name@
            == entries[track as int]->0.display@,
{
    crate::text::law_filling_stands_in_front(decimal((track + 1) as nat), 4, ' ');
}

/// Under the list stands what is typed; else what is told.
pub proof fn law_footer_shows_what_is_typed(u: UiView, q: Seq<char>, m: Seq<char>)
    ensures
        list_footer(UiView { input: InputView::Search(q), ..u }, Some(m)) == seq!['/', ' '] + q
            + seq!['_'],
        list_footer(UiView { input: InputView::SavePlaylist(q), ..u }, Some(m))
            == "Save playlist as: "@ + q + seq!['_'],
        list_footer(UiView { input: InputView::Normal, ..u }, Some(m)) == m,
        list_footer(UiView { input: InputView::Search(q), ..u }, None) == list_footer(
            UiView { input: InputView::Search(q), ..u },
            Some(m),
        ),
{
    reveal_strlit("/ ");
    reveal_strlit("_");
    assert("/ "@ =~= seq!['/', ' ']);
    assert("_"@ =~= seq!['_']);
}

/// Lyrics in time stand with the line that is sung in the middle of the rows, as far as they
/// go, unless they were scrolled by hand; only their place changes.
pub proof fn law_sung_line_stands_in_the_middle(u: UiView, l: LyricsView, position: i64, rows: nat)
    requires
        u.lyrics == Some(l),
        l.count() <= usize::MAX,
    ensures
        ({
            let v = lyrics_scrolled(u, position, rows);
            &&& v == UiView { lyrics_scroll: v.lyrics_scroll, ..u }
            &&& l.count() <= rows ==> v.lyrics_scroll == 0
            &&& l.count() > rows ==> v.lyrics_scroll + rows <= l.count()
            &&& (l.line_at(position) is None || !u.lyrics_auto_scroll || l is Plain)
                && u.lyrics_scroll + rows <= l.count() ==> v.lyrics_scroll == u.lyrics_scroll
            &&& l is Synced && u.lyrics_auto_scroll ==> (l.line_at(position) matches Some(line) ==> {
                &&& line >= rows / 2 && line - rows / 2 + rows <= l.count() ==> v.lyrics_scroll
                    == line - rows / 2
                &&& line < rows / 2 ==> v.lyrics_scroll == 0
            })
        }),
        lyrics_scrolled(UiView { lyrics: None, ..u }, position, rows) == (UiView {
            lyrics: None,
            ..u
        }),
{
}

/// A row of lyrics shows its line two columns in, and marks the one that is sung.
pub proof fn law_rows_show_lyrics(row: LyricRow, l: LyricsView, line: int, position: i64)
    requires
        is_lyric_row(row, l, line, position),
        line >= 0,
    ensures
        line < l.count() ==> row.text@ == seq![' ', ' '] + l.line(line),
        line < l.count() ==> (row.current <==> l.line_at(position) == Some(line)),
        line >= l.count() ==> row.text@.len() == 0 && !row.current,
{
    reveal_strlit("  ");
    assert("  "@ =~= seq![' ', ' ']);
}

/// Offsets are shown in seconds with their sign: whole ones, and halves between them.
pub proof fn law_offsets_are_shown_in_seconds(n: nat)
    ensures
        offset_label((2 * n) as int) == seq!['+'] + decimal(n) + seq!['.', '0'],
        offset_label((2 * n + 1) as int) == seq!['+'] + decimal(n) + seq!['.', '5'],
        n > 0 ==> offset_label(-2 * n) == seq!['-'] + decimal(n) + seq!['.', '0'],
        offset_label(-2 * n - 1) == seq!['-'] + decimal(n) + seq!['.', '5'],
{
    reveal_strlit("+");
    reveal_strlit("-");
    reveal_strlit(".0");
    reveal_strlit(".5");
    assert("+"@ =~= seq!['+']);
    assert("-"@ =~= seq!['-']);
    assert(".0"@ =~= seq!['.', '0']);
    assert(".5"@ =~= seq!['.', '5']);
}

/// Under the lyrics stands their offset where those in time have one, and only there.
pub proof fn law_footer_shows_the_offset(u: UiView, lines: LyricsView)
    requires
        lines is Synced,
    ensures
        ({
            let at = |half: i64| lyrics_footer_label(
                UiView { lyrics: Some(lines), lyrics_offset: half, ..u },
            );
            &&& u.lyrics_offset != 0 ==> at(u.lyrics_offset) == at(0) + "  offset:"@
                + offset_label(u.lyrics_offset as int) + seq!['s']
            &&& lyrics_footer_label(UiView { lyrics: None, ..u }) == "[Y] close  [W/S] scroll"@
            &&& at(0) == "[Y] close  [W/S] scroll  [A/D] sync"@
        }),
{
    reveal_strlit("[Y] close  [W/S] scroll");
    reveal_strlit("  [A/D] sync");
    reveal_strlit("[Y] close  [W/S] scroll  [A/D] sync");
    reveal_strlit("s");
    assert("s"@ =~= seq!['s']);
    let a = lyrics_footer_label(UiView { lyrics: Some(lines), lyrics_offset: 0, ..u });
    assert(a =~= "[Y] close  [W/S] scroll  [A/D] sync"@);
    assert(lyrics_footer_label(UiView { lyrics: None, ..u }) =~= "[Y] close  [W/S] scroll"@);
    if u.lyrics_offset != 0 {
        let b = lyrics_footer_label(
            UiView { lyrics: Some(lines), lyrics_offset: u.lyrics_offset, ..u },
        );
        assert(b =~= a + "  offset:"@ + offset_label(u.lyrics_offset as int) + seq!['s']);
    }
}

/// Each key of the banner stands under its own letter, with a column on either side.
pub proof fn law_keys_stand_under_their_letters(i: int)
    requires
        0 <= i < banner_line().len(),
    ensures
        banner_line()[i].1 matches Some(hk) ==> banner_line()[i].0 == seq![
            ' ',
            match hk {
                BannerHotkey::Eq => 'E',
                BannerHotkey::Fx => 'X',
                BannerHotkey::Crossfeed => 'C',
                BannerHotkey::Fader => 'F',
                BannerHotkey::VizMode => 'V',
                BannerHotkey::VizStyle => 'B',
                BannerHotkey::Info => 'I',
                BannerHotkey::List => 'L',
                BannerHotkey::Lyrics => 'Y',
                BannerHotkey::Open => 'O',
                BannerHotkey::Pick => 'P',
                BannerHotkey::Shuffle => 'G',
                BannerHotkey::LoopToggle => 'T',
            },
            ' ',
        ],
{
    reveal_strlit(" E ");
    assert(" E "@ =~= seq![' ', 'E', ' ']);
    reveal_strlit(" X ");
    assert(" X "@ =~= seq![' ', 'X', ' ']);
    reveal_strlit(" C ");
    assert(" C "@ =~= seq![' ', 'C', ' ']);
    reveal_strlit(" F ");
    assert(" F "@ =~= seq![' ', 'F', ' ']);
    reveal_strlit(" V ");
    assert(" V "@ =~= seq![' ', 'V', ' ']);
    reveal_strlit(" B ");
    assert(" B "@ =~= seq![' ', 'B', ' ']);
    reveal_strlit(" I ");
    assert(" I "@ =~= seq![' ', 'I', ' ']);
    reveal_strlit(" L ");
    assert(" L "@ =~= seq![' ', 'L', ' ']);
    reveal_strlit(" Y ");
    assert(" Y "@ =~= seq![' ', 'Y', ' ']);
    reveal_strlit(" O ");
    assert(" O "@ =~= seq![' ', 'O', ' ']);
    reveal_strlit(" P ");
    assert(" P "@ =~= seq![' ', 'P', ' ']);
    reveal_strlit(" G ");
    assert(" G "@ =~= seq![' ', 'G', ' ']);
    reveal_strlit(" T ");
    assert(" T "@ =~= seq![' ', 'T', ' ']);
}

/// The keys of the banner lie side by side on one line, from its left edge on.
pub proof fn law_keys_lie_side_by_side(
    line: Seq<(Seq<char>, Option<BannerHotkey>)>,
    n: int,
    x: u16,
    y: u16,
    k: int,
)
    requires
        0 <= n <= line.len(),
        0 <= k < regions_of(line, n, x, y).len(),
    ensures
        column_behind(line, 0, x) == x,
        n < line.len() && column_behind(line, n, x) + line[n].0.len() <= u16::MAX ==> column_behind(
            line,
            n + 1,
            x,
        ) == column_behind(line, n, x) + line[n].0.len(),
        regions_of(line, n, x, y)[k].0.y == y && regions_of(line, n, x, y)[k].0.h == 1,
        column_behind(line, n, x) >= x,
    decreases n,
{
    if n > 0 {
        lemma_column_grows(line, n, x);
        let front = regions_of(line, n - 1, x, y);
        if k < front.len() {
            law_keys_lie_side_by_side(line, n - 1, x, y, k);
        }
    }
}

proof fn lemma_column_grows(line: Seq<(Seq<char>, Option<BannerHotkey>)>, n: int, x: u16)
    ensures
        column_behind(line, n, x) >= x,
    decreases n,
{
    if n > 0 {
        lemma_column_grows(line, n - 1, x);
    }
}

/// The banner's keys can be hit on the second row of their area, where there is one.
pub proof fn law_keys_are_on_the_second_row(x: u16, y: u16, w: u16, h: u16, k: int)
    requires
        y < u16::MAX,
        0 <= k < keys_in(x, y, w, h).len(),
    ensures
        h >= 2 && w > 0,
        keys_in(x, y, w, h)[k].0.y == y + 1,
        keys_in(x, y, w, h)[k].0.h == 1,
{
    law_keys_lie_side_by_side(banner_line(), banner_line().len() as int, x, (y + 1) as u16, k);
}

/// When a playlist is over, the foot of the screen tells the modes and the three presets.
pub proof fn law_idle_line_tells_presets(
    shuffle: bool,
    repeat: bool,
    eq: Seq<char>,
    fx: Seq<char>,
    cf: Seq<char>,
)
    ensures
        idle_label(shuffle, repeat, eq, fx, cf) == mode_label(shuffle, repeat) + seq![
            ' ',
            ' ',
            '·',
            ' ',
            ' ',
            'e',
            'q',
            ':',
        ] + eq + seq![' ', ' ', '·', ' ', ' ', 'f', 'x', ':'] + fx + seq![
            ' ',
            ' ',
            '·',
            ' ',
            ' ',
            'c',
            'f',
            ':',
        ] + cf,
{
    reveal_strlit("  ·  eq:");
    reveal_strlit("  ·  fx:");
    reveal_strlit("  ·  cf:");
    assert("  ·  eq:"@ =~= seq![' ', ' ', '·', ' ', ' ', 'e', 'q', ':']);
    assert("  ·  fx:"@ =~= seq![' ', ' ', '·', ' ', ' ', 'f', 'x', ':']);
    assert("  ·  cf:"@ =~= seq![' ', ' ', '·', ' ', ' ', 'c', 'f', ':']);
}

/// The number of a track stands in brackets with that of all tracks.
pub proof fn law_tracks_are_numbered(track: nat, total: nat)
    ensures
        number_label(track, total) == seq!['['] + decimal(track) + seq!['/'] + decimal(total)
            + seq![']', ' '],
{
    reveal_strlit("[");
    reveal_strlit("/");
    reveal_strlit("] ");
    assert("["@ =~= seq!['[']);
    assert("/"@ =~= seq!['/']);
    assert("] "@ =~= seq![']', ' ']);
}

} // verus!
