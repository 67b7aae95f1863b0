//! Text as sequences of characters: the operations on strings that the rest of
//! the library builds on, each with an exact meaning over `Seq<char>`.
use vstd::prelude::*;

verus! {

/// `String::push` appends one character.
pub assume_specification[ String::push ](s: &mut String, c: char)
    ensures
        final(s)@ == old(s)@.push(c),
;

/// `String::pop` takes the last character off and hands it back; an empty
/// string stays empty and gives nothing.
pub assume_specification[ String::pop ](s: &mut String) -> (r: Option<char>)
    ensures
        old(s)@.len() == 0 ==> r is None && final(s)@ == old(s)@,
        old(s)@.len() > 0 ==> r == Some(old(s)@.last()) && final(s)@ == old(s)@.drop_last(),
;

/// The characters with the Unicode property `White_Space`.
pub open spec fn is_space(c: char) -> bool {
    ||| '\u{9}' <= c <= '\u{d}'
    ||| c == '\u{20}'
    ||| c == '\u{85}'
    ||| c == '\u{a0}'
    ||| c == '\u{1680}'
    ||| '\u{2000}' <= c <= '\u{200a}'
    ||| c == '\u{2028}'
    ||| c == '\u{2029}'
    ||| c == '\u{202f}'
    ||| c == '\u{205f}'
    ||| c == '\u{3000}'
}

/// `char::is_whitespace` holds of exactly the characters with the Unicode
/// property `White_Space`.
pub assume_specification[ char::is_whitespace ](c: char) -> (r: bool)
    ensures
        r == is_space(c),
;

/// What `str::to_lowercase` makes of a text.
pub uninterp spec fn lowercased(s: Seq<char>) -> Seq<char>;

/// An ASCII capital letter as its small letter, any other character as it is.
pub open spec fn ascii_lower(c: char) -> char {
    if 'A' <= c <= 'Z' {
        ((c as u32 + 32) as u32) as char
    } else {
        c
    }
}

/// A text of ASCII characters only.
pub open spec fn all_ascii(s: Seq<char>) -> bool {
    forall|i: int| 0 <= i < s.len() ==> (#[trigger] s[i] as u32) < 128
}

/// `str::to_lowercase` is a function of the text alone; on a text of ASCII
/// characters it maps each capital letter to its small letter and keeps the rest.
pub assume_specification[ str::to_lowercase ](s: &str) -> (r: String)
    ensures
        r@ == lowercased(s@),
        all_ascii(s@) ==> r@ == s@.map_values(|c: char| ascii_lower(c)),
;

/// The texts of a list of strings.
pub open spec fn texts(v: Seq<String>) -> Seq<Seq<char>> {
    v.map_values(|s: String| s@)
}

/// The characters of a string, in order.
pub fn to_chars(s: &str) -> (r: Vec<char>)
    ensures
        r@ == s@,
{
    let mut out: Vec<char> = Vec::new();
    for c in it: s.chars()
        invariant
            out@ == it.seq().take(it.index() as int),
            it.seq() == s@,
    {
        out.push(c);
    }
    out
}

/// The string made of the characters `from..to` of a list.
pub fn string_of(v: &Vec<char>, from: usize, to: usize) -> (r: String)
    requires
        from <= to <= v.len(),
    ensures
        r@ == v@.subrange(from as int, to as int),
{
    let mut out = String::new();
    let mut i: usize = from;
    while i < to
        invariant
            from <= i <= to <= v.len(),
            out@ == v@.subrange(from as int, i as int),
        decreases to - i,
    {
        out.push(v[i]);
        i = i + 1;
        assert(v@.subrange(from as int, i as int) == v@.subrange(from as int, i - 1).push(v@[i - 1]));
    }
    out
}

/// `==` on strings compares their texts.
pub assume_specification[ <str as PartialEq>::eq ](a: &str, b: &str) -> (r: bool)
    ensures
        r == (a@ == b@),
;

/// Whether two strings hold the same text.
pub fn same(a: &str, b: &str) -> (r: bool)
    ensures
        r == (a@ == b@),
{
    *a == *b
}

/// A text without the white space in front.
pub open spec fn trim_start(s: Seq<char>) -> Seq<char>
    decreases s.len(),
{
    if s.len() > 0 && is_space(s[0]) {
        trim_start(s.drop_first())
    } else {
        s
    }
}

/// A text without the white space at its end.
pub open spec fn trim_end(s: Seq<char>) -> Seq<char>
    decreases s.len(),
{
    if s.len() > 0 && is_space(s.last()) {
        trim_end(s.drop_last())
    } else {
        s
    }
}

/// A text without white space at either end.
pub open spec fn trimmed(s: Seq<char>) -> Seq<char> {
    trim_end(trim_start(s))
}

/// Removes the white space at both ends.
pub fn trim(s: &str) -> (r: String)
    ensures
        r@ == trimmed(s@),
{
    let v = to_chars(s);
    let mut from: usize = 0;
    assert(v@.skip(0) == v@);
    while from < v.len() && v[from].is_whitespace()
        invariant
            v@ == s@,
            from <= v.len(),
            trim_start(v@.skip(from as int)) == trim_start(s@),
        decreases v.len() - from,
    {
        assert(v@.skip(from as int).drop_first() == v@.skip(from + 1));
        from = from + 1;
    }
    let mut to: usize = v.len();
    assert(v@.subrange(from as int, to as int) == v@.skip(from as int));
    while to > from && v[to - 1].is_whitespace()
        invariant
            v@ == s@,
            from <= to <= v.len(),
            trim_end(v@.subrange(from as int, to as int)) == trimmed(s@),
        decreases to,
    {
        assert(v@.subrange(from as int, to as int).drop_last() == v@.subrange(
            from as int,
            to - 1,
        ));
        to = to - 1;
    }
    string_of(&v, from, to)
}

/// The position of the first `c`, or the length of the text where it has none.
pub open spec fn first_at(s: Seq<char>, c: char) -> int
    decreases s.len(),
{
    if s.len() == 0 || s[0] == c {
        0
    } else {
        1 + first_at(s.drop_first(), c)
    }
}

/// `first_at` is the only position with `c` on it and no `c` before it.
pub proof fn lemma_first_at(s: Seq<char>, c: char)
    ensures
        0 <= first_at(s, c) <= s.len(),
        first_at(s, c) < s.len() ==> s[first_at(s, c)] == c,
        forall|j: int| 0 <= j < first_at(s, c) ==> s[j] != c,
        s.contains(c) <==> first_at(s, c) < s.len(),
    decreases s.len(),
{
    if s.len() > 0 && s[0] != c {
        let t = s.drop_first();
        lemma_first_at(t, c);
        assert forall|j: int| 0 <= j < first_at(s, c) implies s[j] != c by {
            if j > 0 {
                assert(s[j] == t[j - 1]);
            }
        }
        if s.contains(c) {
            let j = choose|j: int| 0 <= j < s.len() && s[j] == c;
            assert(t[j - 1] == c);
        }
    }
}

/// The position of the first `c` at or behind `from`, or the length.
pub fn find_from(v: &Vec<char>, from: usize, c: char) -> (r: usize)
    requires
        from <= v.len(),
    ensures
        from <= r <= v.len(),
        r == from + first_at(v@.skip(from as int), c),
        r < v.len() ==> v@[r as int] == c,
        forall|j: int| from <= j < r ==> v@[j] != c,
{
    let mut i: usize = from;
    while i < v.len() && v[i] != c
        invariant
            from <= i <= v.len(),
            forall|j: int| from <= j < i ==> v@[j] != c,
        decreases v.len() - i,
    {
        i = i + 1;
    }
    proof {
        let t = v@.skip(from as int);
        let k = first_at(t, c);
        lemma_first_at(t, c);
        if k < i - from {
            assert(v@[from + k] == t[k]);
        }
        if k > i - from {
            assert(v@[i as int] == t[i - from]);
        }
    }
    i
}

/// A text without one carriage return at its end.
pub open spec fn without_cr(s: Seq<char>) -> Seq<char> {
    if s.len() > 0 && s.last() == '\r' {
        s.drop_last()
    } else {
        s
    }
}

/// The lines of a text: they end at a line feed, with or without a carriage
/// return in front of it; the last may lack its end.
pub open spec fn lines_of(s: Seq<char>) -> Seq<Seq<char>>
    decreases s.len(),
{
    let k = first_at(s, '\n');
    proof {
        lemma_first_at(s, '\n');
    }
    if s.len() == 0 {
        Seq::empty()
    } else if k == s.len() {
        seq![s]
    } else {
        seq![without_cr(s.take(k))] + lines_of(s.skip(k + 1))
    }
}

/// Splits a text into its lines.
pub fn lines(raw: &str) -> (r: Vec<String>)
    ensures
        texts(r@) == lines_of(raw@),
{
    let v = to_chars(raw);
    let mut out: Vec<String> = Vec::new();
    let mut start: usize = 0;
    assert(v@.skip(0) == v@);
    assert(texts(out@) + lines_of(v@) == lines_of(v@));
    while start < v.len()
        invariant
            v@ == raw@,
            start <= v.len(),
            texts(out@) + lines_of(v@.skip(start as int)) == lines_of(raw@),
        decreases v.len() - start,
    {
        let ghost rest = v@.skip(start as int);
        let end = find_from(&v, start, '\n');
        let ghost before = texts(out@);
        proof {
            lemma_first_at(rest, '\n');
        }
        if end == v.len() {
            let line = string_of(&v, start, end);
            assert(line@ == rest);
            out.push(line);
            assert(texts(out@) == before.push(rest));
            assert(texts(out@) + lines_of(v@.skip(end as int)) == before + lines_of(rest));
            start = end;
        } else {
            let stop: usize = if end > start && v[end - 1] == '\r' {
                end - 1
            } else {
                end
            };
            let line = string_of(&v, start, stop);
            assert(line@ == without_cr(rest.take(end - start)));
            out.push(line);
            assert(texts(out@) == before.push(line@));
            assert(rest.skip(end - start + 1) == v@.skip(end + 1));
            assert(lines_of(rest) == seq![line@] + lines_of(v@.skip(end + 1)));
            assert(texts(out@) + lines_of(v@.skip(end + 1)) == before + lines_of(rest));
            start = end + 1;
        }
    }
    assert(texts(out@) + lines_of(v@.skip(start as int)) == texts(out@));
    out
}

/// Whether `part` stands somewhere in `s`.
pub open spec fn holds(s: Seq<char>, part: Seq<char>) -> bool {
    exists|i: int| occurs_at(s, part, i)
}

/// Whether `part` stands in `s` at position `i`.
pub open spec fn occurs_at(s: Seq<char>, part: Seq<char>, i: int) -> bool {
    0 <= i && i + part.len() <= s.len() && s.subrange(i, i + part.len()) == part
}

/// Whether `part` stands in `v` at position `at`.
fn matches_at(v: &Vec<char>, at: usize, part: &Vec<char>) -> (r: bool)
    requires
        at + part.len() <= v.len(),
    ensures
        r == occurs_at(v@, part@, at as int),
{
    let mut j: usize = 0;
    while j < part.len()
        invariant
            j <= part.len(),
            at + part.len() <= v.len(),
            forall|k: int| 0 <= k < j ==> v@[at + k] == part@[k],
        decreases part.len() - j,
    {
        if v[at + j] != part[j] {
            assert(v@.subrange(at as int, at + part.len())[j as int] != part@[j as int]);
            return false;
        }
        j = j + 1;
    }
    assert(v@.subrange(at as int, at + part.len()) =~= part@);
    true
}

/// Whether `part` stands somewhere in `s`.
pub fn contains(s: &str, part: &str) -> (r: bool)
    ensures
        r == holds(s@, part@),
{
    let v = to_chars(s);
    let p = to_chars(part);
    if p.len() > v.len() {
        return false;
    }
    let last: usize = v.len() - p.len();
    let mut i: usize = 0;
    while i < last
        invariant
            v@ == s@,
            p@ == part@,
            last == v.len() - p.len(),
            i <= last,
            forall|k: int| 0 <= k < i ==> !occurs_at(s@, part@, k),
        decreases last - i,
    {
        if matches_at(&v, i, &p) {
            return true;
        }
        i = i + 1;
    }
    matches_at(&v, last, &p)
}

/// Whether `s` begins with `part`.
pub fn starts_with(s: &str, part: &str) -> (r: bool)
    ensures
        r == part@.is_prefix_of(s@),
{
    let v = to_chars(s);
    let p = to_chars(part);
    if p.len() > v.len() {
        return false;
    }
    matches_at(&v, 0, &p)
}

/// Whether `s` ends with `part`.
pub fn ends_with(s: &str, part: &str) -> (r: bool)
    ensures
        r == part@.is_suffix_of(s@),
{
    let v = to_chars(s);
    let p = to_chars(part);
    if p.len() > v.len() {
        return false;
    }
    matches_at(&v, v.len() - p.len(), &p)
}

/// `s` without `end`, where it ends so.
pub fn strip_suffix(s: &str, end: &str) -> (r: Option<String>)
    ensures
        r is Some <==> end@.is_suffix_of(s@),
        r matches Some(t) ==> t@ == s@.take(s@.len() - end@.len()),
{
    let v = to_chars(s);
    let p = to_chars(end);
    if p.len() > v.len() || !matches_at(&v, v.len() - p.len(), &p) {
        return None;
    }
    Some(string_of(&v, 0, v.len() - p.len()))
}

/// Equality of texts that takes ASCII capital and small letters for the same.
pub open spec fn same_ignoring_case(a: Seq<char>, b: Seq<char>) -> bool {
    a.map_values(|c: char| ascii_lower(c)) == b.map_values(|c: char| ascii_lower(c))
}

/// An ASCII capital letter as its small letter.
pub fn small(c: char) -> (r: char)
    ensures
        r == ascii_lower(c),
{
    if c >= 'A' && c <= 'Z' {
        (c as u8 + 32) as char
    } else {
        c
    }
}

/// Compares two strings, ASCII capital and small letters taken for the same.
pub fn equals_ignoring_case(a: &str, b: &str) -> (r: bool)
    ensures
        r == same_ignoring_case(a@, b@),
{
    let x = to_chars(a);
    let y = to_chars(b);
    let ghost la = a@.map_values(|c: char| ascii_lower(c));
    let ghost lb = b@.map_values(|c: char| ascii_lower(c));
    if x.len() != y.len() {
        assert(la.len() != lb.len());
        return false;
    }
    let mut i: usize = 0;
    while i < x.len()
        invariant
            x@ == a@,
            y@ == b@,
            la == a@.map_values(|c: char| ascii_lower(c)),
            lb == b@.map_values(|c: char| ascii_lower(c)),
            i <= x.len() == y.len(),
            forall|j: int| 0 <= j < i ==> la[j] == lb[j],
        decreases x.len() - i,
    {
        if small(x[i]) != small(y[i]) {
            assert(la[i as int] != lb[i as int]);
            return false;
        }
        i = i + 1;
    }
    assert(la =~= lb);
    true
}

/// The character of a decimal digit.
pub open spec fn digit(d: int) -> char {
    ((48 + d) as u32) as char
}

/// The decimal digits of a number.
pub open spec fn decimal(n: nat) -> Seq<char>
    decreases n,
{
    if n < 10 {
        seq![digit(n as int)]
    } else {
        decimal(n / 10).push(digit((n % 10) as int))
    }
}

/// The decimal digits of a number, as a string.
pub fn decimal_text(n: u64) -> (r: String)
    ensures
        r@ == decimal(n as nat),
    decreases n,
{
    let mut out = if n < 10 {
        String::new()
    } else {
        decimal_text(n / 10)
    };
    let d = (n % 10) as u8;
    out.push((48 + d) as char);
    assert(out@ == decimal(n as nat));
    out
}

/// A text with `fill` in front until it has at least `width` characters.
pub open spec fn padded(s: Seq<char>, width: nat, fill: char) -> Seq<char> {
    if s.len() >= width {
        s
    } else {
        Seq::new((width - s.len()) as nat, |i: int| fill) + s
    }
}

/// Puts `fill` in front of a text until it has at least `width` characters.
pub fn pad_left(s: &str, width: usize, fill: char) -> (r: String)
    ensures
        r@ == padded(s@, width as nat, fill),
{
    let v = to_chars(s);
    let mut out = String::new();
    let mut i: usize = v.len();
    while i < width
        invariant
            v@ == s@,
            v.len() <= i,
            i <= width || i == v.len(),
            out@ == Seq::new((i - v.len()) as nat, |k: int| fill),
        decreases width - i,
    {
        out.push(fill);
        i = i + 1;
        assert(out@ =~= Seq::new((i - v.len()) as nat, |k: int| fill));
    }
    let ghost front = out@;
    out.append(s);
    assert(out@ =~= padded(s@, width as nat, fill));
    out
}

/// `n` times the same character.
pub open spec fn repeated(c: char, n: nat) -> Seq<char> {
    Seq::new(n, |i: int| c)
}

/// `n` times the same character, as a string.
pub fn repeat(c: char, n: usize) -> (r: String)
    ensures
        r@ == repeated(c, n as nat),
{
    let mut out = String::new();
    let mut i: usize = 0;
    while i < n
        invariant
            i <= n,
            out@ == repeated(c, i as nat),
        decreases n - i,
    {
        out.push(c);
        i = i + 1;
        assert(out@ =~= repeated(c, i as nat));
    }
    out
}

/// A text is what is left of it without white space at its ends, with white space around it;
/// and what is left neither begins nor ends with white space.
pub proof fn law_trimming_takes_white_space(s: Seq<char>)
    ensures
        exists|front: Seq<char>, end: Seq<char>|
            #![trigger front + trimmed(s) + end]
            s == front + trimmed(s) + end && (forall|i: int|
                0 <= i < front.len() ==> is_space(#[trigger] front[i])) && (forall|i: int|
                0 <= i < end.len() ==> is_space(#[trigger] end[i])),
        trimmed(s).len() > 0 ==> !is_space(trimmed(s)[0]) && !is_space(trimmed(s).last()),
{
    lemma_trim_start(s);
    lemma_trim_end(trim_start(s));
    let a = choose|a: Seq<char>|
        #![trigger a + trim_start(s)]
        s == a + trim_start(s) && (forall|i: int|
            0 <= i < a.len() ==> is_space(#[trigger] a[i]));
    let b = choose|b: Seq<char>|
        #![trigger trimmed(s) + b]
        trim_start(s) == trimmed(s) + b && (forall|i: int|
            0 <= i < b.len() ==> is_space(#[trigger] b[i]));
    assert(a + trimmed(s) + b =~= a + (trimmed(s) + b));
    if trimmed(s).len() > 0 {
        assert(trimmed(s)[0] == trim_start(s)[0]);
    }
}

proof fn lemma_trim_start(s: Seq<char>)
    ensures
        exists|a: Seq<char>|
            #![trigger a + trim_start(s)]
            s == a + trim_start(s) && (forall|i: int|
                0 <= i < a.len() ==> is_space(#[trigger] a[i])),
        trim_start(s).len() > 0 ==> !is_space(trim_start(s)[0]),
    decreases s.len(),
{
    if s.len() > 0 && is_space(s[0]) {
        let t = s.drop_first();
        lemma_trim_start(t);
        let a = choose|a: Seq<char>|
            #![trigger a + trim_start(t)]
            t == a + trim_start(t) && (forall|i: int|
                0 <= i < a.len() ==> is_space(#[trigger] a[i]));
        let b = seq![s[0]] + a;
        assert(s =~= b + trim_start(s)) by {
            assert(s =~= seq![s[0]] + t);
        }
    } else {
        assert(s =~= Seq::<char>::empty() + trim_start(s));
    }
}

proof fn lemma_trim_end(s: Seq<char>)
    ensures
        exists|b: Seq<char>|
            #![trigger trim_end(s) + b]
            s == trim_end(s) + b && (forall|i: int|
                0 <= i < b.len() ==> is_space(#[trigger] b[i])),
        trim_end(s).len() > 0 ==> !is_space(trim_end(s).last()),
    decreases s.len(),
{
    if s.len() > 0 && is_space(s.last()) {
        let t = s.drop_last();
        lemma_trim_end(t);
        let b = choose|b: Seq<char>|
            #![trigger trim_end(t) + b]
            t == trim_end(t) + b && (forall|i: int|
                0 <= i < b.len() ==> is_space(#[trigger] b[i]));
        let c = b.push(s.last());
        assert(s =~= trim_end(s) + c) by {
            assert(s =~= t.push(s.last()));
        }
    } else {
        assert(s =~= trim_end(s) + Seq::<char>::empty());
    }
}

/// A line ends at a line feed, or at a carriage return and a line feed; the last one may end
/// with the text.
pub proof fn law_lines_end_at_line_feeds(line: Seq<char>, rest: Seq<char>)
    requires
        !line.contains('\n'),
        line.len() == 0 || line.last() != '\r',
    ensures
        lines_of(line + seq!['\n'] + rest) == seq![line] + lines_of(rest),
        lines_of(line + seq!['\r', '\n'] + rest) == seq![line] + lines_of(rest),
        line.len() > 0 ==> lines_of(line) == seq![line],
        lines_of(Seq::empty()) == Seq::<Seq<char>>::empty(),
{
    let a = line + seq!['\n'] + rest;
    let b = line + seq!['\r', '\n'] + rest;
    let n = line.len() as int;
    lemma_first_at(a, '\n');
    lemma_first_at(b, '\n');
    lemma_first_at(line, '\n');
    assert(a[n] == '\n');
    assert(b[n] == '\r' && b[n + 1] == '\n');
    assert forall|i: int| 0 <= i < n implies a[i] != '\n' && b[i] != '\n' by {
        assert(line.contains(line[i]));
    }
    assert(first_at(a, '\n') == n);
    assert(first_at(b, '\n') == n + 1);
    assert(a.take(n) =~= line);
    assert(b.take(n + 1) =~= line.push('\r'));
    assert(b.take(n + 1).drop_last() =~= line);
    assert(a.skip(n + 1) =~= rest);
    assert(b.skip(n + 2) =~= rest);
}

/// A text that is filled up ends as it was, with the filling in front, and is just as wide as
/// it is to be, where it was not wider.
pub proof fn law_filling_stands_in_front(s: Seq<char>, width: nat, fill: char)
    ensures
        s.is_suffix_of(padded(s, width, fill)),
        padded(s, width, fill).len() == if s.len() > width {
            s.len()
        } else {
            width
        },
        forall|i: int|
            0 <= i < padded(s, width, fill).len() - s.len() ==> #[trigger] padded(
                s,
                width,
                fill,
            )[i] == fill,
{
    let p = padded(s, width, fill);
    assert(p.subrange(p.len() - s.len(), p.len() as int) =~= s);
}

/// Capital letters are taken for their small letters, and nothing else for anything else.
pub proof fn law_letters_in_two_sizes(c: char)
    ensures
        'A' <= c <= 'Z' ==> ascii_lower(c) as int == c as int + 32,
        !('A' <= c <= 'Z') ==> ascii_lower(c) == c,
        ascii_lower('A') == 'a' && ascii_lower('Z') == 'z',
{
}

/// Texts are the same in two sizes exactly where each letter is.
pub proof fn law_texts_in_two_sizes(a: Seq<char>, b: Seq<char>)
    ensures
        same_ignoring_case(a, b) <==> a.len() == b.len() && forall|i: int|
            0 <= i < a.len() ==> ascii_lower(#[trigger] a[i]) == ascii_lower(b[i]),
{
    let x = a.map_values(|c: char| ascii_lower(c));
    let y = b.map_values(|c: char| ascii_lower(c));
    if same_ignoring_case(a, b) {
        assert forall|i: int| 0 <= i < a.len() implies ascii_lower(#[trigger] a[i])
            == ascii_lower(b[i]) by {
            assert(x[i] == y[i]);
        }
        assert(x.len() == y.len());
    }
    if a.len() == b.len() && forall|i: int|
        0 <= i < a.len() ==> ascii_lower(#[trigger] a[i]) == ascii_lower(b[i]) {
        assert(x =~= y);
    }
}

/// The number that decimal digits stand for.
pub open spec fn number_of(digits: Seq<char>) -> int
    decreases digits.len(),
{
    if digits.len() == 0 {
        0
    } else {
        number_of(digits.drop_last()) * 10 + (digits.last() as int - '0' as int)
    }
}

/// The digits of a number stand for it, and none but zero itself begins with a zero.
pub proof fn law_digits_stand_for_the_number(n: nat)
    ensures
        number_of(decimal(n)) == n,
        decimal(n).len() > 0,
        forall|i: int| 0 <= i < decimal(n).len() ==> '0' <= #[trigger] decimal(n)[i] <= '9',
        n > 0 ==> decimal(n)[0] != '0',
    decreases n,
{
    if n < 10 {
        assert(decimal(n).drop_last() =~= Seq::empty());
        assert(number_of(Seq::empty()) == 0);
    } else {
        law_digits_stand_for_the_number(n / 10);
        assert(decimal(n).drop_last() =~= decimal(n / 10));
        assert(decimal(n)[0] == decimal(n / 10)[0]);
    }
}

} // verus!
