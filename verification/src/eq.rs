//! Presets of the equalizer: those that come with the player, their names and
//! their order.
use vstd::prelude::*;

use crate::paths::{lemma_row_total, lemma_row_transitive, row_le};
use crate::sorting::{lemma_sort_empty, lemma_sort_insert, stable_sort_of, total_preorder};
use crate::text::{equals_ignoring_case, same_ignoring_case, texts, to_chars};

verus! {

/// One band: its frequency in hertz, its gain in tenths of a decibel and its
/// quality in tenths.
#[derive(Clone, Copy, Debug, PartialEq, Eq, Structural)]
pub struct EqBand {
    pub freq: u32,
    pub gain: i32,
    pub q: u32,
}

/// A preset: its name and its bands.
pub struct EqPreset {
    pub name: String,
    pub bands: Vec<EqBand>,
}

/// Presets with their names as characters.
pub open spec fn presets_view(v: Seq<EqPreset>) -> Seq<(Seq<char>, Seq<EqBand>)> {
    v.map_values(|p: EqPreset| (p.name@, p.bands@))
}

/// A band.
pub open spec fn band(freq: u32, gain: i32, q: u32) -> EqBand {
    EqBand { freq, gain, q }
}

/// The presets that come with the player.
pub open spec fn builtin() -> Seq<(Seq<char>, Seq<EqBand>)> {
    seq![
        ("Flat"@, Seq::empty()),
        (
            "Bass Boost"@,
            seq![band(32, 60, 8), band(64, 50, 8), band(125, 30, 10), band(250, 10, 10)],
        ),
        ("Treble Boost"@, seq![band(4000, 20, 10), band(8000, 40, 10), band(16000, 50, 8)]),
        (
            "Vocal"@,
            seq![
                band(125, -20i32, 10),
                band(1000, 30, 8),
                band(2000, 40, 8),
                band(4000, 30, 10),
                band(8000, 10, 10),
            ],
        ),
        (
            "Loudness"@,
            seq![
                band(32, 40, 8),
                band(64, 30, 8),
                band(125, 10, 10),
                band(8000, 20, 10),
                band(16000, 30, 8),
            ],
        ),
    ]
}

/// The presets that come with the player.
pub fn builtin_presets() -> (r: Vec<EqPreset>)
    ensures
        presets_view(r@) == builtin(),
{
    let flat: Vec<EqBand> = Vec::new();
    let bass = vec![
        EqBand { freq: 32, gain: 60, q: 8 },
        EqBand { freq: 64, gain: 50, q: 8 },
        EqBand { freq: 125, gain: 30, q: 10 },
        EqBand { freq: 250, gain: 10, q: 10 },
    ];
    let treble = vec![
        EqBand { freq: 4000, gain: 20, q: 10 },
        EqBand { freq: 8000, gain: 40, q: 10 },
        EqBand { freq: 16000, gain: 50, q: 8 },
    ];
    let vocal = vec![
        EqBand { freq: 125, gain: -20, q: 10 },
        EqBand { freq: 1000, gain: 30, q: 8 },
        EqBand { freq: 2000, gain: 40, q: 8 },
        EqBand { freq: 4000, gain: 30, q: 10 },
        EqBand { freq: 8000, gain: 10, q: 10 },
    ];
    let loud = vec![
        EqBand { freq: 32, gain: 40, q: 8 },
        EqBand { freq: 64, gain: 30, q: 8 },
        EqBand { freq: 125, gain: 10, q: 10 },
        EqBand { freq: 8000, gain: 20, q: 10 },
        EqBand { freq: 16000, gain: 30, q: 8 },
    ];
    let r = vec![
        EqPreset { name: "Flat".to_string(), bands: flat },
        EqPreset { name: "Bass Boost".to_string(), bands: bass },
        EqPreset { name: "Treble Boost".to_string(), bands: treble },
        EqPreset { name: "Vocal".to_string(), bands: vocal },
        EqPreset { name: "Loudness".to_string(), bands: loud },
    ];
    proof {
        let v = presets_view(r@);
        assert(v[0].1 =~= builtin()[0].1);
        assert(v[1].1 =~= builtin()[1].1);
        assert(v[2].1 =~= builtin()[2].1);
        assert(v[3].1 =~= builtin()[3].1);
        assert(v[4].1 =~= builtin()[4].1);
        assert(v =~= builtin());
    }
    r
}

impl EqPreset {
    /// Whether a preset changes the sound: a band of it has a gain.
    pub fn is_active(&self) -> (r: bool)
        ensures
            r == exists|i: int| 0 <= i < self.bands.len() && (#[trigger] self.bands@[i]).gain != 0,
    {
        let mut i: usize = 0;
        while i < self.bands.len()
            invariant
                i <= self.bands.len(),
                forall|k: int| 0 <= k < i ==> (#[trigger] self.bands@[k]).gain == 0,
            decreases self.bands.len() - i,
        {
            if self.bands[i].gain != 0 {
                return true;
            }
            i = i + 1;
        }
        false
    }
}

/// Whether a name means another: as it stands, or with capital and small letters
/// taken for the same.
pub open spec fn names_match(a: Seq<char>, b: Seq<char>, ignore_case: bool) -> bool {
    if ignore_case {
        same_ignoring_case(a, b)
    } else {
        a == b
    }
}

/// The first preset with a name.
pub fn find_preset(names: &Vec<String>, name: &String, ignore_case: bool) -> (r: Option<usize>)
    ensures
        match r {
            Some(i) => i < names.len() && names_match(names@[i as int]@, name@, ignore_case)
                && forall|k: int|
                0 <= k < i ==> !names_match((#[trigger] names@[k])@, name@, ignore_case),
            None => forall|k: int|
                0 <= k < names.len() ==> !names_match((#[trigger] names@[k])@, name@, ignore_case),
        },
{
    let mut i: usize = 0;
    while i < names.len()
        invariant
            i <= names.len(),
            forall|k: int|
                0 <= k < i ==> !names_match((#[trigger] names@[k])@, name@, ignore_case),
        decreases names.len() - i,
    {
        let hit = if ignore_case {
            equals_ignoring_case(names[i].as_str(), name.as_str())
        } else {
            names[i] == *name
        };
        if hit {
            return Some(i);
        }
        i = i + 1;
    }
    None
}

/// A text as numbers, for its place in a dictionary.
pub open spec fn codes(s: Seq<char>) -> Seq<int> {
    s.map_values(|c: char| c as int)
}

/// Whether a text comes before another or is the same: character by character.
pub fn not_after(a: &str, b: &str) -> (r: bool)
    ensures
        r == row_le(codes(a@), codes(b@)),
{
    let v = to_chars(a);
    let w = to_chars(b);
    let ghost x = codes(a@);
    let ghost y = codes(b@);
    let mut i: usize = 0;
    assert(x.skip(0) =~= x && y.skip(0) =~= y);
    while i < v.len() && i < w.len() && v[i] == w[i]
        invariant
            v@ == a@,
            w@ == b@,
            x == codes(a@),
            y == codes(b@),
            i <= v.len() && i <= w.len(),
            row_le(x.skip(i as int), y.skip(i as int)) == row_le(x, y),
        decreases v.len() - i,
    {
        assert(x.skip(i as int)[0] == y.skip(i as int)[0]);
        assert(x.skip(i as int).drop_first() =~= x.skip(i + 1));
        assert(y.skip(i as int).drop_first() =~= y.skip(i + 1));
        i = i + 1;
    }
    if i == v.len() {
        true
    } else if i == w.len() {
        false
    } else {
        assert(x.skip(i as int)[0] == v@[i as int] as int);
        assert(y.skip(i as int)[0] == w@[i as int] as int);
        v[i] < w[i]
    }
}

/// The order of numbered names: by name.
pub open spec fn by_name(names: Seq<Seq<char>>) -> spec_fn(usize, usize) -> bool {
    |a: usize, b: usize| row_le(codes(names[a as int]), codes(names[b as int]))
}

/// The numbers from zero on.
pub open spec fn counting(n: nat) -> Seq<usize> {
    Seq::new(n, |i: int| i as usize)
}

/// The places of names in the order of a dictionary; the same names keep their
/// order.
pub fn name_order(names: &Vec<String>) -> (r: Vec<usize>)
    ensures
        stable_sort_of(counting(names@.len()), r@, by_name(texts(names@))),
        r.len() == names.len(),
        forall|i: int| 0 <= i < r.len() ==> #[trigger] r@[i] < names.len(),
{
    let ghost all = texts(names@);
    let ghost le = by_name(all);
    let mut out: Vec<usize> = Vec::new();
    let mut i: usize = 0;
    proof {
        lemma_sort_empty(le);
        assert(counting(0) =~= Seq::<usize>::empty());
        assert forall|a: usize, b: usize| #[trigger] le(a, b) || le(b, a) by {
            lemma_row_total(codes(all[a as int]), codes(all[b as int]));
        }
        assert forall|a: usize, b: usize, c: usize| #[trigger]
            le(a, b) && #[trigger] le(b, c) implies le(a, c) by {
            lemma_row_transitive(
                codes(all[a as int]),
                codes(all[b as int]),
                codes(all[c as int]),
            );
        }
    }
    while i < names.len()
        invariant
            all == texts(names@),
            le == by_name(all),
            total_preorder(le),
            i <= names.len(),
            out.len() == i,
            forall|k: int| 0 <= k < i ==> #[trigger] out@[k] < i,
            stable_sort_of(counting(i as nat), out@, le),
        decreases names.len() - i,
    {
        let ghost before = out@;
        assert(all[i as int] == names@[i as int]@);
        let mut k: usize = out.len();
        while k > 0 && !not_after(names[out[k - 1]].as_str(), names[i].as_str())
            invariant
                all == texts(names@),
                le == by_name(all),
                i < names.len(),
                k <= out.len(),
                out@ == before,
                forall|k: int| 0 <= k < before.len() ==> #[trigger] before[k] < i,
                all[i as int] == names@[i as int]@,
                forall|j: int| k <= j < before.len() ==> !le(#[trigger] before[j], i),
            decreases k,
        {
            assert(all[before[k - 1] as int] == names@[before[k - 1] as int]@);
            k = k - 1;
        }
        proof {
            if k > 0 {
                assert(all[before[k - 1] as int] == names@[before[k - 1] as int]@);
                assert(le(before[k - 1], i));
            }
            assert forall|j: int| 0 <= j < k implies le(#[trigger] before[j], i) by {
                if j < k - 1 {
                    assert(le(before[j], before[k - 1]));
                }
            }
            lemma_sort_insert(counting(i as nat), before, le, i, k as int);
            assert(counting(i as nat).push(i) =~= counting((i + 1) as nat));
        }
        out.insert(k, i);
        i = i + 1;
    }
    out
}

/// Every preset that comes with the player is found by its own name.
pub proof fn law_builtin_names_differ()
    ensures
        forall|i: int, j: int|
            0 <= i < j < builtin().len() ==> (#[trigger] builtin()[i]).0 != (
            #[trigger] builtin()[j]).0,
{
    reveal_strlit("Flat");
    reveal_strlit("Bass Boost");
    reveal_strlit("Treble Boost");
    reveal_strlit("Vocal");
    reveal_strlit("Loudness");
    assert("Flat"@.len() == 4);
    assert("Vocal"@.len() == 5);
    assert("Loudness"@.len() == 8);
    assert("Bass Boost"@.len() == 10);
    assert("Treble Boost"@.len() == 12);
}

/// The presets do what they are called: nothing, more of the low tones, more of the high ones,
/// more of the voice and less of the bass, and more of both ends.
pub proof fn law_presets_do_what_they_are_called(p: int, i: int)
    requires
        0 <= p < builtin().len(),
        0 <= i < builtin()[p].1.len(),
    ensures
        ({
            let bands = builtin()[p].1;
            let b = bands[i];
            &&& builtin().len() == 5
            &&& p == 1 || p == 2 || p == 3 || p == 4
            &&& i > 0 ==> bands[i - 1].freq < b.freq
            &&& 8 <= b.q <= 10
            &&& p == 1 ==> b.freq <= 250 && 10 <= b.gain <= 60 && (i > 0 ==> b.gain
                < bands[i - 1].gain) && bands[0].gain == 60
            &&& p == 2 ==> b.freq >= 4000 && 20 <= b.gain <= 50 && (i > 0 ==> b.gain
                > bands[i - 1].gain) && bands.last().gain == 50
            &&& p == 3 ==> (b.freq < 1000 ==> b.gain == -20) && (b.freq >= 1000 ==> b.gain > 0)
                && (b.freq == 2000 ==> b.gain == 40)
            &&& p == 4 ==> (b.freq <= 125 || b.freq >= 8000) && 10 <= b.gain <= 40
                && bands[0].gain == 40
        }),
{
}

/// The presets stand under their names, in this order.
pub proof fn law_presets_have_their_names()
    ensures
        builtin()[0].0 == "Flat"@ && builtin()[1].0 == "Bass Boost"@ && builtin()[2].0
            == "Treble Boost"@ && builtin()[3].0 == "Vocal"@ && builtin()[4].0 == "Loudness"@,
        builtin()[0].1.len() == 0,
{
}

/// A name means another that is the same, and where capital letters do not count, one with
/// other capitals; no other name.
pub proof fn law_names_mean_the_same(a: Seq<char>, b: Seq<char>)
    ensures
        names_match(a, b, false) <==> a == b,
        names_match(a, b, true) <==> a.len() == b.len() && forall|i: int|
            0 <= i < a.len() ==> crate::text::ascii_lower(#[trigger] a[i])
                == crate::text::ascii_lower(b[i]),
{
    crate::text::law_texts_in_two_sizes(a, b);
}

} // verus!
