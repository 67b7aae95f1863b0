//! Samples in lists: cutting, ordering by channel, balance and crossfades. What
//! a sample is, and the arithmetic on it, is left to the caller.
use std::collections::VecDeque;
use vstd::arithmetic::div_mod::{lemma_fundamental_div_mod, lemma_fundamental_div_mod_converse};
use vstd::prelude::*;

verus! {

/// The number of frames in which a channel has a sample.
pub open spec fn frames_in(len: int, ch: int, c: int) -> int {
    (len + ch - 1 - c) / ch
}

/// The samples of one channel of interleaved samples.
pub open spec fn channel_of<T>(s: Seq<T>, ch: int, c: int) -> Seq<T> {
    Seq::new(frames_in(s.len() as int, ch, c) as nat, |f: int| s[f * ch + c])
}

/// The channels of interleaved samples.
pub fn deinterleave<T: Copy>(samples: &Vec<T>, ch: usize) -> (r: Vec<Vec<T>>)
    requires
        ch > 0,
    ensures
        r.len() == ch,
        forall|c: int| 0 <= c < ch ==> (#[trigger] r@[c])@ == channel_of(samples@, ch as int, c),
{
    let mut out: Vec<Vec<T>> = Vec::new();
    let len = samples.len();
    let mut c: usize = 0;
    while c < ch
        invariant
            c <= ch,
            ch > 0,
            len == samples.len(),
            out.len() == c,
            forall|k: int|
                0 <= k < c ==> (#[trigger] out@[k])@ == channel_of(samples@, ch as int, k),
        decreases ch - c,
    {
        let one = channel(samples, ch, c);
        out.push(one);
        c = c + 1;
    }
    out
}

/// The samples of one channel.
fn channel<T: Copy>(samples: &Vec<T>, ch: usize, c: usize) -> (r: Vec<T>)
    requires
        c < ch,
    ensures
        r@ == channel_of(samples@, ch as int, c as int),
{
    let len = samples.len();
    let mut out: Vec<T> = Vec::new();
    if c >= len {
        proof {
            lemma_fundamental_div_mod_converse(
                len + ch - 1 - c,
                ch as int,
                0,
                len + ch - 1 - c,
            );
        }
        assert(out@ =~= channel_of(samples@, ch as int, c as int));
        return out;
    }
    let mut k: usize = c;
    out.push(samples[k]);
    assert(0 * ch + c == c);
    while ch < len - k
        invariant
            c < ch,
            len == samples.len(),
            k < len,
            out.len() >= 1,
            k == (out.len() - 1) * ch + c,
            forall|f: int| 0 <= f < out.len() ==> #[trigger] out@[f] == samples@[f * ch + c],
        decreases len - k,
    {
        k = k + ch;
        assert((out.len() - 1) * ch + ch == out.len() * ch) by (nonlinear_arith);
        out.push(samples[k]);
    }
    proof {
        let f = out.len() as int;
        let n = len + ch - 1 - c;
        assert((f - 1) * ch + ch == f * ch) by (nonlinear_arith);
        lemma_fundamental_div_mod_converse(n, ch as int, f, n - f * ch);
        assert(f * ch == ch * f) by (nonlinear_arith);
    }
    assert(out@ =~= channel_of(samples@, ch as int, c as int));
    out
}

/// Samples of several channels, frame by frame.
pub open spec fn interleaved<T>(planes: Seq<Seq<T>>, frames: int) -> Seq<T> {
    Seq::new(
        (frames * planes.len()) as nat,
        |i: int| planes[i % (planes.len() as int)][i / (planes.len() as int)],
    )
}

/// The samples of channels as sequences.
pub open spec fn plane_views<T>(planes: Seq<Vec<T>>) -> Seq<Seq<T>> {
    planes.map_values(|p: Vec<T>| p@)
}

/// The first frames of several channels, frame by frame.
pub fn interleave<T: Copy>(planes: &Vec<Vec<T>>, frames: usize) -> (r: Vec<T>)
    requires
        forall|c: int| 0 <= c < planes.len() ==> (#[trigger] planes@[c]).len() >= frames,
    ensures
        r@ == interleaved(plane_views(planes@), frames as int),
{
    let ch = planes.len();
    let mut out: Vec<T> = Vec::new();
    let ghost views = plane_views(planes@);
    let mut f: usize = 0;
    assert(0 * ch == 0) by (nonlinear_arith);
    assert(out@ =~= interleaved(views, 0));
    while f < frames
        invariant
            views == plane_views(planes@),
            ch == planes.len(),
            f <= frames,
            forall|c: int| 0 <= c < planes.len() ==> (#[trigger] planes@[c]).len() >= frames,
            out@ == interleaved(views, f as int),
        decreases frames - f,
    {
        let ghost before = out@;
        proof {
            assert(f * ch >= 0) by (nonlinear_arith);
        }
        let mut c: usize = 0;
        while c < ch
            invariant
                views == plane_views(planes@),
                ch == planes.len(),
                f < frames,
                c <= ch,
                f * ch >= 0,
                before == interleaved(views, f as int),
                forall|c: int| 0 <= c < planes.len() ==> (#[trigger] planes@[c]).len() >= frames,
                out.len() == f * ch + c,
                forall|i: int| 0 <= i < f * ch ==> #[trigger] out@[i] == before[i],
                forall|j: int| 0 <= j < c ==> #[trigger] out@[f * ch + j] == views[j][f as int],
            decreases ch - c,
        {
            assert(views[c as int] == planes@[c as int]@);
            out.push(planes[c][f]);
            c = c + 1;
        }
        proof {
            assert(f * ch + ch == (f + 1) * ch) by (nonlinear_arith);
            assert forall|i: int| 0 <= i < (f + 1) * ch implies #[trigger] out@[i] == interleaved(
                views,
                f + 1,
            )[i] by {
                if i < f * ch {
                    assert(out@[i] == before[i]);
                } else {
                    let j = i - f * ch;
                    lemma_fundamental_div_mod_converse(i, ch as int, f as int, j);
                    assert(f * ch == ch * f) by (nonlinear_arith);
                    assert(out@[f * ch + j] == views[j][f as int]);
                }
            }
            assert(out@ =~= interleaved(views, f + 1));
        }
        f = f + 1;
    }
    out
}

/// Taking interleaved samples apart loses none: each stands in its channel, at
/// the place of its frame.
pub proof fn law_deinterleave_keeps_samples<T>(s: Seq<T>, ch: int, i: int)
    requires
        ch > 0,
        0 <= i < s.len(),
    ensures
        0 <= i / ch < channel_of(s, ch, i % ch).len(),
        channel_of(s, ch, i % ch)[i / ch] == s[i],
{
    lemma_fundamental_div_mod(i, ch);
    let f = i / ch;
    let c = i % ch;
    assert(f >= 0) by (nonlinear_arith)
        requires
            i == ch * f + c,
            0 <= c < ch,
            i >= 0,
            ch > 0,
    ;
    let n = s.len() + ch - 1 - c;
    let q = n / ch;
    lemma_fundamental_div_mod(n, ch);
    assert(q > f) by (nonlinear_arith)
        requires
            n == ch * q + n % ch,
            0 <= n % ch < ch,
            n >= ch * f + ch,
            ch > 0,
    ;
    assert(f * ch == ch * f) by (nonlinear_arith);
}

/// Putting channels together and taking them apart again gives them back.
pub proof fn law_interleave_round_trip<T>(planes: Seq<Seq<T>>, frames: int, c: int)
    requires
        0 <= c < planes.len(),
        frames >= 0,
        forall|k: int| 0 <= k < planes.len() ==> (#[trigger] planes[k]).len() >= frames,
    ensures
        channel_of(interleaved(planes, frames), planes.len() as int, c) == planes[c].take(frames),
{
    let ch = planes.len() as int;
    let s = interleaved(planes, frames);
    assert(frames * ch >= 0) by (nonlinear_arith)
        requires
            frames >= 0,
            ch >= 0,
    ;
    let n = s.len() + ch - 1 - c;
    assert(frames * ch == ch * frames) by (nonlinear_arith);
    lemma_fundamental_div_mod_converse(n, ch, frames, ch - 1 - c);
    let one = channel_of(s, ch, c);
    assert forall|f: int| 0 <= f < frames implies #[trigger] one[f] == planes[c][f] by {
        assert(f * ch + c < frames * ch) by (nonlinear_arith)
            requires
                f < frames,
                0 <= c < ch,
        ;
        assert(f * ch >= 0) by (nonlinear_arith)
            requires
                f >= 0,
                ch >= 0,
        ;
        assert(f * ch == ch * f) by (nonlinear_arith);
        lemma_fundamental_div_mod_converse(f * ch + c, ch, f, c);
    }
    assert(one =~= planes[c].take(frames));
}

/// A piece of a list.
fn piece<T: Copy>(s: &Vec<T>, from: usize, to: usize) -> (r: Vec<T>)
    requires
        from <= to <= s.len(),
    ensures
        r@ == s@.subrange(from as int, to as int),
{
    let mut out: Vec<T> = Vec::new();
    let mut i: usize = from;
    while i < to
        invariant
            from <= i <= to <= s.len(),
            out@ == s@.subrange(from as int, i as int),
        decreases to - i,
    {
        out.push(s[i]);
        assert(s@.subrange(from as int, i as int).push(s@[i as int]) =~= s@.subrange(
            from as int,
            i + 1,
        ));
        i = i + 1;
    }
    out
}

/// The whole chunks of a list, from its front.
pub open spec fn chunks_of<T>(s: Seq<T>, size: int) -> Seq<Seq<T>> {
    Seq::new((s.len() as int / size) as nat, |i: int| s.subrange(i * size, i * size + size))
}

/// What is left of a list behind its whole chunks.
pub open spec fn behind_chunks<T>(s: Seq<T>, size: int) -> Seq<T> {
    s.skip((s.len() as int / size) * size)
}

/// Takes the whole chunks off the front of what is pending.
pub fn take_chunks<T: Copy>(pending: &mut Vec<T>, size: usize) -> (r: Vec<Vec<T>>)
    requires
        size > 0,
    ensures
        plane_views(r@) == chunks_of(old(pending)@, size as int),
        final(pending)@ == behind_chunks(old(pending)@, size as int),
{
    let mut out: Vec<Vec<T>> = Vec::new();
    let ghost all = pending@;
    let len = pending.len();
    let mut at: usize = 0;
    assert(0 * size == 0) by (nonlinear_arith);
    while len - at >= size
        invariant
            size > 0,
            len == pending.len(),
            pending@ == all,
            at <= len,
            at == out.len() * size,
            forall|i: int|
                0 <= i < out.len() ==> (#[trigger] out@[i])@ == all.subrange(
                    i * size,
                    i * size + size,
                ),
        decreases len - at,
    {
        let one = piece(pending, at, at + size);
        assert(out.len() * size + size == (out.len() + 1) * size) by (nonlinear_arith);
        out.push(one);
        at = at + size;
    }
    let rest = piece(pending, at, len);
    proof {
        let n = out.len() as int;
        assert(n * size == size * n) by (nonlinear_arith);
        lemma_fundamental_div_mod_converse(len as int, size as int, n, len - at);
        assert(plane_views(out@) =~= chunks_of(all, size as int));
        assert(rest@ =~= behind_chunks(all, size as int));
    }
    *pending = rest;
    out
}

/// The chunks and the rest, put together, are what there was.
pub proof fn law_chunks_keep_samples<T>(s: Seq<T>, size: int)
    requires
        size > 0,
    ensures
        chunks_of(s, size).flatten() + behind_chunks(s, size) == s,
        behind_chunks(s, size).len() < size,
{
    let n = s.len() as int / size;
    lemma_fundamental_div_mod(s.len() as int, size);
    assert(n >= 0 && n * size <= s.len() && s.len() - n * size < size) by (nonlinear_arith)
        requires
            s.len() == size * n + s.len() as int % size,
            0 <= s.len() as int % size < size,
            size > 0,
            s.len() >= 0,
    ;
    lemma_chunks_flatten(s, size, n);
    assert(chunks_of(s, size) =~= Seq::new(
        n as nat,
        |i: int| s.subrange(i * size, i * size + size),
    ));
    assert(s.take(n * size) + s.skip(n * size) =~= s);
}

proof fn lemma_chunks_flatten<T>(s: Seq<T>, size: int, n: int)
    requires
        size > 0,
        0 <= n,
        n * size <= s.len(),
    ensures
        Seq::new(n as nat, |i: int| s.subrange(i * size, i * size + size)).flatten() == s.take(
            n * size,
        ),
    decreases n,
{
    let all = Seq::new(n as nat, |i: int| s.subrange(i * size, i * size + size));
    if n == 0 {
        assert(all =~= Seq::<Seq<T>>::empty());
        assert(0 * size == 0) by (nonlinear_arith);
        assert(all.flatten() =~= s.take(n * size));
    } else {
        let front = Seq::new(
            (n - 1) as nat,
            |i: int| s.subrange(i * size, i * size + size),
        );
        assert((n - 1) * size + size == n * size) by (nonlinear_arith);
        assert((n - 1) * size >= 0) by (nonlinear_arith)
            requires
                n >= 1,
                size > 0,
        ;
        lemma_chunks_flatten(s, size, n - 1);
        assert(all.drop_last() =~= front);
        all.lemma_flatten_and_flatten_alt_are_equivalent();
        front.lemma_flatten_and_flatten_alt_are_equivalent();
        assert(all.last() == s.subrange((n - 1) * size, n * size));
        assert(s.take((n - 1) * size) + s.subrange((n - 1) * size, n * size) =~= s.take(n * size));
    }
}

/// What is pending, filled up to a whole chunk.
pub fn filled_chunk<T: Copy>(pending: &Vec<T>, size: usize, fill: T) -> (r: Vec<T>)
    requires
        pending.len() <= size,
    ensures
        r@ == pending@ + Seq::new((size - pending.len()) as nat, |i: int| fill),
{
    let mut out = piece(pending, 0, pending.len());
    while out.len() < size
        invariant
            pending.len() <= out.len() <= size,
            out@ == pending@ + Seq::new((out.len() - pending.len()) as nat, |i: int| fill),
        decreases size - out.len(),
    {
        let ghost n = (out.len() - pending.len()) as nat;
        let ghost before = out@;
        out.push(fill);
        assert(Seq::new(n, |i: int| fill).push(fill) =~= Seq::new(n + 1, |i: int| fill));
        assert(out@ =~= pending@ + Seq::new(n + 1, |i: int| fill));
    }
    out
}

/// The gain of a channel in hundredths, where the other one is pushed back.
pub open spec fn side_gain(percent: int) -> u32 {
    if percent < 0 {
        0
    } else if percent > 100 {
        100
    } else {
        percent as u32
    }
}

/// The gains of the left and the right channel in hundredths; none at the
/// centre, where both stay as they are.
pub fn balance_gains(balance: i32) -> (r: Option<(u32, u32)>)
    ensures
        r == (if balance == 0 {
            None
        } else {
            Some((side_gain(100 - balance), side_gain(100 + balance)))
        }),
{
    if balance == 0 {
        None
    } else {
        Some((clamp_gain(100 - balance as i64), clamp_gain(100 + balance as i64)))
    }
}

fn clamp_gain(percent: i64) -> (r: u32)
    ensures
        r == side_gain(percent as int),
{
    if percent < 0 {
        0
    } else if percent > 100 {
        100
    } else {
        percent as u32
    }
}

/// Scales the samples of two channels, left and right in turn, each by its gain
/// in hundredths, as `scale` scales one.
pub fn scale_pairs<T: Copy, F: Fn(T, u32) -> T>(
    samples: &Vec<T>,
    left: u32,
    right: u32,
    scale: F,
) -> (r: Vec<T>)
    requires
        forall|x: T, g: u32| #[trigger] call_requires(scale, (x, g)),
    ensures
        r.len() == samples.len(),
        forall|i: int|
            0 <= i < r.len() ==> call_ensures(
                scale,
                (
                    samples@[i],
                    if i % 2 == 0 {
                        left
                    } else {
                        right
                    },
                ),
                #[trigger] r@[i],
            ),
{
    let mut out: Vec<T> = Vec::new();
    let mut i: usize = 0;
    while i < samples.len()
        invariant
            forall|x: T, g: u32| #[trigger] call_requires(scale, (x, g)),
            i <= samples.len(),
            out.len() == i,
            forall|k: int|
                0 <= k < i ==> call_ensures(
                    scale,
                    (
                        samples@[k],
                        if k % 2 == 0 {
                            left
                        } else {
                            right
                        },
                    ),
                    #[trigger] out@[k],
                ),
        decreases samples.len() - i,
    {
        let gain: u32 = if i % 2 == 0 {
            left
        } else {
            right
        };
        let y = scale(samples[i], gain);
        out.push(y);
        i = i + 1;
    }
    out
}

/// The samples of a crossfade: both channels for so many seconds.
pub fn crossfade_samples(secs: u32, rate: u32) -> (r: usize)
    requires
        secs * rate * 2 <= usize::MAX,
    ensures
        r == secs * rate * 2,
{
    assert(secs * rate <= secs * rate * 2) by (nonlinear_arith)
        requires
            secs >= 0,
            rate >= 0,
    ;
    secs as usize * rate as usize * 2
}

/// The sample of the last track's end that a place of a crossfade meets.
pub open spec fn tail_at<T>(tail: Seq<T>, pos: int) -> Option<T> {
    if 0 <= pos < tail.len() {
        Some(tail[pos])
    } else {
        None
    }
}

/// Mixes the beginning of a track with the end of the one before, from the
/// place `pos` of a crossfade of `total` samples on. `mix` mixes one sample with
/// the one of the tail, if there is one, at a place of the crossfade. Gives the
/// samples and the place behind them.
pub fn crossfade<T: Copy, F: Fn(T, Option<T>, usize, usize) -> T>(
    samples: &Vec<T>,
    tail: &VecDeque<T>,
    pos: usize,
    total: usize,
    mix: F,
) -> (r: (Vec<T>, usize))
    requires
        forall|x: T, t: Option<T>, p: usize, n: usize| #[trigger]
            call_requires(mix, (x, t, p, n)),
    ensures
        r.0.len() == samples.len(),
        r.1 == (if pos >= total {
            pos as int
        } else if pos + samples.len() > total {
            total as int
        } else {
            pos + samples.len()
        }),
        forall|i: int|
            0 <= i < samples.len() && pos + i < total ==> call_ensures(
                mix,
                (samples@[i], tail_at(tail@, pos + i), (pos + i) as usize, total),
                #[trigger] r.0@[i],
            ),
        forall|i: int|
            0 <= i < samples.len() && pos + i >= total ==> #[trigger] r.0@[i] == samples@[i],
{
    let mut out: Vec<T> = Vec::new();
    let mut p: usize = pos;
    let mut i: usize = 0;
    while i < samples.len()
        invariant
            forall|x: T, t: Option<T>, p: usize, n: usize| #[trigger]
                call_requires(mix, (x, t, p, n)),
            i <= samples.len(),
            out.len() == i,
            p == (if pos >= total {
                pos as int
            } else if pos + i > total {
                total as int
            } else {
                pos + i
            }),
            forall|k: int|
                0 <= k < i && pos + k < total ==> call_ensures(
                    mix,
                    (samples@[k], tail_at(tail@, pos + k), (pos + k) as usize, total),
                    #[trigger] out@[k],
                ),
            forall|k: int|
                0 <= k < i && pos + k >= total ==> #[trigger] out@[k] == samples@[k],
        decreases samples.len() - i,
    {
        if p < total {
            let t = if p < tail.len() {
                Some(tail[p])
            } else {
                None
            };
            let y = mix(samples[i], t, p, total);
            out.push(y);
            p = p + 1;
        } else {
            out.push(samples[i]);
        }
        i = i + 1;
    }
    (out, p)
}

/// The last elements of a list, so many at most.
pub open spec fn last_of<T>(s: Seq<T>, n: int) -> Seq<T> {
    if s.len() > n {
        s.skip(s.len() - n)
    } else {
        s
    }
}

/// Keeps the end of what was played, so many samples at most.
pub fn push_tail<T: Copy>(tail: &mut VecDeque<T>, samples: &Vec<T>, limit: usize)
    requires
        old(tail).len() + samples.len() <= usize::MAX,
    ensures
        final(tail)@ == last_of(old(tail)@ + samples@, limit as int),
{
    let ghost before = tail@;
    let ghost all = tail@ + samples@;
    let mut i: usize = 0;
    assert(before + samples@.take(0) =~= before);
    while i < samples.len()
        invariant
            i <= samples.len(),
            before.len() + samples.len() <= usize::MAX,
            tail@ == before + samples@.take(i as int),
        decreases samples.len() - i,
    {
        tail.push_back(samples[i]);
        assert(samples@.take(i + 1) =~= samples@.take(i as int).push(samples@[i as int]));
        assert(tail@ =~= before + samples@.take(i + 1));
        i = i + 1;
    }
    assert(samples@.take(i as int) =~= samples@);
    assert(all.skip(0) =~= all);
    let ghost mut k: int = 0;
    while tail.len() > limit
        invariant
            0 <= k <= all.len(),
            tail@ == all.skip(k),
            k > 0 ==> tail.len() >= limit,
        decreases tail.len(),
    {
        let _ = tail.pop_front();
        assert(all.skip(k).drop_first() =~= all.skip(k + 1));
        assert(tail@ =~= all.skip(k + 1));
        proof {
            k = k + 1;
        }
    }
}

/// Keeping the end piece by piece keeps the end of the whole.
pub proof fn law_tail_is_the_end<T>(a: Seq<T>, b: Seq<T>, n: int)
    requires
        n >= 0,
    ensures
        last_of(last_of(a, n) + b, n) == last_of(a + b, n),
        last_of(a, n).len() <= n,
{
    assert(last_of(last_of(a, n) + b, n) =~= last_of(a + b, n));
}

/// Balance turns the far side down and leaves the near one: to the right by so many hundredths
/// of the left, to the left of the right, and to silence at the end of the scale.
pub proof fn law_balance_turns_the_far_side_down(b: int)
    ensures
        0 <= b <= 100 ==> side_gain(100 - b) == 100 - b && side_gain(100 + b) == 100,
        -100 <= b <= 0 ==> side_gain(100 - b) == 100 && side_gain(100 + b) == 100 + b,
        b > 100 ==> side_gain(100 - b) == 0 && side_gain(100 + b) == 100,
        b < -100 ==> side_gain(100 - b) == 100 && side_gain(100 + b) == 0,
{
}

/// The end of a list is as long as it may be, and nothing else stands at the end.
pub proof fn law_end_is_kept<T>(s: Seq<T>, n: int)
    requires
        n >= 0,
    ensures
        last_of(s, n).is_suffix_of(s),
        last_of(s, n).len() == if s.len() <= n {
            s.len() as int
        } else {
            n
        },
{
    let r = last_of(s, n);
    assert(s.subrange(s.len() - r.len(), s.len() as int) =~= r);
}

/// Each chunk has its size, and the chunks stand behind one another.
pub proof fn law_chunks_are_whole<T>(s: Seq<T>, size: int, i: int, k: int)
    requires
        size > 0,
        0 <= i < chunks_of(s, size).len(),
        0 <= k < size,
    ensures
        chunks_of(s, size)[i].len() == size,
        i * size + k < s.len(),
        chunks_of(s, size)[i][k] == s[i * size + k],
{
    let n = s.len() as int / size;
    lemma_fundamental_div_mod(s.len() as int, size);
    assert(i * size + size <= s.len() && i * size >= 0) by (nonlinear_arith)
        requires
            0 <= i < n,
            s.len() == size * n + s.len() as int % size,
            0 <= s.len() as int % size,
            size > 0,
    ;
}

/// A crossfade meets the samples of the last track's end in their order, and behind them
/// nothing.
pub proof fn law_crossfade_meets_the_end<T>(tail: Seq<T>, pos: int)
    ensures
        0 <= pos < tail.len() ==> tail_at(tail, pos) == Some(tail[pos]),
        pos >= tail.len() ==> tail_at(tail, pos) is None,
{
}

} // verus!
