//! The output: which rate it runs at, which device is meant, and what the audio
//! callback writes.
use vstd::arithmetic::div_mod::lemma_fundamental_div_mod;
use vstd::prelude::*;

use crate::mpv_ipc::{signed_decimal, signed_decimal_text};
use crate::ring::{
    before_end, counts_free, counts_waiting, free_places, places_behind, read_samples, receives,
    sends, stream_behind, stream_of, taken, waiting, write_samples, written,
};
use crate::state::PlayerState;
use crate::text::{contains, decimal, decimal_text, holds, lowercased};
use crate::track::text_view;

verus! {

/// The systems whose outputs behave differently.
#[derive(Clone, Copy, Debug, PartialEq, Eq, Structural)]
pub enum Platform {
    MacOs,
    Windows,
    Linux,
    Other,
}

/// The rate that a wireless output is set back to: 48 kHz, on systems that keep
/// a wrong one.
pub fn fix_bluetooth_sample_rate(platform: Platform, bluetooth: bool) -> (r: Option<u32>)
    ensures
        r == (if platform is MacOs && bluetooth {
            Some(48000u32)
        } else {
            None
        }),
{
    match platform {
        Platform::MacOs => if bluetooth {
            Some(48000)
        } else {
            None
        },
        _ => None,
    }
}

/// What is to be tried to get an output to a rate.
#[derive(Clone, Copy, Debug, PartialEq, Eq, Structural)]
pub enum RateChange {
    /// Run at this rate.
    Use(u32),
    /// Switch the device to this rate and look whether it did.
    Switch(u32),
}

/// A range of rates that holds one.
pub open spec fn some_range_holds(ranges: Seq<(u32, u32)>, rate: u32) -> bool {
    exists|i: int| 0 <= i < ranges.len() && (#[trigger] ranges[i]).0 <= rate <= ranges[i].1
}

/// What is to be tried to get an output from one rate to another. Where the
/// system switches by itself the rate is asked for; where devices cannot be
/// relied on it stays; else a wired device that can run at it is switched.
pub open spec fn rate_change(
    desired: u32,
    current: u32,
    platform: Platform,
    bluetooth: bool,
    ranges: Seq<(u32, u32)>,
) -> RateChange {
    if desired == current {
        RateChange::Use(current)
    } else {
        match platform {
            Platform::MacOs => if !bluetooth && some_range_holds(ranges, desired) {
                RateChange::Switch(desired)
            } else {
                RateChange::Use(current)
            },
            Platform::Windows => RateChange::Use(current),
            Platform::Linux => RateChange::Use(desired),
            Platform::Other => RateChange::Use(current),
        }
    }
}

/// What is to be tried to get an output from one rate to another.
pub fn plan_output_rate(
    desired_rate: u32,
    current_rate: u32,
    platform: Platform,
    bluetooth: bool,
    ranges: &Vec<(u32, u32)>,
) -> (r: RateChange)
    ensures
        r == rate_change(desired_rate, current_rate, platform, bluetooth, ranges@),
{
    if desired_rate == current_rate {
        return RateChange::Use(current_rate);
    }
    match platform {
        Platform::MacOs => {
            if bluetooth {
                return RateChange::Use(current_rate);
            }
            let mut i: usize = 0;
            while i < ranges.len()
                invariant
                    i <= ranges.len(),
                    desired_rate != current_rate && platform is MacOs && !bluetooth,
                    forall|k: int|
                        0 <= k < i ==> !((#[trigger] ranges@[k]).0 <= desired_rate
                            <= ranges@[k].1),
                decreases ranges.len() - i,
            {
                let range = ranges[i];
                if range.0 <= desired_rate && desired_rate <= range.1 {
                    assert(ranges@[i as int].0 <= desired_rate <= ranges@[i as int].1);
                    assert(some_range_holds(ranges@, desired_rate));
                    return RateChange::Switch(desired_rate);
                }
                i = i + 1;
            }
            RateChange::Use(current_rate)
        },
        Platform::Windows => RateChange::Use(current_rate),
        Platform::Linux => RateChange::Use(desired_rate),
        Platform::Other => RateChange::Use(current_rate),
    }
}

/// The rate that an output runs at. `switched` is the rate that the device
/// reports after a switch that it accepted.
pub fn set_output_sample_rate(
    desired_rate: u32,
    current_rate: u32,
    plan: RateChange,
    switched: Option<u32>,
) -> (r: u32)
    ensures
        r == (match plan {
            RateChange::Use(rate) => rate,
            RateChange::Switch(_) => if switched == Some(desired_rate) {
                desired_rate
            } else {
                current_rate
            },
        }),
{
    match plan {
        RateChange::Use(rate) => rate,
        RateChange::Switch(_) => match switched {
            Some(rate) => if rate == desired_rate {
                desired_rate
            } else {
                current_rate
            },
            None => current_rate,
        },
    }
}

/// The largest of the first `n` rates.
pub open spec fn largest(rates: Seq<u32>, n: int) -> u32
    decreases n,
{
    if n <= 1 {
        rates[0]
    } else {
        let front = largest(rates, n - 1);
        if rates[n - 1] > front {
            rates[n - 1]
        } else {
            front
        }
    }
}

/// The largest rate that a device can run at, of those that it names; 48 kHz
/// where it names none.
pub fn max_supported_rate(rates: &Vec<u32>) -> (r: u32)
    ensures
        rates.len() == 0 ==> r == 48000,
        rates.len() > 0 ==> r == largest(rates@, rates.len() as int) && rates@.contains(r)
            && forall|i: int| 0 <= i < rates.len() ==> #[trigger] rates@[i] <= r,
{
    if rates.len() == 0 {
        return 48000;
    }
    let mut best: u32 = rates[0];
    let mut i: usize = 1;
    while i < rates.len()
        invariant
            1 <= i <= rates.len(),
            best == largest(rates@, i as int),
            rates@.contains(best),
            forall|k: int| 0 <= k < i ==> #[trigger] rates@[k] <= best,
        decreases rates.len() - i,
    {
        if rates[i] > best {
            best = rates[i];
        }
        i = i + 1;
    }
    best
}

/// Whether a device with this name is meant by another name: as a part of it,
/// capital and small letters being the same.
pub open spec fn is_meant(device: Option<Seq<char>>, name: Seq<char>) -> bool {
    match device {
        Some(d) => holds(lowercased(d), lowercased(name)),
        None => false,
    }
}

/// The first device that a name means; a device without a name is never meant.
pub fn find_device_by_name(names: &Vec<Option<String>>, name: &str) -> (r: Option<usize>)
    ensures
        match r {
            Some(i) => {
                &&& i < names.len()
                &&& is_meant(text_view(names@[i as int]), name@)
                &&& forall|k: int| 0 <= k < i ==> !is_meant(text_view(#[trigger] names@[k]), name@)
            },
            None => forall|k: int|
                0 <= k < names.len() ==> !is_meant(text_view(#[trigger] names@[k]), name@),
        },
{
    let wanted = name.to_lowercase();
    let mut i: usize = 0;
    while i < names.len()
        invariant
            i <= names.len(),
            wanted@ == lowercased(name@),
            forall|k: int| 0 <= k < i ==> !is_meant(text_view(#[trigger] names@[k]), name@),
        decreases names.len() - i,
    {
        match &names[i] {
            Some(d) => {
                if contains(d.as_str().to_lowercase().as_str(), wanted.as_str()) {
                    return Some(i);
                }
            },
            None => {},
        }
        i = i + 1;
    }
    None
}

/// One line of the list of devices.
pub open spec fn device_line(number: nat, name: Option<Seq<char>>, standard: Option<Seq<char>>) -> Seq<
    char,
> {
    let shown = match name {
        Some(n) => n,
        None => "Unknown"@,
    };
    "  "@ + decimal(number) + ". "@ + shown + if standard == Some(shown) {
        " (default)"@
    } else {
        ""@
    }
}

/// The lines of the list of devices: their numbers and names, and which is the
/// system's own choice.
pub fn list_output_devices(names: &Vec<Option<String>>, standard: &Option<String>) -> (r: Vec<
    String,
>)
    ensures
        r.len() == names.len(),
        forall|i: int|
            0 <= i < names.len() ==> (#[trigger] r@[i])@ == device_line(
                (i + 1) as nat,
                text_view(names@[i]),
                text_view(*standard),
            ),
{
    let mut out: Vec<String> = Vec::new();
    let mut i: usize = 0;
    while i < names.len()
        invariant
            i <= names.len(),
            out.len() == i,
            forall|k: int|
                0 <= k < i ==> (#[trigger] out@[k])@ == device_line(
                    (k + 1) as nat,
                    text_view(names@[k]),
                    text_view(*standard),
                ),
        decreases names.len() - i,
    {
        let shown = match &names[i] {
            Some(n) => n.clone(),
            None => "Unknown".to_string(),
        };
        let is_standard = match standard {
            Some(s) => *s == shown,
            None => false,
        };
        let mut line = "  ".to_string();
        line.append(decimal_text(i as u64 + 1).as_str());
        line.append(". ");
        line.append(shown.as_str());
        if is_standard {
            line.append(" (default)");
        } else {
            line.append("");
        }
        out.push(line);
        i = i + 1;
    }
    out
}

/// Whether exclusive use of an output has to be given back: only where the
/// system knows it.
pub fn release_exclusive_mode(platform: Platform, device: Option<u32>) -> (r: Option<u32>)
    ensures
        r == (if platform is MacOs {
            device
        } else {
            None
        }),
{
    match platform {
        Platform::MacOs => device,
        _ => None,
    }
}

/// What the audio callback does.
#[derive(Clone, Copy, Debug, PartialEq, Eq, Structural)]
pub enum Callback {
    /// Throw away what waits and be silent.
    Drain,
    /// Be silent.
    Silence,
    /// Take this many samples.
    Read(usize),
}

/// The samples that a callback for `len` values of `channels` channels takes:
/// two for each frame, as far as they wait.
pub open spec fn samples_wanted(len: usize, channels: usize, available: usize) -> int {
    let n = (len / channels) * 2;
    if n < available {
        n
    } else {
        available as int
    }
}

/// What the callback does: after a seek or a skip it throws away what waits; it
/// is silent while paused and while nothing waits.
pub open spec fn callback_for(s: PlayerState, available: usize, channels: usize, len: usize) -> Callback {
    if s.reset_consumer_counter {
        Callback::Drain
    } else if s.paused || available == 0 || channels == 0 {
        Callback::Silence
    } else {
        Callback::Read(samples_wanted(len, channels, available) as usize)
    }
}

/// The player's state after the callback has looked at it.
pub open spec fn after_callback(s: PlayerState, available: usize) -> PlayerState {
    if s.reset_consumer_counter {
        PlayerState { reset_consumer_counter: false, discard_samples: 0, ..s }
    } else {
        PlayerState { buffer_level: available, ..s }
    }
}

/// What the callback does, with this many samples waiting.
pub fn plan_callback(s: &mut PlayerState, available: usize, channels: usize, len: usize) -> (r:
    Callback)
    requires
        len <= usize::MAX / 2,
    ensures
        r == callback_for(*old(s), available, channels, len),
        *final(s) == after_callback(*old(s), available),
{
    if s.reset_consumer_counter {
        clear_reset(s);
        return Callback::Drain;
    }
    let silent = s.paused || available == 0 || channels == 0;
    set_level(s, available);
    if silent {
        return Callback::Silence;
    }
    Callback::Read(wanted_samples(len, channels, available))
}

fn clear_reset(s: &mut PlayerState)
    ensures
        *final(s) == (PlayerState { reset_consumer_counter: false, discard_samples: 0, ..*old(s) }),
{
    s.reset_consumer_counter = false;
    s.discard_samples = 0;
}

fn set_level(s: &mut PlayerState, available: usize)
    ensures
        *final(s) == (PlayerState { buffer_level: available, ..*old(s) }),
{
    s.buffer_level = available;
}

fn wanted_samples(len: usize, channels: usize, available: usize) -> (r: usize)
    requires
        len <= usize::MAX / 2,
        channels > 0,
    ensures
        r == samples_wanted(len, channels, available),
{
    proof {
        lemma_fundamental_div_mod(len as int, channels as int);
        assert(len / channels <= len) by (nonlinear_arith)
            requires
                channels > 0,
                len == channels * (len / channels) + len % channels,
                len % channels >= 0,
                len / channels >= 0,
        ;
    }
    let wanted = len / channels * 2;
    if wanted < available {
        wanted
    } else {
        available
    }
}

/// The pairs of samples in a piece of a ring; a last one without its partner is
/// left out.
pub open spec fn pairs_in(s: Seq<u32>) -> Seq<(u32, u32)> {
    Seq::new((s.len() / 2) as nat, |i: int| (s[2 * i], s[2 * i + 1]))
}

/// The pairs of samples of two pieces.
pub fn pairs_of(first: &Vec<u32>, second: &Vec<u32>) -> (r: Vec<(u32, u32)>)
    ensures
        r@ == pairs_in(first@) + pairs_in(second@),
{
    let mut out: Vec<(u32, u32)> = Vec::new();
    push_pairs(&mut out, first);
    push_pairs(&mut out, second);
    assert(out@ =~= pairs_in(first@) + pairs_in(second@));
    out
}

fn push_pairs(out: &mut Vec<(u32, u32)>, s: &Vec<u32>)
    ensures
        final(out)@ == old(out)@ + pairs_in(s@),
{
    let ghost before = out@;
    let mut k: usize = 0;
    while k < s.len() / 2
        invariant
            k <= s.len() / 2,
            out.len() == before.len() + k,
            forall|i: int| 0 <= i < before.len() ==> #[trigger] out@[i] == before[i],
            forall|i: int|
                before.len() <= i < out.len() ==> #[trigger] out@[i] == pairs_in(s@)[i
                    - before.len()],
        decreases s.len() / 2 - k,
    {
        out.push((s[2 * k], s[2 * k + 1]));
        k = k + 1;
    }
    assert(out@ =~= before + pairs_in(s@));
}

/// Whether a value is the mix of two samples: each scaled, then mixed.
pub open spec fn is_mix<S: Fn(u32) -> u32, M: Fn(u32, u32) -> u32>(
    scale: S,
    mix: M,
    pair: (u32, u32),
    y: u32,
) -> bool {
    exists|l: u32, r: u32|
        call_ensures(scale, (pair.0,), l) && call_ensures(scale, (pair.1,), r) && #[trigger]
            call_ensures(mix, (l, r), y)
}

/// Whether values hold a frame for each pair and silence behind them. One
/// channel gets the mix of a pair; of several the first two get the scaled
/// samples and the others are silent.
pub open spec fn is_output<S: Fn(u32) -> u32, M: Fn(u32, u32) -> u32>(
    scale: S,
    mix: M,
    pairs: Seq<(u32, u32)>,
    channels: int,
    out: Seq<u32>,
) -> bool {
    &&& forall|f: int|
        #![trigger pairs[f]]
        0 <= f < pairs.len() ==> if channels == 1 {
            is_mix(scale, mix, pairs[f], out[f])
        } else {
            &&& call_ensures(scale, (pairs[f].0,), out[f * channels])
            &&& call_ensures(scale, (pairs[f].1,), out[f * channels + 1])
            &&& forall|c: int|
                f * channels + 2 <= c < f * channels + channels ==> #[trigger] out[c] == 0
        }
    &&& forall|i: int| pairs.len() * channels <= i < out.len() ==> #[trigger] out[i] == 0
}

/// The values of a callback for these pairs of samples, `len` in all. `scale`
/// applies the volume to a sample, `mix` makes one sample of two.
#[verifier::spinoff_prover]
pub fn render<S: Fn(u32) -> u32, M: Fn(u32, u32) -> u32>(
    pairs: &Vec<(u32, u32)>,
    channels: usize,
    len: usize,
    scale: &S,
    mix: &M,
) -> (r: Vec<u32>)
    requires
        channels > 0,
        pairs.len() * channels <= len,
        forall|x: u32| #[trigger] call_requires(*scale, (x,)),
        forall|x: u32, y: u32| #[trigger] call_requires(*mix, (x, y)),
    ensures
        r.len() == len,
        is_output(*scale, *mix, pairs@, channels as int, r@),
{
    let mut out: Vec<u32> = Vec::new();
    let mut f: usize = 0;
    let ghost ch = channels as int;
    assert(0 * ch == 0) by (nonlinear_arith);
    while f < pairs.len()
        invariant
            f <= pairs.len(),
            ch == channels,
            channels > 0,
            pairs.len() * channels <= len,
            forall|x: u32| #[trigger] call_requires(*scale, (x,)),
            forall|x: u32, y: u32| #[trigger] call_requires(*mix, (x, y)),
            out.len() == f * ch,
            is_output(*scale, *mix, pairs@.take(f as int), ch, out@),
        decreases pairs.len() - f,
    {
        let ghost before = out@;
        let ghost shown = pairs@.take(f as int);
        let (left, right) = pairs[f];
        let l = scale(left);
        let r = scale(right);
        proof {
            assert(f * ch + ch == (f + 1) * ch) by (nonlinear_arith);
            assert((f + 1) * ch <= pairs.len() * ch) by (nonlinear_arith)
                requires
                    f + 1 <= pairs.len(),
                    ch > 0,
            ;
            assert(f * ch >= 0) by (nonlinear_arith)
                requires
                    f >= 0,
                    ch > 0,
            ;
        }
        if channels == 1 {
            let y = mix(l, r);
            out.push(y);
            assert(is_mix(*scale, *mix, pairs@[f as int], y));
        } else {
            out.push(l);
            out.push(r);
            let mut c: usize = 2;
            while c < channels
                invariant
                    2 <= c <= channels,
                    ch == channels,
                    before.len() == f * ch,
                    out.len() == f * ch + c,
                    forall|i: int| 0 <= i < f * ch ==> #[trigger] out@[i] == before[i],
                    out@[f * ch] == l,
                    out@[f * ch + 1] == r,
                    forall|i: int| f * ch + 2 <= i < f * ch + c ==> #[trigger] out@[i] == 0,
                decreases channels - c,
            {
                out.push(0);
                c = c + 1;
            }
        }
        proof {
            let next = pairs@.take(f + 1);
            assert forall|k: int|
                #![trigger next[k]]
                0 <= k < next.len() implies if ch == 1 {
                is_mix(*scale, *mix, next[k], out@[k])
            } else {
                &&& call_ensures(*scale, (next[k].0,), out@[k * ch])
                &&& call_ensures(*scale, (next[k].1,), out@[k * ch + 1])
                &&& forall|c: int| k * ch + 2 <= c < k * ch + ch ==> #[trigger] out@[c] == 0
            } by {
                if k < f {
                    assert(shown[k] == next[k]);
                    assert(k * ch + ch <= f * ch) by (nonlinear_arith)
                        requires
                            k + 1 <= f,
                            ch > 0,
                    ;
                    assert(k * ch >= 0) by (nonlinear_arith)
                        requires
                            k >= 0,
                            ch > 0,
                    ;
                    if ch == 1 {
                        assert(k * ch == k);
                        assert(out@[k] == before[k]);
                    } else {
                        assert(out@[k * ch] == before[k * ch]);
                        assert(out@[k * ch + 1] == before[k * ch + 1]);
                        assert forall|c: int| k * ch + 2 <= c < k * ch + ch implies #[trigger] out@[c]
                            == 0 by {
                            assert(out@[c] == before[c]);
                        }
                    }
                } else {
                    assert(next[k] == pairs@[f as int]);
                    if ch == 1 {
                        assert(f * ch == f);
                    }
                }
            }
            assert(next.len() == f + 1);
        }
        f = f + 1;
    }
    assert(pairs@.take(f as int) =~= pairs@);
    let ghost body = out@;
    assert(is_output(*scale, *mix, pairs@, ch, body));
    while out.len() < len
        invariant
            body.len() <= out.len() <= len,
            is_output(*scale, *mix, pairs@, ch, body),
            forall|i: int| 0 <= i < body.len() ==> #[trigger] out@[i] == body[i],
            forall|i: int| body.len() <= i < out.len() ==> #[trigger] out@[i] == 0,
        decreases len - out.len(),
    {
        out.push(0);
    }
    proof {
        assert forall|k: int|
            #![trigger pairs@[k]]
            0 <= k < pairs.len() implies if ch == 1 {
            is_mix(*scale, *mix, pairs@[k], out@[k])
        } else {
            &&& call_ensures(*scale, (pairs@[k].0,), out@[k * ch])
            &&& call_ensures(*scale, (pairs@[k].1,), out@[k * ch + 1])
            &&& forall|c: int| k * ch + 2 <= c < k * ch + ch ==> #[trigger] out@[c] == 0
        } by {
            assert(k * ch + ch <= body.len()) by (nonlinear_arith)
                requires
                    k + 1 <= pairs.len(),
                    ch > 0,
                    body.len() == pairs.len() * ch,
            ;
            assert(k * ch >= 0) by (nonlinear_arith)
                requires
                    k >= 0,
                    ch > 0,
            ;
            if ch == 1 {
                assert(k * ch == k);
                assert(out@[k] == body[k]);
            } else {
                assert(out@[k * ch] == body[k * ch]);
                assert(out@[k * ch + 1] == body[k * ch + 1]);
                assert(call_ensures(*scale, (pairs@[k].0,), body[k * ch]));
                assert(forall|c: int|
                    k * ch + 2 <= c < k * ch + ch ==> #[trigger] body[c] == 0);
                assert forall|c: int| k * ch + 2 <= c < k * ch + ch implies #[trigger] out@[c]
                    == 0 by {
                    assert(out@[c] == body[c]);
                }
            }
        }
    }
    out
}

/// The value that the visualization sees at a place: left and right of each
/// frame in turn, one channel standing for both.
pub open spec fn tap_source(out: Seq<u32>, channels: int, i: int) -> u32 {
    out[(i / 2) * channels + if channels >= 2 {
        i % 2
    } else {
        0
    }]
}

/// Whether values are what the visualization sees of so many frames, as they
/// were before the volume where `undo` holds.
pub open spec fn is_tap<U: Fn(u32) -> u32>(
    raw: U,
    undo: bool,
    out: Seq<u32>,
    channels: int,
    frames: int,
    seen: Seq<u32>,
) -> bool {
    &&& seen.len() == 2 * frames
    &&& forall|i: int|
        0 <= i < seen.len() ==> if undo {
            call_ensures(raw, (tap_source(out, channels, i),), #[trigger] seen[i])
        } else {
            seen[i] == tap_source(out, channels, i)
        }
}

/// What the visualization sees of the first frames of an output. `raw` undoes
/// the volume.
pub fn tap<U: Fn(u32) -> u32>(
    out: &Vec<u32>,
    channels: usize,
    frames: usize,
    undo: bool,
    raw: &U,
) -> (r: Vec<u32>)
    requires
        channels > 0,
        frames * channels <= out.len(),
        forall|x: u32| #[trigger] call_requires(*raw, (x,)),
    ensures
        is_tap(*raw, undo, out@, channels as int, frames as int, r@),
{
    let mut seen: Vec<u32> = Vec::new();
    let mut f: usize = 0;
    let ghost ch = channels as int;
    while f < frames
        invariant
            ch == channels,
            channels > 0,
            frames * channels <= out.len(),
            forall|x: u32| #[trigger] call_requires(*raw, (x,)),
            f <= frames,
            is_tap(*raw, undo, out@, ch, f as int, seen@),
        decreases frames - f,
    {
        proof {
            assert(f * ch + ch <= frames * ch) by (nonlinear_arith)
                requires
                    f + 1 <= frames,
                    ch > 0,
            ;
            assert(f * ch >= 0) by (nonlinear_arith)
                requires
                    f >= 0,
                    ch > 0,
            ;
        }
        let at: usize = f * channels;
        let left = out[at];
        let right = if channels >= 2 {
            out[at + 1]
        } else {
            left
        };
        let ghost before = seen@;
        proof {
            assert((2 * f) / 2 == f && (2 * f) % 2 == 0);
            assert((2 * f + 1) / 2 == f && (2 * f + 1) % 2 == 1);
            assert(tap_source(out@, ch, 2 * f) == left);
            assert(tap_source(out@, ch, 2 * f + 1) == right);
        }
        if undo {
            let l = raw(left);
            let r = raw(right);
            seen.push(l);
            seen.push(r);
        } else {
            seen.push(left);
            seen.push(right);
        }
        assert forall|i: int| 0 <= i < seen.len() implies if undo {
            call_ensures(*raw, (tap_source(out@, ch, i),), #[trigger] seen@[i])
        } else {
            seen@[i] == tap_source(out@, ch, i)
        } by {
            if i < 2 * f {
                assert(seen@[i] == before[i]);
            } else if i == 2 * f {
            } else {
                assert(i == 2 * f + 1);
            }
        }
        f = f + 1;
    }
    seen
}

/// Silence.
pub open spec fn silent(out: Seq<u32>) -> bool {
    forall|i: int| 0 <= i < out.len() ==> #[trigger] out[i] == 0
}

fn silence(len: usize) -> (r: Vec<u32>)
    ensures
        r.len() == len,
        silent(r@),
{
    let mut out: Vec<u32> = Vec::new();
    while out.len() < len
        invariant
            out.len() <= len,
            silent(out@),
        decreases len - out.len(),
    {
        out.push(0);
    }
    out
}

/// The player's state after a callback that took `n` samples: the position moves
/// by their frames.
pub open spec fn after_read(s: PlayerState, available: usize, n: usize) -> PlayerState {
    PlayerState {
        samples_played: s.samples_played.wrapping_add((n / 2) as u64),
        ..after_callback(s, available)
    }
}

/// What the visualization is shown of a callback, through a ring with this end:
/// the samples that are heard, where there are any and as many places are free.
pub open spec fn is_shown<U: Fn(u32) -> u32>(
    viz: rtrb::Producer<u32>,
    raw: U,
    undo: bool,
    out: Seq<u32>,
    channels: int,
    frames: int,
    shown: Seq<u32>,
) -> bool {
    if frames == 0 {
        shown.len() == 0
    } else {
        exists|free: nat| #[trigger]
            counts_free(viz, free) && if 2 * frames <= free {
                is_tap(raw, undo, out, channels, frames, shown)
            } else {
                shown.len() == 0
            }
    }
}

/// What a callback does, where so many samples were counted in its ring: `read`
/// is what it takes from there, in pieces of which the first has `cut` samples,
/// and `shown` is what it hands to the visualization.
pub open spec fn is_callback<S: Fn(u32) -> u32, M: Fn(u32, u32) -> u32, U: Fn(u32) -> u32>(
    s: PlayerState,
    available: usize,
    cut: nat,
    channels: usize,
    scale: S,
    mix: M,
    raw: U,
    viz: rtrb::Producer<u32>,
    out: Seq<u32>,
    after: PlayerState,
    read: Seq<u32>,
    shown: Seq<u32>,
) -> bool {
    match callback_for(s, available, channels, out.len() as usize) {
        Callback::Drain => {
            &&& silent(out)
            &&& after == after_callback(s, available)
            &&& read.len() == available
            &&& shown.len() == 0
        },
        Callback::Silence => {
            &&& silent(out)
            &&& after == after_callback(s, available)
            &&& read.len() == 0
            &&& shown.len() == 0
        },
        Callback::Read(n) => {
            let pairs = pairs_in(read.take(cut as int)) + pairs_in(read.skip(cut as int));
            &&& cut <= n
            &&& read.len() == n
            &&& is_output(scale, mix, pairs, channels as int, out)
            &&& is_shown(
                viz,
                raw,
                s.pre_fader && s.volume > 0,
                out,
                channels as int,
                pairs.len() as int,
                shown,
            )
            &&& after == after_read(s, available, n)
        },
    }
}

fn count_played(s: &mut PlayerState, n: usize)
    ensures
        *final(s) == (PlayerState {
            samples_played: old(s).samples_played.wrapping_add((n / 2) as u64),
            ..*old(s)
        }),
{
    s.samples_played = s.samples_played.wrapping_add((n / 2) as u64);
}

/// Renders what was taken from the ring and shows it to the visualization.
fn render_pieces<S: Fn(u32) -> u32, M: Fn(u32, u32) -> u32, U: Fn(u32) -> u32>(
    pieces: &(Vec<u32>, Vec<u32>),
    viz: &mut rtrb::Producer<u32>,
    channels: usize,
    len: usize,
    undo: bool,
    scale: &S,
    mix: &M,
    raw: &U,
) -> (r: Vec<u32>)
    requires
        channels > 0,
        pieces.0.len() + pieces.1.len() <= len / channels * 2,
        forall|x: u32| #[trigger] call_requires(*scale, (x,)),
        forall|x: u32, y: u32| #[trigger] call_requires(*mix, (x, y)),
        forall|x: u32| #[trigger] call_requires(*raw, (x,)),
    ensures
        r.len() == len,
        is_output(
            *scale,
            *mix,
            pairs_in(pieces.0@) + pairs_in(pieces.1@),
            channels as int,
            r@,
        ),
        written(*old(viz)).is_prefix_of(written(*final(viz))),
        is_shown(
            *old(viz),
            *raw,
            undo,
            r@,
            channels as int,
            (pairs_in(pieces.0@) + pairs_in(pieces.1@)).len() as int,
            written(*final(viz)).skip(written(*old(viz)).len() as int),
        ),
        stream_of(*final(viz)) == stream_of(*old(viz)),
        sends(*old(viz)) ==> sends(*final(viz)),
{
    let ghost before = written(*viz);
    let pairs = pairs_of(&pieces.0, &pieces.1);
    proof {
        lemma_fundamental_div_mod(len as int, channels as int);
        assert(pairs.len() * channels <= len) by (nonlinear_arith)
            requires
                pairs.len() <= len / channels,
                len == channels * (len / channels) + len % channels,
                len % channels >= 0,
                channels > 0,
        ;
    }
    let out = render(&pairs, channels, len, scale, mix);
    let frames = pairs.len();
    if frames > 0 {
        let seen = tap(&out, channels, frames, undo, raw);
        if free_places(viz) >= seen.len() {
            let _ = write_samples(viz, &seen);
            assert((before + seen@).skip(before.len() as int) =~= seen@);
        }
    }
    assert(before.skip(before.len() as int) =~= Seq::<u32>::empty());
    out
}

/// The values of a callback for `channels` channels, `len` in all. `scale`
/// applies the volume to a sample, `mix` makes one sample of two and `raw` undoes
/// the volume for the visualization.
pub fn fill_output<S: Fn(u32) -> u32, M: Fn(u32, u32) -> u32, U: Fn(u32) -> u32>(
    s: &mut PlayerState,
    consumer: &mut rtrb::Consumer<u32>,
    viz: &mut rtrb::Producer<u32>,
    channels: usize,
    len: usize,
    scale: S,
    mix: M,
    raw: U,
) -> (r: Vec<u32>)
    requires
        len <= usize::MAX / 2,
        forall|x: u32| #[trigger] call_requires(scale, (x,)),
        forall|x: u32, y: u32| #[trigger] call_requires(mix, (x, y)),
        forall|x: u32| #[trigger] call_requires(raw, (x,)),
    ensures
        r.len() == len,
        taken(*old(consumer)).is_prefix_of(taken(*final(consumer))),
        stream_behind(*final(consumer)) == stream_behind(*old(consumer)),
        receives(*old(consumer)) ==> receives(*final(consumer)),
        written(*old(viz)).is_prefix_of(written(*final(viz))),
        stream_of(*final(viz)) == stream_of(*old(viz)),
        sends(*old(viz)) ==> sends(*final(viz)),
        places_behind(*final(consumer)) == places_behind(*old(consumer)),
        exists|available: usize|
            counts_waiting(*old(consumer), available as nat) && #[trigger] is_callback(
                *old(s),
                available,
                before_end(
                    places_behind(*old(consumer)),
                    taken(*old(consumer)).len(),
                    (taken(*final(consumer)).len() - taken(*old(consumer)).len()) as nat,
                ),
                channels,
                scale,
                mix,
                raw,
                *old(viz),
                r@,
                *final(s),
                taken(*final(consumer)).skip(taken(*old(consumer)).len() as int),
                written(*final(viz)).skip(written(*old(viz)).len() as int),
            ),
{
    let ghost start = taken(*consumer);
    let ghost places = places_behind(*consumer);
    let ghost seen = written(*viz);
    let ghost state = *s;
    let ghost shown_to = *viz;
    let available = waiting(consumer);
    let undo = s.pre_fader && s.volume > 0;
    let out: Vec<u32>;
    match plan_callback(s, available, channels, len) {
        Callback::Drain => {
            let _ = read_samples(consumer, available);
            out = silence(len);
        },
        Callback::Silence => {
            out = silence(len);
        },
        Callback::Read(n) => match read_samples(consumer, n) {
            Some(pieces) => {
                proof {
                    let cut = pieces.0@.len();
                    let read = pieces.0@ + pieces.1@;
                    assert((start + pieces.0@ + pieces.1@).skip(start.len() as int) =~= read);
                    assert(read.take(cut as int) =~= pieces.0@);
                    assert(read.skip(cut as int) =~= pieces.1@);
                }
                out = render_pieces(&pieces, viz, channels, len, undo, &scale, &mix, &raw);
                count_played(s, n);
            },
            None => {
                out = silence(len);
            },
        },
    }
    assert(start.skip(start.len() as int) =~= Seq::<u32>::empty());
    assert(seen.skip(seen.len() as int) =~= Seq::<u32>::empty());
    assert(is_callback(
        state,
        available,
        before_end(places, start.len(), (taken(*consumer).len() - start.len()) as nat),
        channels,
        scale,
        mix,
        raw,
        shown_to,
        out@,
        *s,
        taken(*consumer).skip(start.len() as int),
        written(*viz).skip(seen.len() as int),
    ));
    out
}

/// In stereo a callback plays what waits: from a ring with an even number of places, of
/// which whole frames were read before, each value is the next sample with the volume applied, as far as samples
/// wait, and silence behind them; so many samples leave the ring, and the position
/// moves by their frames.
pub proof fn law_callback_plays_what_waits<
    S: Fn(u32) -> u32,
    M: Fn(u32, u32) -> u32,
    U: Fn(u32) -> u32,
>(
    s: PlayerState,
    available: usize,
    places: nat,
    start: nat,
    scale: S,
    mix: M,
    raw: U,
    viz: rtrb::Producer<u32>,
    out: Seq<u32>,
    after: PlayerState,
    read: Seq<u32>,
    shown: Seq<u32>,
)
    requires
        !s.paused && !s.reset_consumer_counter,
        0 < available && available % 2 == 0,
        out.len() % 2 == 0 && out.len() <= usize::MAX / 2,
        places % 2 == 0 && start % 2 == 0,
        is_callback(
            s,
            available,
            before_end(places, start, read.len()),
            2,
            scale,
            mix,
            raw,
            viz,
            out,
            after,
            read,
            shown,
        ),
    ensures
        ({
            let k: int = if out.len() < available {
                out.len() as int
            } else {
                available as int
            };
            &&& read.len() == k
            &&& forall|i: int|
                0 <= i < k ==> call_ensures(scale, (#[trigger] read[i],), out[i])
            &&& forall|i: int| k <= i < out.len() ==> #[trigger] out[i] == 0
            &&& after.samples_played == s.samples_played.wrapping_add((k / 2) as u64)
        }),
{
    let cut = before_end(places, start, read.len());
    let a = read.take(cut as int);
    let b = read.skip(cut as int);
    let pairs = pairs_in(a) + pairs_in(b);
    assert(read.len() % 2 == 0);
    if places > 0 {
        lemma_fundamental_div_mod(start as int, places as int);
        let half = places / 2;
        let around = start / places;
        assert(places * around == 2 * (half * around)) by (nonlinear_arith)
            requires
                places == 2 * half,
        ;
    }
    assert(cut % 2 == 0);
    assert(pairs.len() == read.len() / 2);
    assert forall|i: int| 0 <= i < read.len() implies call_ensures(
        scale,
        (#[trigger] read[i],),
        out[i],
    ) by {
        let f = i / 2;
        let p = pairs[f];
        if f < a.len() / 2 {
            assert(p == pairs_in(a)[f]);
            assert(p.0 == read[2 * f] && p.1 == read[2 * f + 1]);
        } else {
            let g = f - a.len() / 2;
            assert(p == pairs_in(b)[g]);
            assert(p.0 == b[2 * g] && p.1 == b[2 * g + 1]);
            assert(p.0 == read[2 * f] && p.1 == read[2 * f + 1]);
        }
        assert(f * 2 == 2 * f);
        assert(i == 2 * f || i == 2 * f + 1);
    }
}

/// While the player is paused the output is silent, nothing leaves the ring and
/// nothing is shown.
pub proof fn law_pause_is_silent<S: Fn(u32) -> u32, M: Fn(u32, u32) -> u32, U: Fn(u32) -> u32>(
    s: PlayerState,
    available: usize,
    cut: nat,
    channels: usize,
    scale: S,
    mix: M,
    raw: U,
    viz: rtrb::Producer<u32>,
    out: Seq<u32>,
    after: PlayerState,
    read: Seq<u32>,
    shown: Seq<u32>,
)
    requires
        s.paused && !s.reset_consumer_counter,
        is_callback(s, available, cut, channels, scale, mix, raw, viz, out, after, read, shown),
    ensures
        silent(out),
        read.len() == 0,
        shown.len() == 0,
        after.samples_played == s.samples_played,
{
}

/// A callback never takes more samples than the frames that it has to fill.
pub proof fn law_callback_takes_what_fits(
    s: PlayerState,
    available: usize,
    channels: usize,
    len: usize,
)
    requires
        len <= usize::MAX / 2,
    ensures
        callback_for(s, available, channels, len) matches Callback::Read(n) ==> n <= available
            && (n / 2) * channels <= len,
{
    if callback_for(s, available, channels, len) is Read {
        let q = (len / channels) as int;
        lemma_fundamental_div_mod(len as int, channels as int);
        assert(q <= len && q >= 0 && q * channels <= len) by (nonlinear_arith)
            requires
                channels > 0,
                len == channels * q + len % channels,
                len % channels >= 0,
                len >= 0,
                q == len / channels,
        ;
        let n = samples_wanted(len, channels, available);
        assert((n / 2) * channels <= q * channels) by (nonlinear_arith)
            requires
                n / 2 <= q,
                channels > 0,
        ;
    }
}

/// The codes by which CoreAudio names wireless transports: `blue` and `blea`.
pub const TRANSPORT_BLUETOOTH: u32 = 0x626C7565;

pub const TRANSPORT_BLUETOOTH_LE: u32 = 0x626C6561;

/// Whether a transport of CoreAudio is wireless.
pub fn is_bluetooth_transport(transport: u32) -> (r: bool)
    ensures
        r == (transport == 0x626C7565 || transport == 0x626C6561),
{
    transport == TRANSPORT_BLUETOOTH || transport == TRANSPORT_BLUETOOTH_LE
}

/// A byte of a code as it is shown: itself where it is a visible ASCII character,
/// else a question mark.
pub open spec fn shown_byte(b: int) -> char {
    if 0x21 <= b <= 0x7e {
        (b as u8) as char
    } else {
        '?'
    }
}

/// The four characters of a code, the highest byte first.
pub open spec fn four_characters(code: u32) -> Seq<char> {
    seq![
        shown_byte(code as int / 0x100_0000),
        shown_byte(code as int / 0x1_0000 % 0x100),
        shown_byte(code as int / 0x100 % 0x100),
        shown_byte(code as int % 0x100),
    ]
}

fn show_byte(b: u8) -> (r: char)
    ensures
        r == shown_byte(b as int),
{
    if 0x21 <= b && b <= 0x7e {
        b as char
    } else {
        '?'
    }
}

/// What is told of an error of CoreAudio: its code as characters and as a number.
pub fn core_audio_error(status: i32) -> (r: String)
    ensures
        r@ == "CoreAudio error '"@ + four_characters(status as u32) + "' ("@ + signed_decimal(
            status as int,
        ) + ")"@,
{
    let code: u32 = #[verifier::truncate]
    (status as u32);
    let mut out = "CoreAudio error '".to_string();
    let ghost front = out@;
    out.push(show_byte((code / 0x100_0000) as u8));
    out.push(show_byte((code / 0x1_0000 % 0x100) as u8));
    out.push(show_byte((code / 0x100 % 0x100) as u8));
    out.push(show_byte((code % 0x100) as u8));
    assert(out@ =~= front + four_characters(code));
    out.append("' (");
    out.append(signed_decimal_text(status as i64).as_str());
    out.append(")");
    out
}

/// The device whose exclusive use is asked for: the one with the output's name,
/// else the system's own choice. An error where there is neither, and where the
/// system has no exclusive use.
pub open spec fn exclusive_target(platform: Platform, named: Option<u32>, standard: Option<u32>) -> Result<
    u32,
    Seq<char>,
> {
    if platform is MacOs {
        match named {
            Some(id) => Ok(id),
            None => match standard {
                Some(id) => Ok(id),
                None => Err("Could not find CoreAudio device ID"@),
            },
        }
    } else {
        Err("Exclusive mode not supported on this platform"@)
    }
}

/// The device whose exclusive use is asked for.
pub fn set_exclusive_mode(platform: Platform, named: Option<u32>, standard: Option<u32>) -> (r: Result<
    u32,
    String,
>)
    ensures
        exclusive_target(platform, named, standard) == (match r {
            Ok(id) => Ok::<u32, Seq<char>>(id),
            Err(text) => Err::<u32, Seq<char>>(text@),
        }),
{
    match platform {
        Platform::MacOs => match named {
            Some(id) => Ok(id),
            None => match standard {
                Some(id) => Ok(id),
                None => Err("Could not find CoreAudio device ID".to_string()),
            },
        },
        _ => Err("Exclusive mode not supported on this platform".to_string()),
    }
}

/// What is told where exclusive use was refused. Where the system can still
/// switch rates the player goes on doing so; else it gives exclusive use up.
pub fn exclusive_refused(s: &mut PlayerState, platform: Platform, reason: &str) -> (r: String)
    ensures
        r@ == (if platform is MacOs {
            "Note: Hog mode unavailable ("@ + reason@
                + "). Per-track rate switching is still active."@
        } else {
            "Note: "@ + reason@
        }),
        *final(s) == (if platform is MacOs {
            *old(s)
        } else {
            PlayerState { exclusive: false, ..*old(s) }
        }),
{
    match platform {
        Platform::MacOs => {
            let mut out = "Note: Hog mode unavailable (".to_string();
            out.append(reason);
            out.append("). Per-track rate switching is still active.");
            out
        },
        _ => {
            s.exclusive = false;
            let mut out = "Note: ".to_string();
            out.append(reason);
            out
        },
    }
}

/// After a seek or a skip one callback throws away all that waits and is silent; the position
/// stays, and the next callback plays again.
pub proof fn law_reset_throws_away<S: Fn(u32) -> u32, M: Fn(u32, u32) -> u32, U: Fn(u32) -> u32>(
    s: PlayerState,
    available: usize,
    cut: nat,
    channels: usize,
    scale: S,
    mix: M,
    raw: U,
    viz: rtrb::Producer<u32>,
    out: Seq<u32>,
    after: PlayerState,
    read: Seq<u32>,
    shown: Seq<u32>,
)
    requires
        s.reset_consumer_counter,
        is_callback(s, available, cut, channels, scale, mix, raw, viz, out, after, read, shown),
    ensures
        forall|i: int| 0 <= i < out.len() ==> #[trigger] out[i] == 0,
        read.len() == available,
        shown.len() == 0,
        after == (PlayerState { reset_consumer_counter: false, discard_samples: 0, ..s }),
{
}

/// A callback tells how much waits, and changes nothing else of the player but the position,
/// which moves by the frames that were taken.
pub proof fn law_callback_tells_the_level<
    S: Fn(u32) -> u32,
    M: Fn(u32, u32) -> u32,
    U: Fn(u32) -> u32,
>(
    s: PlayerState,
    available: usize,
    cut: nat,
    channels: usize,
    scale: S,
    mix: M,
    raw: U,
    viz: rtrb::Producer<u32>,
    out: Seq<u32>,
    after: PlayerState,
    read: Seq<u32>,
    shown: Seq<u32>,
)
    requires
        !s.reset_consumer_counter,
        out.len() <= usize::MAX / 2,
        is_callback(s, available, cut, channels, scale, mix, raw, viz, out, after, read, shown),
    ensures
        after.buffer_level == available,
        after == (PlayerState {
            buffer_level: after.buffer_level,
            samples_played: after.samples_played,
            ..s
        }),
        s.paused ==> after.samples_played == s.samples_played,
        after.samples_played == s.samples_played.wrapping_add((read.len() / 2) as u64),
        !s.paused && available > 0 && channels > 0 ==> read.len() == (if (out.len() / channels as nat)
            * 2 < available {
            (out.len() / channels as nat) * 2
        } else {
            available as nat
        }),
{
    if !s.paused && available > 0 && channels > 0 {
        lemma_fundamental_div_mod(out.len() as int, channels as int);
        let q = out.len() as int / channels as int;
        assert(0 <= q <= out.len()) by (nonlinear_arith)
            requires
                channels > 0,
                out.len() as int == channels as int * q + out.len() as int % channels as int,
                out.len() as int % channels as int >= 0,
                out.len() >= 0,
                q == out.len() as int / channels as int,
        ;
    }
}

/// On an output with one channel each value is made of both samples of a frame, with the
/// volume applied to each.
pub proof fn law_one_channel_mixes_both<
    S: Fn(u32) -> u32,
    M: Fn(u32, u32) -> u32,
    U: Fn(u32) -> u32,
>(
    s: PlayerState,
    available: usize,
    scale: S,
    mix: M,
    raw: U,
    viz: rtrb::Producer<u32>,
    out: Seq<u32>,
    after: PlayerState,
    read: Seq<u32>,
    shown: Seq<u32>,
    i: int,
)
    requires
        !s.paused && !s.reset_consumer_counter,
        0 < available,
        out.len() <= usize::MAX / 2,
        is_callback(s, available, read.len(), 1, scale, mix, raw, viz, out, after, read, shown),
        0 <= i < read.len() / 2,
    ensures
        exists|l: u32, r: u32|
            call_ensures(scale, (read[2 * i],), l) && call_ensures(scale, (read[2 * i + 1],), r)
                && #[trigger] call_ensures(mix, (l, r), out[i]),
{
    let a = read.take(read.len() as int);
    let b = read.skip(read.len() as int);
    let pairs = pairs_in(a) + pairs_in(b);
    assert(a =~= read);
    assert(b.len() == 0);
    assert(pairs_in(b).len() == 0);
    assert(pairs.len() == read.len() / 2);
    assert(pairs[i] == (read[2 * i], read[2 * i + 1]));
    assert(is_mix(scale, mix, pairs[i], out[i]));
}

/// On an output with more channels the first two of each frame are left and right, with the
/// volume applied, and the others are silent.
pub proof fn law_left_and_right_come_first<
    S: Fn(u32) -> u32,
    M: Fn(u32, u32) -> u32,
    U: Fn(u32) -> u32,
>(
    s: PlayerState,
    available: usize,
    channels: usize,
    scale: S,
    mix: M,
    raw: U,
    viz: rtrb::Producer<u32>,
    out: Seq<u32>,
    after: PlayerState,
    read: Seq<u32>,
    shown: Seq<u32>,
    i: int,
)
    requires
        !s.paused && !s.reset_consumer_counter,
        0 < available,
        channels >= 2,
        out.len() <= usize::MAX / 2,
        is_callback(
            s,
            available,
            read.len(),
            channels,
            scale,
            mix,
            raw,
            viz,
            out,
            after,
            read,
            shown,
        ),
        0 <= i < read.len() / 2,
    ensures
        call_ensures(scale, (read[2 * i],), out[i * channels]),
        call_ensures(scale, (read[2 * i + 1],), out[i * channels + 1]),
        forall|c: int|
            i * channels + 2 <= c < i * channels + channels ==> #[trigger] out[c] == 0,
{
    let a = read.take(read.len() as int);
    let b = read.skip(read.len() as int);
    let pairs = pairs_in(a) + pairs_in(b);
    assert(a =~= read);
    assert(b.len() == 0);
    assert(pairs_in(b).len() == 0);
    assert(pairs.len() == read.len() / 2);
    assert(pairs[i] == (read[2 * i], read[2 * i + 1]));
}

/// What the visualization sees of a stereo output is what is heard, or, where meters stand in
/// front of the volume, what that undoes; as many values as are heard, or none where they do
/// not fit.
pub proof fn law_visualization_sees_what_is_heard<U: Fn(u32) -> u32>(
    viz: rtrb::Producer<u32>,
    raw: U,
    undo: bool,
    out: Seq<u32>,
    frames: int,
    shown: Seq<u32>,
)
    requires
        0 < frames && 2 * frames <= out.len(),
        is_shown(viz, raw, undo, out, 2, frames, shown),
    ensures
        shown.len() == 0 || shown.len() == 2 * frames,
        shown.len() > 0 && !undo ==> shown == out.take(2 * frames),
        shown.len() > 0 && undo ==> forall|i: int|
            0 <= i < shown.len() ==> call_ensures(raw, (out[i],), #[trigger] shown[i]),
        (forall|free: nat| counts_free(viz, free) ==> 2 * frames <= free) ==> shown.len() == 2
            * frames,
{
    if shown.len() > 0 {
        assert forall|i: int| 0 <= i < shown.len() implies tap_source(out, 2, i)
            == #[trigger] out[i] by {
            assert((i / 2) * 2 + i % 2 == i);
        }
        if undo {
            assert forall|i: int| 0 <= i < shown.len() implies call_ensures(
                raw,
                (out[i],),
                #[trigger] shown[i],
            ) by {
                assert(tap_source(out, 2, i) == out[i]);
            }
        } else {
            assert forall|i: int| 0 <= i < shown.len() implies #[trigger] shown[i] == out[i] by {
                assert(tap_source(out, 2, i) == out[i]);
            }
            assert(shown =~= out.take(2 * frames));
        }
    }
}

/// A device keeps its rate where that is the one wanted. Else Linux runs at any rate that is
/// wanted, Windows keeps its own, and on macOS a wired device is switched where it can run at
/// that rate.
pub proof fn law_rates_by_system(desired: u32, current: u32, bluetooth: bool, ranges: Seq<(u32, u32)>)
    ensures
        rate_change(desired, current, Platform::Linux, bluetooth, ranges) == RateChange::Use(
            desired,
        ),
        rate_change(desired, current, Platform::Windows, bluetooth, ranges) == RateChange::Use(
            current,
        ),
        rate_change(desired, current, Platform::Other, bluetooth, ranges) == RateChange::Use(
            current,
        ),
        rate_change(desired, current, Platform::MacOs, true, ranges) == RateChange::Use(current),
        forall|i: int|
            0 <= i < ranges.len() && (#[trigger] ranges[i]).0 <= desired <= ranges[i].1 && desired
                != current ==> rate_change(desired, current, Platform::MacOs, false, ranges)
                == RateChange::Switch(desired),
        (forall|i: int| 0 <= i < ranges.len() ==> !((#[trigger] ranges[i]).0 <= desired <= ranges[i].1))
            ==> rate_change(desired, current, Platform::MacOs, false, ranges) == RateChange::Use(
            current,
        ),
        rate_change(current, current, Platform::MacOs, bluetooth, ranges) == RateChange::Use(
            current,
        ),
{
}

/// Exclusive use is for the device with the output's name, else for the system's own choice,
/// on macOS; elsewhere there is none.
pub proof fn law_exclusive_use_is_for_the_named(named: Option<u32>, standard: Option<u32>, id: u32)
    ensures
        exclusive_target(Platform::MacOs, Some(id), standard) == Ok::<u32, Seq<char>>(id),
        exclusive_target(Platform::MacOs, None, Some(id)) == Ok::<u32, Seq<char>>(id),
        exclusive_target(Platform::MacOs, None, None) is Err,
        exclusive_target(Platform::Windows, named, standard) is Err,
        exclusive_target(Platform::Linux, named, standard) is Err,
        exclusive_target(Platform::Other, named, standard) is Err,
{
}

/// A device is meant by every text that its name holds, capital and small letters being the
/// same; by its own name; and one without a name by none.
pub proof fn law_devices_are_meant_by_parts(device: Seq<char>, name: Seq<char>, i: int)
    ensures
        is_meant(Some(device), device),
        !is_meant(None, name),
        0 <= i && i + lowercased(name).len() <= lowercased(device).len() && lowercased(
            device,
        ).subrange(i, i + lowercased(name).len()) == lowercased(name) ==> is_meant(
            Some(device),
            name,
        ),
{
    let d = lowercased(device);
    assert(d.subrange(0, d.len() as int) =~= d);
    assert(crate::text::occurs_at(d, d, 0));
    let n = lowercased(name);
    if 0 <= i && i + n.len() <= d.len() && d.subrange(i, i + n.len()) == n {
        assert(crate::text::occurs_at(d, n, i));
    }
}

/// Devices are listed by number and name, and the usual one is marked; one without a name is
/// listed as unknown.
pub proof fn law_devices_are_listed(n: nat, name: Seq<char>, other: Seq<char>)
    requires
        name != other,
    ensures
        device_line(n, Some(name), Some(name)) == "  "@ + decimal(n) + ". "@ + name
            + " (default)"@,
        device_line(n, Some(name), Some(other)) == "  "@ + decimal(n) + ". "@ + name,
        device_line(n, Some(name), None) == "  "@ + decimal(n) + ". "@ + name,
        device_line(n, None, None) == "  "@ + decimal(n) + ". Unknown"@,
{
    reveal_strlit("");
    reveal_strlit(". ");
    reveal_strlit("Unknown");
    reveal_strlit(". Unknown");
    assert(device_line(n, Some(name), Some(other)) =~= "  "@ + decimal(n) + ". "@ + name);
    assert(device_line(n, Some(name), None) =~= "  "@ + decimal(n) + ". "@ + name);
    assert(device_line(n, None, None) =~= "  "@ + decimal(n) + ". Unknown"@);
}

/// A code of four characters is shown as they are, from its highest byte on; what cannot be
/// shown is a question mark.
pub proof fn law_codes_are_four_characters(a: u8, b: u8, c: u8, d: u8)
    requires
        0x21 <= a <= 0x7e && 0x21 <= b <= 0x7e && 0x21 <= c <= 0x7e,
        d < 0x21 || d > 0x7e,
    ensures
        ({
            let code = a * 0x100_0000 + b * 0x1_0000 + c * 0x100 + d;
            four_characters(code as u32) == seq![a as char, b as char, c as char, '?']
        }),
{
    let code = a * 0x100_0000 + b * 0x1_0000 + c * 0x100 + d;
    assert(code / 0x100_0000 == a);
    assert(code / 0x1_0000 == a * 0x100 + b);
    assert(code / 0x100 == a * 0x1_0000 + b * 0x100 + c);
    assert(four_characters(code as u32) =~= seq![a as char, b as char, c as char, '?']);
}

/// The largest of the rates is one of them, and none is larger.
pub proof fn law_largest_rate_is_taken(rates: Seq<u32>, n: int, i: int)
    requires
        0 <= i < n <= rates.len(),
    ensures
        rates[i] <= largest(rates, n),
        rates.contains(largest(rates, n)),
    decreases n,
{
    if n > 1 {
        law_largest_rate_is_taken(rates, n - 1, if i < n - 1 {
            i
        } else {
            0
        });
        assert(rates.contains(rates[n - 1]));
    } else {
        assert(rates.contains(rates[0]));
    }
}

} // verus!
