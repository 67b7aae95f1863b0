//! The decoder's thread: what it does next, track by track, and how samples
//! are cut, ordered and mixed on their way to the output.
use vstd::prelude::*;

use crate::metadata::{or_else, Tag};
use crate::state::{PlayerState, RgMode, Seconds, RING_BUFFER_SIZE};
use crate::text::{lowercased, same};

verus! {

/// What a stream says of itself, or is taken to be where it does not say.
#[derive(Clone, Copy, Debug, PartialEq, Eq, Structural)]
pub struct TrackParams {
    pub sample_rate: u32,
    pub channels: usize,
    pub bits_per_sample: u32,
    pub total: u64,
}

/// A number that is there, else another.
pub open spec fn given<V>(a: Option<V>, b: V) -> V {
    match a {
        Some(a) => a,
        None => b,
    }
}

/// The parameters of a stream: 44.1 kHz, stereo, 16 bits and no length where it
/// does not say.
pub fn track_params(
    sample_rate: Option<u32>,
    channels: Option<usize>,
    bits_per_sample: Option<u32>,
    frames: Option<u64>,
) -> (r: TrackParams)
    ensures
        r == (TrackParams {
            sample_rate: given(sample_rate, 44100),
            channels: given(channels, 2),
            bits_per_sample: given(bits_per_sample, 16),
            total: given(frames, 0),
        }),
{
    TrackParams {
        sample_rate: match sample_rate {
            Some(r) => r,
            None => 44100,
        },
        channels: match channels {
            Some(c) => c,
            None => 2,
        },
        bits_per_sample: match bits_per_sample {
            Some(b) => b,
            None => 16,
        },
        total: match frames {
            Some(n) => n,
            None => 0,
        },
    }
}

/// What is told of a track that cannot be played.
pub fn failure_text(path: &str, reason: &str) -> (r: String)
    ensures
        r@ == path@ + ": "@ + reason@,
{
    let mut out = path.to_string();
    out.append(": ");
    out.append(reason);
    out
}

/// A position in a stream, as the fraction `num / den` of a second.
#[derive(Clone, Copy, Debug, PartialEq, Eq, Structural)]
pub struct SeekPoint {
    pub num: u128,
    pub den: u64,
}

/// The numerator of the position that a jump of `secs` seconds leads to: not
/// before the start.
pub open spec fn sought(position: Seconds, secs: i64) -> int {
    let n = position.num + secs * position.den;
    if n < 0 {
        0
    } else {
        n
    }
}

/// The position that a jump of `secs` seconds leads to.
pub fn seek_point(position: Seconds, secs: i64) -> (r: SeekPoint)
    requires
        position.wf(),
    ensures
        r.num == sought(position, secs),
        r.den == position.den,
{
    let num: u128 = position.num as u128;
    let den: u128 = position.den as u128;
    if secs >= 0 {
        let by: u128 = secs as u128;
        assert(by * den <= 0x7fff_ffff_ffff_ffff * 0xffff_ffff_ffff_ffff) by (nonlinear_arith)
            requires
                by <= 0x7fff_ffff_ffff_ffff,
                den <= 0xffff_ffff_ffff_ffff,
        ;
        assert(secs * position.den >= 0) by (nonlinear_arith)
            requires
                secs >= 0,
        ;
        SeekPoint { num: num + by * den, den: position.den }
    } else {
        let by: u128 = (-(secs as i128)) as u128;
        assert(by * den <= 0x8000_0000_0000_0000 * 0xffff_ffff_ffff_ffff) by (nonlinear_arith)
            requires
                by <= 0x8000_0000_0000_0000,
                den <= 0xffff_ffff_ffff_ffff,
        ;
        let back: u128 = by * den;
        assert(back == -(secs * position.den)) by (nonlinear_arith)
            requires
                by == -secs,
                den == position.den,
                back == by * den,
        ;
        SeekPoint {
            num: if num < back {
                0
            } else {
                num - back
            },
            den: position.den,
        }
    }
}

/// The samples before a position at this rate, as many as can be counted.
pub open spec fn samples_before(p: SeekPoint, rate: u32) -> u64 {
    let n = (p.num as int * rate as int) / p.den as int;
    if n > u64::MAX {
        u64::MAX
    } else {
        n as u64
    }
}

/// The samples before a position at this rate.
pub fn samples_at(p: SeekPoint, rate: u32) -> (r: u64)
    requires
        p.den > 0,
    ensures
        r == samples_before(p, rate),
{
    let d: u128 = p.den as u128;
    let q: u128 = p.num / d;
    let rest: u128 = p.num % d;
    let k: u128 = rate as u128;
    proof {
        lemma_split_rate(p.num as int, d as int, k as int);
    }
    if rate == 0 {
        assert(p.num as int * 0 == 0);
        return 0;
    }
    if q > 0xffff_ffff_ffff_ffff {
        proof {
            assert(q * k >= q) by (nonlinear_arith)
                requires
                    k >= 1,
                    q >= 0,
            ;
            assert(rest * k >= 0) by (nonlinear_arith)
                requires
                    rest >= 0,
                    k >= 0,
            ;
            vstd::arithmetic::div_mod::lemma_div_pos_is_pos(rest * k, d as int);
        }
        return u64::MAX;
    }
    assert(q * k <= 0xffff_ffff_ffff_ffff * 0xffff_ffff) by (nonlinear_arith)
        requires
            q <= 0xffff_ffff_ffff_ffff,
            k <= 0xffff_ffff,
    ;
    assert(rest * k <= 0xffff_ffff_ffff_ffff * 0xffff_ffff) by (nonlinear_arith)
        requires
            rest <= 0xffff_ffff_ffff_ffff,
            k <= 0xffff_ffff,
    ;
    let part: u128 = rest * k / d;
    proof {
        vstd::arithmetic::div_mod::lemma_div_is_ordered_by_denominator(
            rest * k,
            1,
            d as int,
        );
    }
    let n: u128 = q * k + part;
    if n > u64::MAX as u128 {
        u64::MAX
    } else {
        n as u64
    }
}

/// Multiplying whole and rest of a division apart.
proof fn lemma_split_rate(n: int, d: int, k: int)
    requires
        n >= 0,
        d > 0,
        k >= 0,
    ensures
        (n * k) / d == (n / d) * k + ((n % d) * k) / d,
{
    vstd::arithmetic::div_mod::lemma_fundamental_div_mod(n, d);
    let q = n / d;
    let r = n % d;
    assert(n * k == d * (q * k) + r * k) by (nonlinear_arith)
        requires
            n == d * q + r,
    ;
    vstd::arithmetic::div_mod::lemma_hoist_over_denominator(r * k, q * k, d as nat);
    assert(d * (q * k) == (q * k) * d) by (nonlinear_arith);
}

/// Where the decoder stands.
#[derive(Clone, Copy, Debug, PartialEq, Eq, Structural)]
pub enum Stage {
    /// Between tracks.
    Between,
    /// A track is being opened.
    Opening,
    /// A track is open; the one before it is still being heard.
    Draining,
    /// The packets of a track are decoded.
    Playing,
    /// The stream is looking for another position.
    Seeking,
    /// A track is over: what is left of it is written.
    Closing,
    /// The rate of the next track is looked up.
    Probing,
    /// Nothing more is decoded.
    Stopped,
}

/// What came of the last action.
pub enum Event {
    /// The decoder starts, a wait is over, a packet or a track was dealt with.
    Ready,
    /// A track was opened.
    Opened(TrackParams),
    /// A track could not be opened; what is told of it.
    Failed(String),
    /// The stream went to the position, or it did not.
    Sought(bool),
    /// The stream has no more packets.
    Ended,
    /// The rate of the next track, where it is known.
    Rate(Option<u32>),
}

/// What the decoder does next.
#[derive(Clone, Copy, Debug, PartialEq, Eq, Structural)]
pub enum Action {
    /// Open the track at this place.
    Open(usize),
    /// Wait for this many milliseconds.
    Sleep(u64),
    /// Set up for the track that was opened.
    Start(TrackParams),
    /// Forget what is pending and go to this position.
    Seek(SeekPoint),
    /// Load the presets that are named and decode the next packet.
    Decode { eq: Option<usize>, effects: Option<usize>, crossfeed: Option<usize> },
    /// Write what is left of the track, and keep its end for a crossfade or not.
    Close { keep_tail: bool },
    /// Look up the rate of the track at this place.
    Probe(usize),
    /// Leave the thread.
    Stop,
}

/// A run of the decoder through a playlist.
#[derive(Clone, Copy, Debug, PartialEq, Eq, Structural)]
pub struct DecodeRun {
    pub len: usize,
    pub start: usize,
    pub index: usize,
    pub output_rate: u32,
    pub eq_presets: usize,
    pub effects_presets: usize,
    pub crossfeed_presets: usize,
    pub stage: Stage,
    pub params: TrackParams,
    pub leaving: bool,
}

/// A run, the player's state and the action that follows.
pub ghost struct Step {
    pub run: DecodeRun,
    pub state: PlayerState,
    pub action: Action,
}

impl DecodeRun {
    /// Whether the run waits for an event of this sort. The place is inside the
    /// playlist while a track is dealt with.
    pub open spec fn expects(self, event: Event) -> bool {
        &&& self.stage !is Between && self.stage !is Stopped ==> self.index < self.len
        &&& match self.stage {
            Stage::Between => event is Ready,
            Stage::Opening => event is Opened || event is Failed,
            Stage::Draining => event is Ready,
            Stage::Playing => event is Ready || event is Ended,
            Stage::Seeking => event is Sought,
            Stage::Closing => event is Ready,
            Stage::Probing => event is Rate,
            Stage::Stopped => false,
        }
    }

    /// The run stops; that the playlist is done is told unless the output has to
    /// change its rate.
    #[verifier::opaque]
    pub open spec fn stopping(self, s: PlayerState) -> Step {
        Step {
            run: DecodeRun { stage: Stage::Stopped, ..self },
            state: if s.rate_change_needed {
                s
            } else {
                PlayerState { producer_done: true, ..s }
            },
            action: Action::Stop,
        }
    }

    /// What is left of the requests that are asked between tracks: the first
    /// that is found is taken.
    pub open spec fn asked(s: PlayerState) -> PlayerState {
        if s.quit {
            s
        } else if s.skip_prev {
            s.after_take_skip_prev()
        } else {
            s.after_take_skip_prev().after_take_jump()
        }
    }

    /// Whether a request ends the run between tracks.
    pub open spec fn called_off(s: PlayerState) -> bool {
        s.quit || s.skip_prev || s.jump_to_track >= 0
    }

    /// The track at `index` is opened, unless the playlist ends in front of it or
    /// a request ends the run.
    #[verifier::opaque]
    pub open spec fn going_on(self, s: PlayerState, index: usize) -> Step {
        let run = DecodeRun { index, ..self };
        if index >= self.len {
            run.stopping(s)
        } else if DecodeRun::called_off(s) {
            run.stopping(DecodeRun::asked(s))
        } else {
            Step {
                run: DecodeRun { stage: Stage::Opening, ..run },
                state: DecodeRun::asked(s),
                action: Action::Open(index),
            }
        }
    }

    /// A track that cannot be played is told of and passed over.
    #[verifier::opaque]
    pub open spec fn failing(self, s: PlayerState, message: String) -> Step {
        let next = (self.index + 1) as usize;
        self.going_on(
            (PlayerState { decode_error: Some(message), ..s }).after_signal_next_track(next),
            next,
        )
    }

    /// The state of the player with the track's parameters.
    #[verifier::opaque]
    pub open spec fn shown(s: PlayerState, p: TrackParams) -> PlayerState {
        PlayerState {
            track_info_ready: true,
            sample_rate: p.sample_rate as u64,
            total_samples: p.total,
            samples_played: 0,
            channels: p.channels,
            bits_per_sample: p.bits_per_sample as usize,
            ..s
        }
    }

    /// The same, and the track told of where it is not the first of the run.
    #[verifier::opaque]
    pub open spec fn announced(self, s: PlayerState, p: TrackParams) -> PlayerState {
        if self.index != self.start {
            DecodeRun::shown(s, p).after_signal_next_track(self.index)
        } else {
            DecodeRun::shown(s, p)
        }
    }

    /// The track begins.
    #[verifier::opaque]
    pub open spec fn starting(self, s: PlayerState, p: TrackParams) -> Step {
        Step {
            run: DecodeRun { stage: Stage::Playing, params: p, ..self },
            state: self.announced(s, p),
            action: Action::Start(p),
        }
    }

    /// The samples in the ring are thrown away.
    pub open spec fn discarding(s: PlayerState, buffered: usize) -> PlayerState {
        PlayerState { discard_samples: buffered as u64, reset_consumer_counter: true, ..s }
    }

    /// While the track before is still heard: the new one begins when little of
    /// it is left or it is skipped.
    #[verifier::opaque]
    pub open spec fn draining(self, s: PlayerState, free: usize, p: TrackParams) -> Step {
        let buffered = (RING_BUFFER_SIZE - free) as usize;
        if buffered <= self.output_rate {
            self.starting(s, p)
        } else if DecodeRun::called_off(s) {
            self.stopping(s)
        } else if s.skip_next {
            self.starting(DecodeRun::discarding(s.after_take_skip_next(), buffered), p)
        } else {
            Step {
                run: DecodeRun { stage: Stage::Draining, params: p, ..self },
                state: s.after_take_skip_next(),
                action: Action::Sleep(
                    if s.paused {
                        50
                    } else {
                        10
                    },
                ),
            }
        }
    }

    /// The track is over.
    pub open spec fn closing(self, s: PlayerState, leaving: bool, skipped: bool) -> Step {
        Step {
            run: DecodeRun { stage: Stage::Closing, leaving, ..self },
            state: s,
            action: Action::Close { keep_tail: !skipped },
        }
    }

    /// A preset that was chosen, where there is one.
    pub open spec fn chosen(changed: bool, index: usize, count: usize) -> Option<usize> {
        if changed && index < count {
            Some(index)
        } else {
            None
        }
    }

    /// The next packet is decoded when there is room for it and the player is
    /// not paused.
    #[verifier::opaque]
    pub open spec fn pacing(self, s: PlayerState, free: usize) -> Step {
        let run = DecodeRun { stage: Stage::Playing, ..self };
        if free < RING_BUFFER_SIZE / 4 {
            Step { run, state: s, action: Action::Sleep(20) }
        } else if s.paused {
            Step { run, state: s, action: Action::Sleep(50) }
        } else {
            Step {
                run,
                state: s.after_take_eq_changed().after_take_effects_changed()
                    .after_take_crossfeed_changed(),
                action: Action::Decode {
                    eq: DecodeRun::chosen(s.eq_changed, s.eq_preset_index, self.eq_presets),
                    effects: DecodeRun::chosen(
                        s.effects_changed,
                        s.effects_preset_index,
                        self.effects_presets,
                    ),
                    crossfeed: DecodeRun::chosen(
                        s.crossfeed_changed,
                        s.crossfeed_preset_index,
                        self.crossfeed_presets,
                    ),
                },
            }
        }
    }

    /// Where a jump inside the track leads.
    pub open spec fn goal(s: PlayerState) -> SeekPoint {
        SeekPoint {
            num: sought(s.position(), s.seek_request) as u128,
            den: s.position().den,
        }
    }

    /// Between packets: requests first, then pace.
    #[verifier::opaque]
    pub open spec fn playing(self, s: PlayerState, free: usize) -> Step {
        let buffered = (RING_BUFFER_SIZE - free) as usize;
        let t = s.after_take_skip_next();
        if DecodeRun::called_off(s) {
            self.closing(s, true, false)
        } else if s.skip_next {
            self.closing(
                if buffered > 0 {
                    DecodeRun::discarding(t, buffered)
                } else {
                    t
                },
                false,
                true,
            )
        } else if s.seek_request != 0 {
            Step {
                run: DecodeRun { stage: Stage::Seeking, ..self },
                state: DecodeRun::discarding(t.after_take_seek(), buffered),
                action: Action::Seek(DecodeRun::goal(s)),
            }
        } else {
            self.pacing(t.after_take_seek(), free)
        }
    }

    /// After a track: the run ends where that was asked, else the rate of the
    /// next track counts where the output belongs to the player alone.
    #[verifier::opaque]
    pub open spec fn closed(self, s: PlayerState) -> Step {
        if self.leaving {
            self.stopping(s)
        } else if s.exclusive && self.index + 1 < self.len {
            Step {
                run: DecodeRun { stage: Stage::Probing, ..self },
                state: s,
                action: Action::Probe((self.index + 1) as usize),
            }
        } else {
            self.going_on(s, (self.index + 1) as usize)
        }
    }

    /// A next track of another rate ends the run, for the output to change.
    #[verifier::opaque]
    pub open spec fn probed(self, s: PlayerState, rate: Option<u32>) -> Step {
        let next = (self.index + 1) as usize;
        match rate {
            Some(r) if r != self.output_rate => (DecodeRun { index: next, ..self }).stopping(
                PlayerState {
                    next_track_rate: r,
                    rate_change_needed: true,
                    producer_track_index: next,
                    ..s
                },
            ),
            _ => self.going_on(s, next),
        }
    }

    /// What follows an event, with this many free places in the ring. `at` is
    /// the position that was looked for.
    pub open spec fn after(self, s: PlayerState, event: Event, free: usize, at: SeekPoint) -> Step {
        match self.stage {
            Stage::Between => self.going_on(s, self.index),
            Stage::Opening => match event {
                Event::Opened(p) => if self.index != self.start {
                    self.draining(s, free, p)
                } else {
                    self.starting(s, p)
                },
                Event::Failed(message) => self.failing(s, message),
                _ => self.stopping(s),
            },
            Stage::Draining => self.draining(s, free, self.params),
            Stage::Playing => match event {
                Event::Ended => self.closing(s, false, false),
                _ => self.playing(s, free),
            },
            Stage::Seeking => match event {
                Event::Sought(true) => self.pacing(
                    PlayerState { samples_played: samples_before(at, self.output_rate), ..s },
                    free,
                ),
                _ => self.pacing(s, free),
            },
            Stage::Closing => self.closed(s),
            Stage::Probing => match event {
                Event::Rate(rate) => self.probed(s, rate),
                _ => self.stopping(s),
            },
            Stage::Stopped => self.stopping(s),
        }
    }

    /// A run from the track at `start`.
    pub fn new(
        len: usize,
        start: usize,
        output_rate: u32,
        eq_presets: usize,
        effects_presets: usize,
        crossfeed_presets: usize,
    ) -> (r: Self)
        ensures
            r.len == len && r.start == start && r.index == start,
            r.output_rate == output_rate && r.eq_presets == eq_presets,
            r.effects_presets == effects_presets && r.crossfeed_presets == crossfeed_presets,
            r.stage is Between && !r.leaving,
    {
        DecodeRun {
            len,
            start,
            index: start,
            output_rate,
            eq_presets,
            effects_presets,
            crossfeed_presets,
            stage: Stage::Between,
            params: TrackParams { sample_rate: 44100, channels: 2, bits_per_sample: 16, total: 0 },
            leaving: false,
        }
    }

    fn stop(&mut self, s: &mut PlayerState) -> (r: Action)
        ensures
            r is Stop,
            final(self).index == old(self).index && final(self).len == old(self).len,
            (Step { run: *final(self), state: *final(s), action: r }) == old(self).stopping(
                *old(s),
            ),
    {
        proof {
            reveal(DecodeRun::stopping);
        }
        self.stage = Stage::Stopped;
        if !s.rate_change_needed {
            s.producer_done = true;
        }
        Action::Stop
    }

    /// Whether a request ends the run between tracks; the first that is found is
    /// taken.
    fn take_requests(s: &mut PlayerState) -> (r: bool)
        ensures
            r == DecodeRun::called_off(*old(s)),
            *final(s) == DecodeRun::asked(*old(s)),
    {
        s.should_quit() || s.take_skip_prev() || s.take_jump().is_some()
    }

    fn go_on(&mut self, s: &mut PlayerState, index: usize) -> (r: Action)
        ensures
            (Step { run: *final(self), state: *final(s), action: r }) == old(self).going_on(
                *old(s),
                index,
            ),
            r !is Stop ==> final(self).index < final(self).len,
    {
        proof {
            reveal(DecodeRun::going_on);
        }
        self.index = index;
        if index >= self.len || DecodeRun::take_requests(s) {
            return self.stop(s);
        }
        self.stage = Stage::Opening;
        Action::Open(index)
    }

    fn fail(&mut self, s: &mut PlayerState, message: String) -> (r: Action)
        requires
            old(self).index < old(self).len,
        ensures
            (Step { run: *final(self), state: *final(s), action: r }) == old(self).failing(
                *old(s),
                message,
            ),
            r !is Stop ==> final(self).index < final(self).len,
    {
        proof {
            reveal(DecodeRun::failing);
        }
        let next = self.index + 1;
        s.decode_error = Some(message);
        s.signal_next_track(next);
        self.go_on(s, next)
    }

    fn show(s: &mut PlayerState, p: TrackParams)
        ensures
            *final(s) == DecodeRun::shown(*old(s), p),
    {
        proof {
            reveal(DecodeRun::shown);
        }
        s.track_info_ready = false;
        s.sample_rate = p.sample_rate as u64;
        s.total_samples = p.total;
        s.samples_played = 0;
        s.channels = p.channels;
        s.bits_per_sample = p.bits_per_sample as usize;
        s.track_info_ready = true;
    }

    fn announce(&self, s: &mut PlayerState, p: TrackParams)
        ensures
            *final(s) == self.announced(*old(s), p),
    {
        proof {
            reveal(DecodeRun::announced);
        }
        DecodeRun::show(s, p);
        if self.index != self.start {
            s.signal_next_track(self.index);
        }
    }

    fn start(&mut self, s: &mut PlayerState, p: TrackParams) -> (r: Action)
        ensures
            (Step { run: *final(self), state: *final(s), action: r }) == old(self).starting(
                *old(s),
                p,
            ),
            final(self).index == old(self).index && final(self).len == old(self).len,
    {
        proof {
            reveal(DecodeRun::starting);
        }
        self.announce(s, p);
        self.stage = Stage::Playing;
        self.params = p;
        Action::Start(p)
    }

    fn discard(s: &mut PlayerState, buffered: usize)
        ensures
            *final(s) == DecodeRun::discarding(*old(s), buffered),
    {
        s.discard_samples = buffered as u64;
        s.reset_consumer_counter = true;
    }

    fn drain(&mut self, s: &mut PlayerState, free: usize, p: TrackParams) -> (r: Action)
        requires
            free <= RING_BUFFER_SIZE,
        ensures
            (Step { run: *final(self), state: *final(s), action: r }) == old(self).draining(
                *old(s),
                free,
                p,
            ),
            final(self).index == old(self).index && final(self).len == old(self).len,
    {
        proof {
            reveal(DecodeRun::draining);
        }
        let buffered: usize = RING_BUFFER_SIZE - free;
        if buffered <= self.output_rate as usize {
            return self.start(s, p);
        }
        if s.should_quit() || s.skip_prev || s.jump_to_track >= 0 {
            return self.stop(s);
        }
        if s.take_skip_next() {
            DecodeRun::discard(s, buffered);
            return self.start(s, p);
        }
        self.stage = Stage::Draining;
        self.params = p;
        let ms: u64 = if s.paused {
            50
        } else {
            10
        };
        Action::Sleep(ms)
    }

    fn pick(changed: bool, index: usize, count: usize) -> (r: Option<usize>)
        ensures
            r == DecodeRun::chosen(changed, index, count),
    {
        if changed && index < count {
            Some(index)
        } else {
            None
        }
    }

    fn pace(&mut self, s: &mut PlayerState, free: usize) -> (r: Action)
        ensures
            (Step { run: *final(self), state: *final(s), action: r }) == old(self).pacing(
                *old(s),
                free,
            ),
            final(self).index == old(self).index && final(self).len == old(self).len,
    {
        proof {
            reveal(DecodeRun::pacing);
        }
        self.stage = Stage::Playing;
        if free < RING_BUFFER_SIZE / 4 {
            return Action::Sleep(20);
        }
        if s.paused {
            return Action::Sleep(50);
        }
        let eq = DecodeRun::pick(s.take_eq_changed(), s.eq_index(), self.eq_presets);
        let effects = DecodeRun::pick(
            s.take_effects_changed(),
            s.effects_index(),
            self.effects_presets,
        );
        let crossfeed = DecodeRun::pick(
            s.take_crossfeed_changed(),
            s.crossfeed_index(),
            self.crossfeed_presets,
        );
        Action::Decode { eq, effects, crossfeed }
    }

    fn close(&mut self, leaving: bool, skipped: bool) -> (r: Action)
        ensures
            forall|s: PlayerState|
                (Step { run: *final(self), state: s, action: r }) == #[trigger] old(self).closing(
                    s,
                    leaving,
                    skipped,
                ),
            final(self).index == old(self).index && final(self).len == old(self).len,
    {
        self.stage = Stage::Closing;
        self.leaving = leaving;
        Action::Close { keep_tail: !skipped }
    }

    fn play(&mut self, s: &mut PlayerState, free: usize) -> (r: Action)
        requires
            free <= RING_BUFFER_SIZE,
        ensures
            (Step { run: *final(self), state: *final(s), action: r }) == old(self).playing(
                *old(s),
                free,
            ),
            final(self).index == old(self).index && final(self).len == old(self).len,
    {
        proof {
            reveal(DecodeRun::playing);
        }
        if s.should_quit() || s.skip_prev || s.jump_to_track >= 0 {
            return self.close(true, false);
        }
        let buffered: usize = RING_BUFFER_SIZE - free;
        if s.take_skip_next() {
            if buffered > 0 {
                DecodeRun::discard(s, buffered);
            }
            return self.close(false, true);
        }
        let position = s.time_secs();
        let secs = s.take_seek();
        if secs != 0 {
            let goal = seek_point(position, secs);
            DecodeRun::discard(s, buffered);
            self.stage = Stage::Seeking;
            return Action::Seek(goal);
        }
        self.pace(s, free)
    }

    fn finish_track(&mut self, s: &mut PlayerState) -> (r: Action)
        requires
            old(self).index < old(self).len,
        ensures
            (Step { run: *final(self), state: *final(s), action: r }) == old(self).closed(*old(s)),
            r !is Stop ==> final(self).index < final(self).len,
    {
        proof {
            reveal(DecodeRun::closed);
        }
        if self.leaving {
            return self.stop(s);
        }
        let next = self.index + 1;
        if s.exclusive && next < self.len {
            self.stage = Stage::Probing;
            return Action::Probe(next);
        }
        self.go_on(s, next)
    }

    fn compare_rate(&mut self, s: &mut PlayerState, rate: Option<u32>) -> (r: Action)
        requires
            old(self).index < old(self).len,
        ensures
            (Step { run: *final(self), state: *final(s), action: r }) == old(self).probed(
                *old(s),
                rate,
            ),
            r !is Stop ==> final(self).index < final(self).len,
    {
        proof {
            reveal(DecodeRun::probed);
        }
        let next = self.index + 1;
        match rate {
            Some(rate) if rate != self.output_rate => {
                s.next_track_rate = rate;
                s.rate_change_needed = true;
                s.producer_track_index = next;
                self.index = next;
                self.stop(s)
            },
            _ => self.go_on(s, next),
        }
    }

    /// The next action, after what came of the last one. `free` is the number of
    /// free places in the ring; `at` the position that was looked for last.
    pub fn step(&mut self, s: &mut PlayerState, event: Event, free: usize, at: SeekPoint) -> (r:
        Action)
        requires
            old(self).expects(event),
            free <= RING_BUFFER_SIZE,
            at.den > 0,
        ensures
            (Step { run: *final(self), state: *final(s), action: r }) == old(self).after(
                *old(s),
                event,
                free,
                at,
            ),
            r !is Stop ==> final(self).index < final(self).len,
    {
        match self.stage {
            Stage::Between => {
                let index = self.index;
                self.go_on(s, index)
            },
            Stage::Opening => match event {
                Event::Opened(p) => if self.index != self.start {
                    self.drain(s, free, p)
                } else {
                    self.start(s, p)
                },
                Event::Failed(message) => self.fail(s, message),
                _ => self.stop(s),
            },
            Stage::Draining => {
                let p = self.params;
                self.drain(s, free, p)
            },
            Stage::Playing => match event {
                Event::Ended => self.close(false, false),
                _ => self.play(s, free),
            },
            Stage::Seeking => {
                match event {
                    Event::Sought(true) => {
                        s.samples_played = samples_at(at, self.output_rate);
                    },
                    _ => {},
                }
                self.pace(s, free)
            },
            Stage::Closing => self.finish_track(s),
            Stage::Probing => match event {
                Event::Rate(rate) => self.compare_rate(s, rate),
                _ => self.stop(s),
            },
            Stage::Stopped => self.stop(s),
        }
    }
}

/// The loudness tags of a track, as the bits of floating-point numbers.
#[derive(Clone, Copy, Debug, PartialEq, Eq, Structural)]
pub struct RgTags {
    pub track_gain: Option<u32>,
    pub track_peak: Option<u32>,
    pub album_gain: Option<u32>,
    pub album_peak: Option<u32>,
}

/// The loudness tags after one more tag; of each the first that can be read
/// counts.
pub open spec fn rg_with(rg: RgTags, tag: Tag) -> RgTags {
    let key = lowercased(tag.key@);
    let number = |name: Seq<char>, n: Option<u32>| -> Option<u32> {
        if tag.text is Some && key == name { n } else { None }
    };
    RgTags {
        track_gain: or_else(rg.track_gain, number("replaygain_track_gain"@, tag.gain)),
        track_peak: or_else(rg.track_peak, number("replaygain_track_peak"@, tag.peak)),
        album_gain: or_else(rg.album_gain, number("replaygain_album_gain"@, tag.gain)),
        album_peak: or_else(rg.album_peak, number("replaygain_album_peak"@, tag.peak)),
    }
}

/// The loudness tags after the first `n` tags of a list.
pub open spec fn rg_with_all(rg: RgTags, tags: Seq<Tag>, n: int) -> RgTags
    decreases n,
{
    if n <= 0 {
        rg
    } else {
        rg_with(rg_with_all(rg, tags, n - 1), tags[n - 1])
    }
}

/// The number of a tag with this key, where none was found yet.
fn read_number(found: Option<u32>, tag: &Tag, key: &str, name: &str, n: Option<u32>) -> (r: Option<
    u32,
>)
    ensures
        r == or_else(
            found,
            if tag.text is Some && key@ == name@ {
                n
            } else {
                None
            },
        ),
{
    if found.is_none() && tag.text.is_some() && same(key, name) {
        n
    } else {
        found
    }
}

/// Takes the loudness tags out of a list of tags.
pub fn extract_rg_from_tags(tags: &Vec<Tag>, rg: &mut RgTags)
    ensures
        *final(rg) == rg_with_all(*old(rg), tags@, tags.len() as int),
{
    let mut i: usize = 0;
    while i < tags.len()
        invariant
            i <= tags.len(),
            *rg == rg_with_all(*old(rg), tags@, i as int),
        decreases tags.len() - i,
    {
        let tag = &tags[i];
        let lower = tag.key.to_lowercase();
        let key = lower.as_str();
        let now = *rg;
        *rg = RgTags {
            track_gain: read_number(now.track_gain, tag, key, "replaygain_track_gain", tag.gain),
            track_peak: read_number(now.track_peak, tag, key, "replaygain_track_peak", tag.peak),
            album_gain: read_number(now.album_gain, tag, key, "replaygain_album_gain", tag.gain),
            album_peak: read_number(now.album_peak, tag, key, "replaygain_album_peak", tag.peak),
        };
        i = i + 1;
    }
}

/// The gain that is followed in a mode and the peak that limits it. None where
/// the signal stays as it is: the mode is off, or there is no gain. In album
/// mode the tags of the track stand in for those of the album.
pub open spec fn gain_followed(mode: RgMode, tags: RgTags) -> Option<(u32, Option<u32>)> {
    let gain = match mode {
        RgMode::Off => None,
        RgMode::Album => or_else(tags.album_gain, tags.track_gain),
        RgMode::Track => tags.track_gain,
    };
    let peak = match mode {
        RgMode::Album => or_else(tags.album_peak, tags.track_peak),
        _ => tags.track_peak,
    };
    match gain {
        Some(g) => Some((g, peak)),
        None => None,
    }
}

/// The gain that is followed in a mode and the peak that limits it.
pub fn choose_rg_gain(mode: RgMode, tags: &RgTags) -> (r: Option<(u32, Option<u32>)>)
    ensures
        r == gain_followed(mode, *tags),
{
    let (gain, peak): (Option<u32>, Option<u32>) = match mode {
        RgMode::Off => {
            return None;
        },
        RgMode::Album => (
            if tags.album_gain.is_some() {
                tags.album_gain
            } else {
                tags.track_gain
            },
            if tags.album_peak.is_some() {
                tags.album_peak
            } else {
                tags.track_peak
            },
        ),
        RgMode::Track => (tags.track_gain, tags.track_peak),
    };
    match gain {
        Some(g) => Some((g, peak)),
        None => None,
    }
}

/// A step that moves one track forward at most, opens the track that it moves
/// to, and stops for good only with the player told why: it was told before that nothing
/// more comes (`told`), or is told so now, unless the output has to change its rate.
spec fn moves_on(run: DecodeRun, told: bool, next: Step) -> bool {
    &&& run.index <= next.run.index <= run.index + 1
    &&& next.run.len == run.len
    &&& next.action matches Action::Open(i) ==> i == next.run.index && i < run.len
    &&& next.action is Stop ==> {
        &&& next.run.stage is Stopped
        &&& next.state.producer_done == (told || !next.state.rate_change_needed)
    }
}

proof fn lemma_stopping(run: DecodeRun, s: PlayerState)
    ensures
        moves_on(run, s.producer_done, run.stopping(s)),
        run.stopping(s).action !is Start,
        run.stopping(s).action is Stop,
{
    reveal(DecodeRun::stopping);
}

proof fn lemma_going_on(run: DecodeRun, s: PlayerState, index: usize)
    requires
        run.index <= index <= run.index + 1,
    ensures
        moves_on(run, s.producer_done, run.going_on(s, index)),
        run.going_on(s, index).action !is Start,
        s.quit ==> run.going_on(s, index).action is Stop,
{
    reveal(DecodeRun::going_on);
    reveal(DecodeRun::stopping);
}

proof fn lemma_failing(run: DecodeRun, s: PlayerState, message: String)
    requires
        run.index < run.len,
    ensures
        moves_on(run, s.producer_done, run.failing(s, message)),
        run.failing(s, message).action !is Start,
{
    reveal(DecodeRun::failing);
    let next = (run.index + 1) as usize;
    lemma_going_on(
        run,
        (PlayerState { decode_error: Some(message), ..s }).after_signal_next_track(next),
        next,
    );
}

proof fn lemma_starting(run: DecodeRun, s: PlayerState, p: TrackParams)
    ensures
        moves_on(run, s.producer_done, run.starting(s, p)),
{
    reveal(DecodeRun::starting);
}

proof fn lemma_draining(run: DecodeRun, s: PlayerState, free: usize, p: TrackParams)
    ensures
        moves_on(run, s.producer_done, run.draining(s, free, p)),
{
    reveal(DecodeRun::draining);
    let buffered = (RING_BUFFER_SIZE - free) as usize;
    lemma_starting(run, s, p);
    lemma_stopping(run, s);
    lemma_starting(run, DecodeRun::discarding(s.after_take_skip_next(), buffered), p);
}

proof fn lemma_pacing(run: DecodeRun, s: PlayerState, free: usize)
    ensures
        moves_on(run, s.producer_done, run.pacing(s, free)),
        run.pacing(s, free).action !is Start,
{
    reveal(DecodeRun::pacing);
}

proof fn lemma_playing(run: DecodeRun, s: PlayerState, free: usize)
    ensures
        moves_on(run, s.producer_done, run.playing(s, free)),
        run.playing(s, free).action !is Start,
{
    reveal(DecodeRun::playing);
    lemma_pacing(run, s.after_take_skip_next().after_take_seek(), free);
}

proof fn lemma_closed(run: DecodeRun, s: PlayerState)
    requires
        run.index < run.len,
    ensures
        moves_on(run, s.producer_done, run.closed(s)),
        run.closed(s).action !is Start,
{
    reveal(DecodeRun::closed);
    lemma_stopping(run, s);
    lemma_going_on(run, s, (run.index + 1) as usize);
}

proof fn lemma_probed(run: DecodeRun, s: PlayerState, rate: Option<u32>)
    requires
        run.index < run.len,
    ensures
        moves_on(run, s.producer_done, run.probed(s, rate)),
        run.probed(s, rate).action !is Start,
{
    reveal(DecodeRun::probed);
    reveal(DecodeRun::stopping);
    lemma_going_on(run, s, (run.index + 1) as usize);
}

proof fn lemma_after(run: DecodeRun, s: PlayerState, event: Event, free: usize, at: SeekPoint)
    requires
        run.expects(event),
    ensures
        moves_on(run, s.producer_done, run.after(s, event, free, at)),
{
    match run.stage {
        Stage::Between => lemma_going_on(run, s, run.index),
        Stage::Opening => match event {
            Event::Opened(p) => {
                lemma_draining(run, s, free, p);
                lemma_starting(run, s, p);
            },
            Event::Failed(message) => lemma_failing(run, s, message),
            _ => {},
        },
        Stage::Draining => lemma_draining(run, s, free, run.params),
        Stage::Playing => lemma_playing(run, s, free),
        Stage::Seeking => {
            lemma_pacing(run, s, free);
            lemma_pacing(
                run,
                PlayerState { samples_played: samples_before(at, run.output_rate), ..s },
                free,
            );
        },
        Stage::Closing => lemma_closed(run, s),
        Stage::Probing => match event {
            Event::Rate(rate) => lemma_probed(run, s, rate),
            _ => {},
        },
        Stage::Stopped => {},
    }
}

/// Tracks are opened in the order of the playlist: the place of a run moves by
/// one track at most, never back, and a track that is opened stands there.
pub proof fn law_playlist_goes_forward(
    run: DecodeRun,
    s: PlayerState,
    event: Event,
    free: usize,
    at: SeekPoint,
)
    requires
        run.expects(event),
    ensures
        ({
            let next = run.after(s, event, free, at);
            &&& run.index <= next.run.index <= run.index + 1
            &&& next.run.len == run.len
            &&& next.action matches Action::Open(i) ==> i == next.run.index && i < run.len
        }),
{
    lemma_after(run, s, event, free, at);
}

/// When a run stops, the player learns that nothing more comes, or that the
/// output has to change its rate; one of the two where it knew neither.
pub proof fn law_end_is_told(
    run: DecodeRun,
    s: PlayerState,
    event: Event,
    free: usize,
    at: SeekPoint,
)
    requires
        run.expects(event),
        run.after(s, event, free, at).action is Stop,
    ensures
        run.after(s, event, free, at).run.stage is Stopped,
        ({
            let after = run.after(s, event, free, at).state;
            after.producer_done == (s.producer_done || !after.rate_change_needed)
        }),
{
    lemma_after(run, s, event, free, at);
}

/// Once the player quits, no further packet is decoded and no further track is
/// opened: the track that is playing is closed, and then the run stops.
pub proof fn law_quit_is_followed(
    run: DecodeRun,
    s: PlayerState,
    free: usize,
    at: SeekPoint,
)
    requires
        s.quit,
    ensures
        run.stage is Between ==> run.after(s, Event::Ready, free, at).action is Stop,
        run.stage is Playing ==> {
            let next = run.after(s, Event::Ready, free, at);
            &&& next.action is Close
            &&& next.run.stage is Closing && next.run.leaving
            &&& next.state == s
        },
        run.stage is Closing && run.leaving ==> run.after(
            s,
            Event::Ready,
            free,
            at,
        ).action is Stop,
{
    lemma_going_on(run, s, run.index);
    lemma_stopping(run, s);
    reveal(DecodeRun::playing);
    reveal(DecodeRun::closed);
}

/// A pause stops decoding: while it lasts, with no other request, the decoder
/// waits and changes nothing.
pub proof fn law_pause_waits(run: DecodeRun, s: PlayerState, free: usize, at: SeekPoint)
    requires
        run.stage is Playing,
        s.paused,
        !DecodeRun::called_off(s) && !s.skip_next && s.seek_request == 0,
    ensures
        run.after(s, Event::Ready, free, at).action is Sleep,
        run.after(s, Event::Ready, free, at).state == s,
        run.after(s, Event::Ready, free, at).run == run,
{
    reveal(DecodeRun::playing);
    reveal(DecodeRun::pacing);
    assert(s.after_take_skip_next().after_take_seek() == s);
}

/// A track that cannot be played does not end the music: it is told of, and the
/// one behind it is opened, where there is one and no request ends the run.
pub proof fn law_broken_track_is_passed_over(
    run: DecodeRun,
    s: PlayerState,
    message: String,
    free: usize,
    at: SeekPoint,
)
    requires
        run.stage is Opening,
        run.index + 1 < run.len,
        !DecodeRun::called_off(s),
    ensures
        ({
            let next = run.after(s, Event::Failed(message), free, at);
            &&& next.action == Action::Open((run.index + 1) as usize)
            &&& next.run.stage is Opening
            &&& next.state.decode_error == Some(message)
            &&& next.state.producer_track_index == run.index + 1
        }),
{
    reveal(DecodeRun::failing);
    reveal(DecodeRun::going_on);
}

/// An output that belongs to the player alone changes with the tracks: behind a
/// track the rate of the next one is asked for, and a track of another rate is
/// left to a run at that rate.
pub proof fn law_rate_is_matched(
    run: DecodeRun,
    s: PlayerState,
    later: PlayerState,
    rate: u32,
    free: usize,
    at: SeekPoint,
)
    requires
        run.stage is Closing && !run.leaving,
        run.index + 1 < run.len,
        s.exclusive,
        rate != run.output_rate,
    ensures
        ({
            let asked = run.after(s, Event::Ready, free, at);
            let told = asked.run.after(later, Event::Rate(Some(rate)), free, at);
            &&& asked.action == Action::Probe((run.index + 1) as usize)
            &&& asked.state == s
            &&& told.action is Stop
            &&& told.state == PlayerState {
                next_track_rate: rate,
                rate_change_needed: true,
                producer_track_index: (run.index + 1) as usize,
                ..later
            }
        }),
{
    reveal(DecodeRun::closed);
    reveal(DecodeRun::probed);
    reveal(DecodeRun::stopping);
}

/// A track that begins is shown from its first sample, as its stream describes it, whatever
/// was shown before; and it is told of, unless it is the first of the run.
pub proof fn law_track_begins_at_zero(
    run: DecodeRun,
    s: PlayerState,
    event: Event,
    free: usize,
    at: SeekPoint,
    p: TrackParams,
)
    requires
        run.expects(event),
        run.after(s, event, free, at).action == Action::Start(p),
    ensures
        ({
            let next = run.after(s, event, free, at);
            &&& next.state.samples_played == 0
            &&& next.state.sample_rate == p.sample_rate
            &&& next.state.total_samples == p.total
            &&& next.state.channels == p.channels
            &&& next.state.bits_per_sample == p.bits_per_sample
            &&& next.state.track_info_ready
            &&& next.run.stage is Playing && next.run.params == p && next.run.index == run.index
            &&& if run.index == run.start {
                &&& next.state.producer_track_index == s.producer_track_index
                &&& next.state.track_transition_count == s.track_transition_count
            } else {
                &&& next.state.producer_track_index == run.index
                &&& next.state.track_transition_count == (if s.track_transition_count
                    == usize::MAX {
                    0
                } else {
                    s.track_transition_count + 1
                })
            }
        }),
        event matches Event::Opened(opened) ==> p == opened,
        run.stage is Draining ==> p == run.params,
{
    if run.stage is Opening || run.stage is Draining {
        let opened = match event {
            Event::Opened(opened) => opened,
            _ => run.params,
        };
        lemma_begins(run, s, opened);
        lemma_drained(run, s, free, opened);
        if event is Failed {
            lemma_failing(run, s, event->Failed_0);
        }
    } else {
        lemma_no_start(run, s, event, free, at);
    }
}

proof fn lemma_no_start(run: DecodeRun, s: PlayerState, event: Event, free: usize, at: SeekPoint)
    requires
        run.expects(event),
        run.stage !is Opening && run.stage !is Draining,
    ensures
        run.after(s, event, free, at).action !is Start,
{
    match run.stage {
        Stage::Between => lemma_going_on(run, s, run.index),
        Stage::Playing => lemma_playing(run, s, free),
        Stage::Seeking => {
            lemma_pacing(run, s, free);
            lemma_pacing(
                run,
                PlayerState { samples_played: samples_before(at, run.output_rate), ..s },
                free,
            );
        },
        Stage::Closing => lemma_closed(run, s),
        Stage::Probing => match event {
            Event::Rate(rate) => lemma_probed(run, s, rate),
            _ => {},
        },
        _ => {},
    }
}

/// What is shown and told of a track that begins.
spec fn begins(run: DecodeRun, s: PlayerState, p: TrackParams, next: Step) -> bool {
    &&& next.action == Action::Start(p)
    &&& next.state.samples_played == 0
    &&& next.state.sample_rate == p.sample_rate
    &&& next.state.total_samples == p.total
    &&& next.state.channels == p.channels
    &&& next.state.bits_per_sample == p.bits_per_sample
    &&& next.state.track_info_ready
    &&& next.state.discard_samples == s.discard_samples
    &&& next.state.reset_consumer_counter == s.reset_consumer_counter
    &&& next.state.skip_next == s.skip_next
    &&& next.run.stage is Playing && next.run.params == p && next.run.index == run.index
    &&& if run.index == run.start {
        &&& next.state.producer_track_index == s.producer_track_index
        &&& next.state.track_transition_count == s.track_transition_count
    } else {
        &&& next.state.producer_track_index == run.index
        &&& next.state.track_transition_count == s.track_transition_count.wrapping_add(1)
    }
}

proof fn lemma_begins(run: DecodeRun, s: PlayerState, p: TrackParams)
    ensures
        begins(run, s, p, run.starting(s, p)),
{
    reveal(DecodeRun::starting);
    reveal(DecodeRun::announced);
    reveal(DecodeRun::shown);
}

/// What a track that waits for the one before it comes to.
proof fn lemma_drained(run: DecodeRun, s: PlayerState, free: usize, p: TrackParams)
    ensures
        ({
            let next = run.draining(s, free, p);
            let heard = (RING_BUFFER_SIZE - free) as usize;
            let asked = s.quit || s.skip_prev || s.jump_to_track >= 0;
            if heard <= run.output_rate {
                next == run.starting(s, p)
            } else if asked {
                next.action is Stop
            } else if s.skip_next {
                begins(
                    run,
                    PlayerState {
                        skip_next: false,
                        discard_samples: heard as u64,
                        reset_consumer_counter: true,
                        ..s
                    },
                    p,
                    next,
                )
            } else {
                &&& next.action is Sleep
                &&& next.state == s
                &&& next.run == DecodeRun { stage: Stage::Draining, params: p, ..run }
            }
        }),
{
    reveal(DecodeRun::draining);
    reveal(DecodeRun::stopping);
    let heard = (RING_BUFFER_SIZE - free) as usize;
    let t = PlayerState {
        skip_next: false,
        discard_samples: heard as u64,
        reset_consumer_counter: true,
        ..s
    };
    lemma_begins(run, t, p);
    assert(DecodeRun::discarding(s.after_take_skip_next(), heard) == t);
}

/// The first track of a run begins as soon as it is open. A later one waits while more
/// than a second of the track before it is still to be heard; a skip throws that away.
pub proof fn law_tracks_follow_without_gap(
    run: DecodeRun,
    s: PlayerState,
    p: TrackParams,
    free: usize,
    at: SeekPoint,
)
    requires
        run.stage is Opening,
        free <= RING_BUFFER_SIZE,
    ensures
        ({
            let next = run.after(s, Event::Opened(p), free, at);
            let heard = RING_BUFFER_SIZE - free;
            let asked = s.quit || s.skip_prev || s.jump_to_track >= 0;
            &&& run.index == run.start || heard <= run.output_rate ==> {
                &&& next.action == Action::Start(p)
                &&& next.state.discard_samples == s.discard_samples
                &&& next.state.reset_consumer_counter == s.reset_consumer_counter
                &&& next.state.skip_next == s.skip_next
            }
            &&& run.index != run.start && heard > run.output_rate ==> {
                &&& asked ==> next.action is Stop
                &&& !asked && s.skip_next ==> {
                    &&& next.action == Action::Start(p)
                    &&& next.state.discard_samples == heard
                    &&& next.state.reset_consumer_counter
                    &&& !next.state.skip_next
                }
                &&& !asked && !s.skip_next ==> {
                    &&& next.action is Sleep
                    &&& next.state == s
                    &&& next.run.stage is Draining && next.run.params == p
                    &&& next.run.index == run.index
                    &&& next.run.after(s, Event::Ready, free, at).action is Sleep
                    &&& next.run.after(s, Event::Ready, RING_BUFFER_SIZE, at).action
                        == Action::Start(p)
                }
            }
        }),
{
    lemma_begins(run, s, p);
    lemma_drained(run, s, free, p);
    let waiting = DecodeRun { stage: Stage::Draining, params: p, ..run };
    lemma_drained(waiting, s, free, p);
    lemma_drained(waiting, s, RING_BUFFER_SIZE, p);
    lemma_begins(waiting, s, p);
}

/// A request to leave the track closes it and then ends the run; it stays to be seen by
/// those who asked. The end of the track is kept.
pub proof fn law_requests_leave_the_track(
    run: DecodeRun,
    s: PlayerState,
    later: PlayerState,
    free: usize,
    at: SeekPoint,
)
    requires
        run.stage is Playing,
        s.quit || s.skip_prev || s.jump_to_track >= 0,
    ensures
        ({
            let next = run.after(s, Event::Ready, free, at);
            let end = next.run.after(later, Event::Ready, free, at);
            &&& next.action == Action::Close { keep_tail: true }
            &&& next.state == s
            &&& end.action is Stop
            &&& end.run.stage is Stopped
        }),
{
    reveal(DecodeRun::playing);
    reveal(DecodeRun::closed);
    reveal(DecodeRun::stopping);
}

/// A skip closes the track, throws away what was decoded of it and keeps no end for a
/// crossfade; the track behind it is opened. The request is taken.
pub proof fn law_skip_goes_to_the_next(
    run: DecodeRun,
    s: PlayerState,
    later: PlayerState,
    free: usize,
    at: SeekPoint,
)
    requires
        run.stage is Playing,
        run.index + 1 < run.len,
        free <= RING_BUFFER_SIZE,
        s.skip_next,
        !s.quit && !s.skip_prev && s.jump_to_track < 0,
        !later.quit && !later.skip_prev && later.jump_to_track < 0 && !later.exclusive,
    ensures
        ({
            let next = run.after(s, Event::Ready, free, at);
            let open = next.run.after(later, Event::Ready, free, at);
            &&& next.action == Action::Close { keep_tail: false }
            &&& !next.state.skip_next
            &&& free < RING_BUFFER_SIZE ==> {
                &&& next.state.discard_samples == RING_BUFFER_SIZE - free
                &&& next.state.reset_consumer_counter
            }
            &&& next.state.seek_request == s.seek_request
            &&& next.state.samples_played == s.samples_played
            &&& open.action == Action::Open((run.index + 1) as usize)
            &&& open.run.stage is Opening
        }),
{
    reveal(DecodeRun::playing);
    reveal(DecodeRun::closed);
    reveal(DecodeRun::going_on);
}

/// A track that is over is followed by the one behind it, its end kept for a crossfade;
/// behind the last one the run stops.
pub proof fn law_next_track_follows(
    run: DecodeRun,
    s: PlayerState,
    later: PlayerState,
    free: usize,
    at: SeekPoint,
)
    requires
        run.stage is Playing,
        run.index < run.len,
        !later.quit && !later.skip_prev && later.jump_to_track < 0 && !later.exclusive,
    ensures
        ({
            let over = run.after(s, Event::Ended, free, at);
            let next = over.run.after(later, Event::Ready, free, at);
            &&& over.action == Action::Close { keep_tail: true }
            &&& over.state == s
            &&& run.index + 1 < run.len ==> {
                &&& next.action == Action::Open((run.index + 1) as usize)
                &&& next.run.index == run.index + 1
                &&& next.state == PlayerState { jump_to_track: -1i64, ..later }
            }
            &&& run.index + 1 >= run.len ==> next.action is Stop
        }),
{
    reveal(DecodeRun::closed);
    reveal(DecodeRun::going_on);
    reveal(DecodeRun::stopping);
}

/// Between tracks a run opens the track at its place; a request to quit, to go back or to
/// go to a track ends it instead, and so does the end of the playlist.
pub proof fn law_track_is_opened(run: DecodeRun, s: PlayerState, free: usize, at: SeekPoint)
    requires
        run.stage is Between,
    ensures
        ({
            let next = run.after(s, Event::Ready, free, at);
            let asked = s.quit || s.skip_prev || s.jump_to_track >= 0;
            &&& run.index < run.len && !asked ==> {
                &&& next.action == Action::Open(run.index)
                &&& next.run.stage is Opening && next.run.index == run.index
                &&& next.state.samples_played == s.samples_played
                &&& next.state.skip_next == s.skip_next
            }
            &&& run.index >= run.len || asked ==> next.action is Stop
            &&& run.index < run.len && s.skip_prev && !s.quit ==> !next.state.skip_prev
            &&& run.index < run.len && s.jump_to_track >= 0 && !s.quit && !s.skip_prev
                ==> next.state.jump_to_track < 0
            &&& run.index < run.len && s.quit ==> next.state.quit && next.state.skip_prev
                == s.skip_prev && next.state.jump_to_track == s.jump_to_track
        }),
{
    reveal(DecodeRun::going_on);
    reveal(DecodeRun::stopping);
}

/// A jump inside a track goes so many seconds from the position, not before the start, and
/// throws away what was decoded. Where the stream follows, the position is the one that was
/// asked for, to the sample; where it does not, the position stays.
pub proof fn law_seek_goes_that_far(run: DecodeRun, s: PlayerState, free: usize, room: usize)
    requires
        run.stage is Playing,
        free <= RING_BUFFER_SIZE,
        s.seek_request != 0,
        !s.quit && !s.skip_prev && s.jump_to_track < 0 && !s.skip_next,
        s.output_rate > 0,
        s.output_rate == run.output_rate,
    ensures
        ({
            let seek = run.after(
                s,
                Event::Ready,
                free,
                SeekPoint { num: 0, den: 1 },
            );
            let there = s.samples_played + s.seek_request * s.output_rate;
            &&& seek.action matches Action::Seek(to) && {
                let done = seek.run.after(seek.state, Event::Sought(true), room, to);
                let failed = seek.run.after(seek.state, Event::Sought(false), room, to);
                &&& to.den == s.output_rate
                &&& to.num == (if there < 0 {
                    0
                } else {
                    there
                })
                &&& 0 <= there <= u64::MAX ==> done.state.samples_played == there
                &&& there < 0 ==> done.state.samples_played == 0
                &&& failed.state.samples_played == s.samples_played
            }
            &&& seek.state.seek_request == 0
            &&& seek.state.discard_samples == RING_BUFFER_SIZE - free
            &&& seek.state.reset_consumer_counter
            &&& seek.state.samples_played == s.samples_played
            &&& seek.run.stage is Seeking && seek.run.index == run.index
        }),
{
    let rate = s.output_rate as int;
    let there = s.samples_played + s.seek_request * s.output_rate;
    let goal = if there < 0 {
        0
    } else {
        there
    };
    assert(-0x8000_0000_0000_0000 * 0xffff_ffff <= s.seek_request * s.output_rate
        <= 0x7fff_ffff_ffff_ffff * 0xffff_ffff) by (nonlinear_arith)
        requires
            -0x8000_0000_0000_0000 <= s.seek_request <= 0x7fff_ffff_ffff_ffff,
            0 < s.output_rate <= 0xffff_ffff,
    ;
    let to = DecodeRun::goal(s);
    assert(to.num == goal && to.den == rate);
    vstd::arithmetic::div_mod::lemma_div_by_multiple(goal, rate);
    lemma_seeking(run, s, free);
    let seek = run.playing(s, free);
    lemma_pace_position(seek.run, seek.state, room);
    lemma_pace_position(
        seek.run,
        PlayerState { samples_played: samples_before(to, run.output_rate), ..seek.state },
        room,
    );
}

proof fn lemma_seeking(run: DecodeRun, s: PlayerState, free: usize)
    requires
        s.seek_request != 0,
        !s.quit && !s.skip_prev && s.jump_to_track < 0 && !s.skip_next,
    ensures
        ({
            let seek = run.playing(s, free);
            &&& seek.action == Action::Seek(DecodeRun::goal(s))
            &&& seek.run == DecodeRun { stage: Stage::Seeking, ..run }
            &&& seek.state.seek_request == 0
            &&& seek.state.discard_samples == (RING_BUFFER_SIZE - free) as usize
            &&& seek.state.reset_consumer_counter
            &&& seek.state.samples_played == s.samples_played
        }),
{
    reveal(DecodeRun::playing);
}

proof fn lemma_pace_position(run: DecodeRun, s: PlayerState, free: usize)
    ensures
        run.pacing(s, free).state.samples_played == s.samples_played,
{
    reveal(DecodeRun::pacing);
}

/// While nothing is asked, a packet is decoded where a quarter of the ring is free and the
/// player is not paused, and else the decoder waits and changes nothing. With a packet go
/// the presets that were chosen since the last one, each told once.
pub proof fn law_packets_are_paced(run: DecodeRun, s: PlayerState, free: usize, at: SeekPoint)
    requires
        run.stage is Playing,
        s.seek_request == 0,
        !s.quit && !s.skip_prev && s.jump_to_track < 0 && !s.skip_next,
    ensures
        ({
            let next = run.after(s, Event::Ready, free, at);
            let goes_on = free >= RING_BUFFER_SIZE / 4 && !s.paused;
            &&& next.run == run
            &&& !goes_on ==> next.action is Sleep && next.state == s
            &&& goes_on ==> {
                &&& next.action matches Action::Decode { eq, effects, crossfeed } && {
                    &&& eq == (if s.eq_changed && s.eq_preset_index < run.eq_presets {
                        Some(s.eq_preset_index)
                    } else {
                        None
                    })
                    &&& effects == (if s.effects_changed && s.effects_preset_index
                        < run.effects_presets {
                        Some(s.effects_preset_index)
                    } else {
                        None
                    })
                    &&& crossfeed == (if s.crossfeed_changed && s.crossfeed_preset_index
                        < run.crossfeed_presets {
                        Some(s.crossfeed_preset_index)
                    } else {
                        None
                    })
                }
                &&& next.state == PlayerState {
                    eq_changed: false,
                    effects_changed: false,
                    crossfeed_changed: false,
                    ..s
                }
                &&& next.run.after(next.state, Event::Ready, free, at).action == Action::Decode {
                    eq: None,
                    effects: None,
                    crossfeed: None,
                }
            }
        }),
{
    reveal(DecodeRun::playing);
    reveal(DecodeRun::pacing);
    assert(s.after_take_skip_next().after_take_seek() == s);
}

/// Whether two states of the player hold the same of what the listener sets.
#[verifier::opaque]
pub open spec fn same_controls(s: PlayerState, t: PlayerState) -> bool {
    &&& t.volume == s.volume && t.balance == s.balance && t.paused == s.paused
    &&& t.quit == s.quit && t.exclusive == s.exclusive
    &&& t.current_track == s.current_track && t.total_tracks == s.total_tracks
    &&& t.eq_preset_index == s.eq_preset_index
    &&& t.effects_preset_index == s.effects_preset_index
    &&& t.crossfeed_preset_index == s.crossfeed_preset_index
    &&& t.viz_mode == s.viz_mode && t.viz_style == s.viz_style
    &&& t.rg_mode == s.rg_mode && t.pre_fader == s.pre_fader
    &&& t.show_stats == s.show_stats && t.output_rate == s.output_rate
    &&& t.crossfade_secs == s.crossfade_secs && t.buffer_level == s.buffer_level
    &&& t.stream_error == s.stream_error && t.clipping == s.clipping
}

proof fn lemma_same_twice(a: PlayerState, b: PlayerState, c: PlayerState)
    requires
        same_controls(a, b),
        same_controls(b, c),
    ensures
        same_controls(a, c),
{
    reveal(same_controls);
}

proof fn lemma_same_self(s: PlayerState)
    ensures
        same_controls(s, s),
{
    reveal(same_controls);
}

/// Taking a request leaves the controls.
proof fn lemma_same_taken(s: PlayerState)
    ensures
        same_controls(s, s.after_take_skip_next()),
        same_controls(s, s.after_take_skip_prev()),
        same_controls(s, s.after_take_jump()),
        same_controls(s, s.after_take_seek()),
{
    reveal(same_controls);
}

/// Taking the presets leaves the controls.
proof fn lemma_same_presets(s: PlayerState)
    ensures
        same_controls(s, s.after_take_eq_changed()),
        same_controls(s, s.after_take_effects_changed()),
        same_controls(s, s.after_take_crossfeed_changed()),
{
    reveal(same_controls);
}

proof fn lemma_same_discarding(s: PlayerState, buffered: usize)
    ensures
        same_controls(s, DecodeRun::discarding(s, buffered)),
{
    reveal(same_controls);
}

proof fn lemma_same_told(s: PlayerState, message: String, index: usize)
    ensures
        same_controls(
            s,
            (PlayerState { decode_error: Some(message), ..s }).after_signal_next_track(index),
        ),
{
    reveal(same_controls);
}

proof fn lemma_same_shown(run: DecodeRun, s: PlayerState, p: TrackParams)
    ensures
        same_controls(s, run.announced(s, p)),
{
    reveal(same_controls);
    reveal(DecodeRun::announced);
    reveal(DecodeRun::shown);
}

proof fn lemma_same_stopping(run: DecodeRun, s: PlayerState)
    ensures
        same_controls(s, run.stopping(s).state),
{
    reveal(same_controls);
    reveal(DecodeRun::stopping);
}

proof fn lemma_same_asked(s: PlayerState)
    ensures
        same_controls(s, DecodeRun::asked(s)),
{
    lemma_same_self(s);
    lemma_same_taken(s);
    let t = s.after_take_skip_prev();
    lemma_same_taken(t);
    lemma_same_twice(s, t, t.after_take_jump());
}

proof fn lemma_same_going_on(run: DecodeRun, s: PlayerState, index: usize)
    ensures
        same_controls(s, run.going_on(s, index).state),
{
    reveal(DecodeRun::going_on);
    let next = DecodeRun { index, ..run };
    let t = DecodeRun::asked(s);
    lemma_same_asked(s);
    lemma_same_stopping(next, s);
    lemma_same_stopping(next, t);
    lemma_same_twice(s, t, next.stopping(t).state);
}

proof fn lemma_same_failing(run: DecodeRun, s: PlayerState, message: String)
    ensures
        same_controls(s, run.failing(s, message).state),
{
    reveal(DecodeRun::failing);
    let next = (run.index + 1) as usize;
    let t = (PlayerState { decode_error: Some(message), ..s }).after_signal_next_track(next);
    lemma_same_told(s, message, next);
    lemma_same_going_on(run, t, next);
    lemma_same_twice(s, t, run.going_on(t, next).state);
}

proof fn lemma_same_starting(run: DecodeRun, s: PlayerState, p: TrackParams)
    ensures
        same_controls(s, run.starting(s, p).state),
{
    reveal(DecodeRun::starting);
    lemma_same_shown(run, s, p);
}

proof fn lemma_same_draining(run: DecodeRun, s: PlayerState, free: usize, p: TrackParams)
    ensures
        same_controls(s, run.draining(s, free, p).state),
{
    reveal(DecodeRun::draining);
    let buffered = (RING_BUFFER_SIZE - free) as usize;
    let t = s.after_take_skip_next();
    let u = DecodeRun::discarding(t, buffered);
    lemma_same_starting(run, s, p);
    lemma_same_stopping(run, s);
    lemma_same_taken(s);
    lemma_same_discarding(t, buffered);
    lemma_same_twice(s, t, u);
    lemma_same_starting(run, u, p);
    lemma_same_twice(s, u, run.starting(u, p).state);
}

proof fn lemma_same_pacing(run: DecodeRun, s: PlayerState, free: usize)
    ensures
        same_controls(s, run.pacing(s, free).state),
{
    reveal(DecodeRun::pacing);
    let a = s.after_take_eq_changed();
    let b = a.after_take_effects_changed();
    let c = b.after_take_crossfeed_changed();
    lemma_same_self(s);
    lemma_same_presets(s);
    lemma_same_presets(a);
    lemma_same_presets(b);
    lemma_same_twice(s, a, b);
    lemma_same_twice(s, b, c);
}

proof fn lemma_playing_states(run: DecodeRun, s: PlayerState, free: usize)
    ensures
        ({
            let buffered = (RING_BUFFER_SIZE - free) as usize;
            let t = s.after_take_skip_next();
            let u = t.after_take_seek();
            let r = run.playing(s, free).state;
            ||| r == s
            ||| r == t
            ||| r == DecodeRun::discarding(t, buffered)
            ||| r == DecodeRun::discarding(u, buffered)
            ||| r == run.pacing(u, free).state
        }),
{
    reveal(DecodeRun::playing);
}

proof fn lemma_same_playing(run: DecodeRun, s: PlayerState, free: usize)
    ensures
        same_controls(s, run.playing(s, free).state),
{
    let buffered = (RING_BUFFER_SIZE - free) as usize;
    let t = s.after_take_skip_next();
    let u = t.after_take_seek();
    lemma_playing_states(run, s, free);
    lemma_same_self(s);
    lemma_same_taken(s);
    lemma_same_taken(t);
    lemma_same_twice(s, t, u);
    lemma_same_discarding(t, buffered);
    lemma_same_twice(s, t, DecodeRun::discarding(t, buffered));
    lemma_same_discarding(u, buffered);
    lemma_same_twice(s, u, DecodeRun::discarding(u, buffered));
    lemma_same_pacing(run, u, free);
    lemma_same_twice(s, u, run.pacing(u, free).state);
}

proof fn lemma_same_closed(run: DecodeRun, s: PlayerState)
    ensures
        same_controls(s, run.closed(s).state),
{
    reveal(DecodeRun::closed);
    lemma_same_self(s);
    lemma_same_stopping(run, s);
    lemma_same_going_on(run, s, (run.index + 1) as usize);
}

proof fn lemma_same_next_rate(s: PlayerState, rate: u32, next: usize)
    ensures
        same_controls(
            s,
            PlayerState {
                next_track_rate: rate,
                rate_change_needed: true,
                producer_track_index: next,
                ..s
            },
        ),
{
    reveal(same_controls);
}

proof fn lemma_same_probed(run: DecodeRun, s: PlayerState, rate: Option<u32>)
    ensures
        same_controls(s, run.probed(s, rate).state),
{
    reveal(DecodeRun::probed);
    let next = (run.index + 1) as usize;
    lemma_same_going_on(run, s, next);
    if let Some(r) = rate {
        let t = PlayerState {
            next_track_rate: r,
            rate_change_needed: true,
            producer_track_index: next,
            ..s
        };
        let last = DecodeRun { index: next, ..run };
        lemma_same_next_rate(s, r, next);
        lemma_same_stopping(last, t);
        lemma_same_twice(s, t, last.stopping(t).state);
    }
}

proof fn lemma_same_sought(s: PlayerState, n: u64)
    ensures
        same_controls(s, PlayerState { samples_played: n, ..s }),
{
    reveal(same_controls);
}

/// A run never touches what the listener sets: volume, balance, pause, the modes and the
/// presets that are chosen, nor the place in the playlist that is shown.
pub proof fn law_decoder_leaves_controls(
    run: DecodeRun,
    s: PlayerState,
    event: Event,
    free: usize,
    at: SeekPoint,
)
    requires
        run.expects(event),
    ensures
        same_controls(s, run.after(s, event, free, at).state),
{
    match run.stage {
        Stage::Between => lemma_same_going_on(run, s, run.index),
        Stage::Opening => match event {
            Event::Opened(p) => {
                lemma_same_draining(run, s, free, p);
                lemma_same_starting(run, s, p);
            },
            Event::Failed(message) => lemma_same_failing(run, s, message),
            _ => {},
        },
        Stage::Draining => lemma_same_draining(run, s, free, run.params),
        Stage::Playing => {
            lemma_same_self(s);
            lemma_same_playing(run, s, free);
        },
        Stage::Seeking => {
            let n = samples_before(at, run.output_rate);
            let t = PlayerState { samples_played: n, ..s };
            lemma_same_sought(s, n);
            lemma_same_pacing(run, s, free);
            lemma_same_pacing(run, t, free);
            lemma_same_twice(s, t, run.pacing(t, free).state);
        },
        Stage::Closing => lemma_same_closed(run, s),
        Stage::Probing => match event {
            Event::Rate(rate) => lemma_same_probed(run, s, rate),
            _ => {},
        },
        Stage::Stopped => {},
    }
}

/// An output of the rate of the next track goes on with it; one that is shared never asks.
pub proof fn law_same_rate_goes_on(
    run: DecodeRun,
    s: PlayerState,
    rate: Option<u32>,
    free: usize,
    at: SeekPoint,
)
    requires
        run.stage is Probing,
        run.index + 1 < run.len,
        !s.quit && !s.skip_prev && s.jump_to_track < 0,
        rate is None || rate == Some(run.output_rate),
    ensures
        ({
            let next = run.after(s, Event::Rate(rate), free, at);
            &&& next.action == Action::Open((run.index + 1) as usize)
            &&& next.state == PlayerState { jump_to_track: -1i64, ..s }
        }),
{
    reveal(DecodeRun::probed);
    reveal(DecodeRun::going_on);
}

/// In album mode the album's gain and the album's peak are followed where they are there,
/// and the track's stand in for what is missing; in track mode only the track's count; and
/// nothing is followed where the mode is off or there is no gain.
pub proof fn law_gain_is_that_of_the_mode(tags: RgTags)
    ensures
        gain_followed(RgMode::Off, tags) is None,
        gain_followed(RgMode::Album, tags) is Some <==> tags.album_gain is Some || tags.track_gain
            is Some,
        gain_followed(RgMode::Album, tags) matches Some(r) ==> {
            &&& tags.album_gain is Some ==> Some(r.0) == tags.album_gain
            &&& tags.album_gain is None ==> Some(r.0) == tags.track_gain
            &&& tags.album_peak is Some ==> r.1 == tags.album_peak
            &&& tags.album_peak is None ==> r.1 == tags.track_peak
        },
        gain_followed(RgMode::Track, tags) is Some <==> tags.track_gain is Some,
        gain_followed(RgMode::Track, tags) matches Some(r) ==> Some(r.0) == tags.track_gain && r.1
            == tags.track_peak,
{
}

/// A loudness that was found stays, whatever tags come after it.
pub proof fn law_first_loudness_counts(rg: RgTags, tags: Seq<Tag>, n: int)
    ensures
        ({
            let r = rg_with_all(rg, tags, n);
            &&& rg.track_gain is Some ==> r.track_gain == rg.track_gain
            &&& rg.track_peak is Some ==> r.track_peak == rg.track_peak
            &&& rg.album_gain is Some ==> r.album_gain == rg.album_gain
            &&& rg.album_peak is Some ==> r.album_peak == rg.album_peak
        }),
    decreases n,
{
    if n > 0 {
        law_first_loudness_counts(rg, tags, n - 1);
    }
}

/// Which tags hold which loudness: a tag with a text counts by its key, in any case of
/// letters, for the one loudness that it names, where that was not found yet; no other tag
/// changes anything.
pub proof fn law_loudness_is_found_by_key(rg: RgTags, tag: Tag)
    ensures
        ({
            let r = rg_with(rg, tag);
            let key = lowercased(tag.key@);
            &&& tag.text is None ==> r == rg
            &&& tag.text is Some && rg.track_gain is None && key == "replaygain_track_gain"@
                ==> r.track_gain == tag.gain
            &&& tag.text is Some && rg.track_peak is None && key == "replaygain_track_peak"@
                ==> r.track_peak == tag.peak
            &&& tag.text is Some && rg.album_gain is None && key == "replaygain_album_gain"@
                ==> r.album_gain == tag.gain
            &&& tag.text is Some && rg.album_peak is None && key == "replaygain_album_peak"@
                ==> r.album_peak == tag.peak
            &&& key != "replaygain_track_gain"@ ==> r.track_gain == rg.track_gain
            &&& key != "replaygain_track_peak"@ ==> r.track_peak == rg.track_peak
            &&& key != "replaygain_album_gain"@ ==> r.album_gain == rg.album_gain
            &&& key != "replaygain_album_peak"@ ==> r.album_peak == rg.album_peak
        }),
{
}

/// How a resampler interpolates.
#[derive(Clone, Copy, Debug, PartialEq, Eq, Structural)]
pub struct ResamplerSettings {
    pub sinc_len: usize,
    pub cubic: bool,
    pub oversampling: usize,
    pub chunk: usize,
}

/// The resampler that a track needs to be heard at the rate of the output; none
/// where the rates are the same. The better one takes longer.
pub fn resampler_for(sample_rate: u32, output_rate: u32, high_quality: bool) -> (r: Option<
    ResamplerSettings,
>)
    ensures
        r == (if sample_rate == output_rate {
            None
        } else {
            Some(
                ResamplerSettings {
                    sinc_len: if high_quality {
                        256
                    } else {
                        64
                    },
                    cubic: high_quality,
                    oversampling: 128,
                    chunk: 1024,
                },
            )
        }),
{
    if sample_rate == output_rate {
        None
    } else {
        Some(
            ResamplerSettings {
                sinc_len: if high_quality {
                    256
                } else {
                    64
                },
                cubic: high_quality,
                oversampling: 128,
                chunk: 1024,
            },
        )
    }
}

/// Whether the end of a track is kept for a crossfade: where there is one to
/// come, anything was heard, and the track was not skipped.
pub fn keeps_tail(crossfade_samples: usize, tail_len: usize, keep: bool) -> (r: bool)
    ensures
        r == (crossfade_samples > 0 && tail_len > 0 && keep),
{
    crossfade_samples > 0 && tail_len > 0 && keep
}

} // verus!
