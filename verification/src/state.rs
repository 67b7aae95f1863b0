//! What the player remembers: the playback controls that the user interface,
//! the decoder and the audio callback share, and the state of the interface.
use vstd::prelude::*;

use crate::lyrics::{Lyrics, LyricsView};
use crate::text::texts;

verus! {

/// Samples in the ring between decoder and output: about four seconds of stereo.
pub const RING_BUFFER_SIZE: usize = 384000;

/// Samples in the ring that feeds the visualization.
pub const VIZ_BUFFER_SIZE: usize = 8192;

/// Points of one spectrum transform.
pub const FFT_SIZE: usize = 4096;

/// Bands of the spectrum display.
pub const SPECTRUM_BANDS: usize = 31;

/// How meters are drawn.
#[derive(Clone, Copy, Debug, PartialEq, Eq, Structural)]
pub enum VizStyle {
    Bars,
    Dots,
}

impl VizStyle {
    /// The style with this number; every number but one means bars.
    pub fn from_u8(value: u8) -> (r: Self)
        ensures
            r == VizStyle::of(value),
    {
        match value {
            1 => VizStyle::Dots,
            _ => VizStyle::Bars,
        }
    }

    /// The style that a number stands for.
    pub open spec fn of(value: u8) -> Self {
        if value == 1 {
            VizStyle::Dots
        } else {
            VizStyle::Bars
        }
    }

    /// The number of a style.
    pub open spec fn code(self) -> u8 {
        match self {
            VizStyle::Bars => 0,
            VizStyle::Dots => 1,
        }
    }
}

/// Which loudness tags are followed.
#[derive(Clone, Copy, Debug, PartialEq, Eq, Structural)]
pub enum RgMode {
    Track,
    Album,
    Off,
}

impl RgMode {
    /// The mode with this number; an unknown number means `Track`.
    pub fn from_u8(value: u8) -> (r: Self)
        ensures
            r == RgMode::of(value),
    {
        match value {
            1 => RgMode::Album,
            2 => RgMode::Off,
            _ => RgMode::Track,
        }
    }

    /// The mode that a number stands for.
    pub open spec fn of(value: u8) -> Self {
        if value == 1 {
            RgMode::Album
        } else if value == 2 {
            RgMode::Off
        } else {
            RgMode::Track
        }
    }

    /// The number of a mode.
    pub open spec fn code(self) -> u8 {
        match self {
            RgMode::Track => 0,
            RgMode::Album => 1,
            RgMode::Off => 2,
        }
    }

    /// The number of a mode, as it is kept in the player's state.
    pub fn to_u8(self) -> (r: u8)
        ensures
            r == self.code(),
    {
        match self {
            RgMode::Track => 0,
            RgMode::Album => 1,
            RgMode::Off => 2,
        }
    }

    /// The name of a mode.
    pub open spec fn label(self) -> Seq<char> {
        match self {
            RgMode::Track => "Track"@,
            RgMode::Album => "Album"@,
            RgMode::Off => "Off"@,
        }
    }

    /// The name of a mode, for display.
    pub fn name(self) -> (r: &'static str)
        ensures
            r@ == self.label(),
    {
        match self {
            RgMode::Track => "Track",
            RgMode::Album => "Album",
            RgMode::Off => "Off",
        }
    }
}

/// What the visualization area shows.
#[derive(Clone, Copy, Debug, PartialEq, Eq, Structural)]
pub enum VizMode {
    Off,
    VuMeter,
    SpectrumHorizontal,
    SpectrumVertical,
}

impl VizMode {
    /// The mode behind this one in the cycle.
    pub open spec fn after(self) -> Self {
        match self {
            VizMode::Off => VizMode::VuMeter,
            VizMode::VuMeter => VizMode::SpectrumHorizontal,
            VizMode::SpectrumHorizontal => VizMode::SpectrumVertical,
            VizMode::SpectrumVertical => VizMode::Off,
        }
    }

    /// The next mode in the cycle.
    pub fn next(self) -> (r: Self)
        ensures
            r == self.after(),
    {
        match self {
            VizMode::Off => VizMode::VuMeter,
            VizMode::VuMeter => VizMode::SpectrumHorizontal,
            VizMode::SpectrumHorizontal => VizMode::SpectrumVertical,
            VizMode::SpectrumVertical => VizMode::Off,
        }
    }

    /// The mode with this number; an unknown number means none.
    pub fn from_u8(value: u8) -> (r: Self)
        ensures
            r == VizMode::of(value),
    {
        match value {
            1 => VizMode::VuMeter,
            2 => VizMode::SpectrumHorizontal,
            3 => VizMode::SpectrumVertical,
            _ => VizMode::Off,
        }
    }

    /// The mode that a number stands for.
    pub open spec fn of(value: u8) -> Self {
        if value == 1 {
            VizMode::VuMeter
        } else if value == 2 {
            VizMode::SpectrumHorizontal
        } else if value == 3 {
            VizMode::SpectrumVertical
        } else {
            VizMode::Off
        }
    }

    /// The number of a mode.
    pub open spec fn code(self) -> u8 {
        match self {
            VizMode::Off => 0,
            VizMode::VuMeter => 1,
            VizMode::SpectrumHorizontal => 2,
            VizMode::SpectrumVertical => 3,
        }
    }

    /// The number of a mode, as it is kept in the player's state.
    pub fn to_u8(self) -> (r: u8)
        ensures
            r == self.code(),
    {
        match self {
            VizMode::Off => 0,
            VizMode::VuMeter => 1,
            VizMode::SpectrumHorizontal => 2,
            VizMode::SpectrumVertical => 3,
        }
    }
}

/// A duration or a position in seconds, as the fraction `num / den`.
#[derive(Clone, Copy, Debug, PartialEq, Eq, Structural)]
pub struct Seconds {
    pub num: u64,
    pub den: u64,
}

impl Seconds {
    /// `samples` at `rate` samples per second; nothing at a rate of zero.
    pub open spec fn of(samples: u64, rate: u64) -> Seconds {
        if rate > 0 {
            Seconds { num: samples, den: rate }
        } else {
            Seconds { num: 0, den: 1 }
        }
    }

    /// A fraction with a denominator.
    pub open spec fn wf(self) -> bool {
        self.den > 0
    }

    /// The whole seconds of a duration.
    pub open spec fn floor(self) -> nat {
        (self.num / self.den) as nat
    }

    /// The whole seconds of a duration.
    pub fn whole(self) -> (r: u64)
        requires
            self.wf(),
        ensures
            r == self.floor(),
    {
        self.num / self.den
    }
}

/// The preset behind `index`, around the end.
pub open spec fn next_preset(index: usize, count: usize) -> usize {
    ((index + 1) % count as int) as usize
}

/// The controls and readings of the player.
///
/// Levels of the meters are kept as the bit patterns of their floating-point
/// values.
pub struct PlayerState {
    pub paused: bool,
    pub quit: bool,
    pub skip_next: bool,
    pub skip_prev: bool,
    pub seek_request: i64,
    pub jump_to_track: i64,
    pub current_track: usize,
    pub total_tracks: usize,
    pub sample_rate: u64,
    pub output_rate: u64,
    pub total_samples: u64,
    pub samples_played: u64,
    pub channels: usize,
    pub bits_per_sample: usize,
    pub producer_done: bool,
    pub track_info_ready: bool,
    pub buffer_level: usize,
    pub discard_samples: u64,
    pub reset_consumer_counter: bool,
    pub viz_mode: u8,
    pub peak_left: u32,
    pub peak_right: u32,
    pub spectrum: [u32; SPECTRUM_BANDS],
    pub spectrum_r: [u32; SPECTRUM_BANDS],
    pub peak_dots: [u32; SPECTRUM_BANDS],
    pub vu_peak_dot_l: u32,
    pub vu_peak_dot_r: u32,
    pub volume: u32,
    pub eq_preset_index: usize,
    pub eq_preset_count: usize,
    pub eq_changed: bool,
    pub effects_preset_index: usize,
    pub effects_preset_count: usize,
    pub effects_changed: bool,
    pub pre_fader: bool,
    pub show_stats: bool,
    pub crossfade_secs: u32,
    pub viz_style: u8,
    pub decode_error: Option<String>,
    pub track_transition_count: usize,
    pub producer_track_index: usize,
    pub rg_mode: u8,
    pub clipping: bool,
    pub crossfeed_preset_index: usize,
    pub crossfeed_preset_count: usize,
    pub crossfeed_changed: bool,
    pub balance: i32,
    pub exclusive: bool,
    pub rate_change_needed: bool,
    pub next_track_rate: u32,
    pub stream_error: bool,
}

impl PlayerState {
    /// A player at rest: nothing asked for, 44.1 kHz stereo, full volume,
    /// nothing shown but dots, tags of the track followed.
    pub open spec fn fresh(self) -> bool {
        &&& !self.paused && !self.quit && !self.skip_next && !self.skip_prev
        &&& self.seek_request == 0 && self.jump_to_track == -1
        &&& self.current_track == 0 && self.total_tracks == 0
        &&& self.sample_rate == 44100 && self.output_rate == 44100
        &&& self.total_samples == 0 && self.samples_played == 0
        &&& self.channels == 2 && self.bits_per_sample == 16
        &&& !self.producer_done && !self.track_info_ready
        &&& self.buffer_level == 0 && self.discard_samples == 0
        &&& !self.reset_consumer_counter
        &&& self.viz_mode == VizMode::Off.code()
        &&& self.peak_left == 0 && self.peak_right == 0
        &&& forall|i: int|
            0 <= i < SPECTRUM_BANDS ==> #[trigger] self.spectrum@[i] == 0
        &&& forall|i: int|
            0 <= i < SPECTRUM_BANDS ==> #[trigger] self.spectrum_r@[i] == 0
        &&& forall|i: int|
            0 <= i < SPECTRUM_BANDS ==> #[trigger] self.peak_dots@[i] == 0
        &&& self.vu_peak_dot_l == 0 && self.vu_peak_dot_r == 0
        &&& self.volume == 100
        &&& self.eq_preset_index == 0 && self.eq_preset_count == 0 && !self.eq_changed
        &&& self.effects_preset_index == 0 && self.effects_preset_count == 0
        &&& !self.effects_changed
        &&& !self.pre_fader && !self.show_stats
        &&& self.crossfade_secs == 0
        &&& self.viz_style == VizStyle::Dots.code()
        &&& self.decode_error is None
        &&& self.track_transition_count == 0 && self.producer_track_index == 0
        &&& self.rg_mode == RgMode::Track.code()
        &&& !self.clipping
        &&& self.crossfeed_preset_index == 0 && self.crossfeed_preset_count == 0
        &&& !self.crossfeed_changed
        &&& self.balance == 0
        &&& !self.exclusive && !self.rate_change_needed && self.next_track_rate == 0
        &&& !self.stream_error
    }

    /// Volume and balance inside their scales, and each preset that is chosen
    /// among those that there are.
    pub open spec fn in_range(self) -> bool {
        &&& self.volume <= 150
        &&& -100 <= self.balance <= 100
        &&& self.eq_preset_count > 0 ==> self.eq_preset_index < self.eq_preset_count
        &&& self.effects_preset_count > 0 ==> self.effects_preset_index
            < self.effects_preset_count
        &&& self.crossfeed_preset_count > 0 ==> self.crossfeed_preset_index
            < self.crossfeed_preset_count
    }

    pub fn new() -> (r: Self)
        ensures
            r.fresh(),
            r.in_range(),
    {
        PlayerState {
            paused: false,
            quit: false,
            skip_next: false,
            skip_prev: false,
            seek_request: 0,
            jump_to_track: -1,
            current_track: 0,
            total_tracks: 0,
            sample_rate: 44100,
            output_rate: 44100,
            total_samples: 0,
            samples_played: 0,
            channels: 2,
            bits_per_sample: 16,
            producer_done: false,
            track_info_ready: false,
            buffer_level: 0,
            discard_samples: 0,
            reset_consumer_counter: false,
            viz_mode: 0,
            peak_left: 0,
            peak_right: 0,
            spectrum: [0u32; 31],
            spectrum_r: [0u32; 31],
            peak_dots: [0u32; 31],
            vu_peak_dot_l: 0,
            vu_peak_dot_r: 0,
            volume: 100,
            eq_preset_index: 0,
            eq_preset_count: 0,
            eq_changed: false,
            effects_preset_index: 0,
            effects_preset_count: 0,
            effects_changed: false,
            pre_fader: false,
            show_stats: false,
            crossfade_secs: 0,
            viz_style: 1,
            decode_error: None,
            track_transition_count: 0,
            producer_track_index: 0,
            rg_mode: 0,
            clipping: false,
            crossfeed_preset_index: 0,
            crossfeed_preset_count: 0,
            crossfeed_changed: false,
            balance: 0,
            exclusive: false,
            rate_change_needed: false,
            next_track_rate: 0,
            stream_error: false,
        }
    }

    pub open spec fn after_toggle_pause(self) -> Self {
        PlayerState { paused: !self.paused, ..self }
    }

    pub fn toggle_pause(&mut self)
        ensures
            *final(self) == old(self).after_toggle_pause(),
    {
        self.paused = !self.paused;
    }

    pub fn is_paused(&self) -> (r: bool)
        ensures
            r == self.paused,
    {
        self.paused
    }

    /// Pauses or resumes.
    pub fn set_paused(&mut self, paused: bool)
        ensures
            *final(self) == (PlayerState { paused, ..*old(self) }),
    {
        self.paused = paused;
    }

    pub open spec fn after_quit(self) -> Self {
        PlayerState { quit: true, ..self }
    }

    pub fn quit(&mut self)
        ensures
            *final(self) == old(self).after_quit(),
    {
        self.quit = true;
    }

    pub fn should_quit(&self) -> (r: bool)
        ensures
            r == self.quit,
    {
        self.quit
    }

    pub open spec fn after_next(self) -> Self {
        PlayerState { skip_next: true, ..self }
    }

    pub fn next(&mut self)
        ensures
            *final(self) == old(self).after_next(),
    {
        self.skip_next = true;
    }

    pub open spec fn after_prev(self) -> Self {
        PlayerState { skip_prev: true, ..self }
    }

    pub fn prev(&mut self)
        ensures
            *final(self) == old(self).after_prev(),
    {
        self.skip_prev = true;
    }

    pub open spec fn after_jump_to(self, index: usize) -> Self {
        PlayerState { jump_to_track: index as i64, ..self }
    }

    /// Asks for the track at `index`.
    pub fn jump_to(&mut self, index: usize)
        ensures
            *final(self) == old(self).after_jump_to(index),
    {
        self.jump_to_track = #[verifier::truncate]
        (index as i64);
    }

    /// The track that is asked for, where one is.
    pub open spec fn wanted_track(self) -> Option<usize> {
        if self.jump_to_track >= 0 {
            Some(self.jump_to_track as usize)
        } else {
            None
        }
    }

    pub open spec fn after_take_jump(self) -> Self {
        PlayerState { jump_to_track: -1i64, ..self }
    }

    /// Takes the request for a track.
    pub fn take_jump(&mut self) -> (r: Option<usize>)
        ensures
            r == old(self).wanted_track(),
            *final(self) == old(self).after_take_jump(),
    {
        let val = self.jump_to_track;
        self.jump_to_track = -1;
        if val >= 0 {
            Some(#[verifier::truncate] (val as usize))
        } else {
            None
        }
    }

    pub open spec fn after_take_skip_next(self) -> Self {
        PlayerState { skip_next: false, ..self }
    }

    pub fn take_skip_next(&mut self) -> (r: bool)
        ensures
            r == old(self).skip_next,
            *final(self) == old(self).after_take_skip_next(),
    {
        let r = self.skip_next;
        self.skip_next = false;
        r
    }

    pub open spec fn after_take_skip_prev(self) -> Self {
        PlayerState { skip_prev: false, ..self }
    }

    pub fn take_skip_prev(&mut self) -> (r: bool)
        ensures
            r == old(self).skip_prev,
            *final(self) == old(self).after_take_skip_prev(),
    {
        let r = self.skip_prev;
        self.skip_prev = false;
        r
    }

    pub open spec fn after_seek(self, secs: i64) -> Self {
        PlayerState { seek_request: secs, ..self }
    }

    /// Asks for a jump of `secs` seconds inside the track.
    pub fn seek(&mut self, secs: i64)
        ensures
            *final(self) == old(self).after_seek(secs),
    {
        self.seek_request = secs;
    }

    pub open spec fn after_take_seek(self) -> Self {
        PlayerState { seek_request: 0, ..self }
    }

    pub fn take_seek(&mut self) -> (r: i64)
        ensures
            r == old(self).seek_request,
            *final(self) == old(self).after_take_seek(),
    {
        let r = self.seek_request;
        self.seek_request = 0;
        r
    }

    pub open spec fn after_volume_up(self) -> Self {
        PlayerState {
            volume: if self.volume + 5 > 150 {
                150
            } else {
                (self.volume + 5) as u32
            },
            ..self
        }
    }

    /// Five points louder, up to 150.
    pub fn volume_up(&mut self)
        requires
            old(self).volume <= u32::MAX - 5,
        ensures
            *final(self) == old(self).after_volume_up(),
    {
        let up = self.volume + 5;
        self.volume = if up > 150 {
            150
        } else {
            up
        };
    }

    pub open spec fn after_volume_down(self) -> Self {
        PlayerState {
            volume: if self.volume < 5 {
                0
            } else {
                (self.volume - 5) as u32
            },
            ..self
        }
    }

    /// Five points softer, down to silence.
    pub fn volume_down(&mut self)
        ensures
            *final(self) == old(self).after_volume_down(),
    {
        self.volume = if self.volume < 5 {
            0
        } else {
            self.volume - 5
        };
    }

    /// The gain of the volume control in hundredths: 100 leaves the signal as it is.
    pub fn volume_gain(&self) -> (r: u32)
        ensures
            r == self.volume,
    {
        self.volume
    }

    pub open spec fn position(self) -> Seconds {
        Seconds::of(self.samples_played, self.output_rate)
    }

    /// The position in the track: what was played, at the rate of the output.
    pub fn time_secs(&self) -> (r: Seconds)
        ensures
            r == self.position(),
            r.wf(),
    {
        if self.output_rate > 0 {
            Seconds { num: self.samples_played, den: self.output_rate }
        } else {
            Seconds { num: 0, den: 1 }
        }
    }

    pub open spec fn duration(self) -> Seconds {
        Seconds::of(self.total_samples, self.sample_rate)
    }

    /// The duration of the track: its samples, at the rate of the source.
    pub fn total_secs(&self) -> (r: Seconds)
        ensures
            r == self.duration(),
            r.wf(),
    {
        if self.sample_rate > 0 {
            Seconds { num: self.total_samples, den: self.sample_rate }
        } else {
            Seconds { num: 0, den: 1 }
        }
    }

    pub fn viz_mode(&self) -> (r: VizMode)
        ensures
            r == VizMode::of(self.viz_mode),
    {
        VizMode::from_u8(self.viz_mode)
    }

    pub open spec fn after_cycle_viz_mode(self) -> Self {
        PlayerState { viz_mode: VizMode::of(self.viz_mode).after().code(), ..self }
    }

    pub fn cycle_viz_mode(&mut self)
        ensures
            *final(self) == old(self).after_cycle_viz_mode(),
    {
        let mode = self.viz_mode().next();
        self.viz_mode = mode.to_u8();
    }

    pub open spec fn after_cycle_eq(self) -> Self {
        if self.eq_preset_count == 0 {
            self
        } else {
            PlayerState {
                eq_preset_index: next_preset(
                    self.eq_preset_index,
                    self.eq_preset_count,
                ),
                eq_changed: true,
                ..self
            }
        }
    }

    /// The next equalizer preset, around the end; nothing where there is none.
    pub fn cycle_eq(&mut self)
        requires
            old(self).eq_preset_index < usize::MAX,
        ensures
            *final(self) == old(self).after_cycle_eq(),
    {
        if self.eq_preset_count == 0 {
            return ;
        }
        self.eq_preset_index = (self.eq_preset_index + 1) % self.eq_preset_count;
        self.eq_changed = true;
    }

    pub fn eq_index(&self) -> (r: usize)
        ensures
            r == self.eq_preset_index,
    {
        self.eq_preset_index
    }

    pub open spec fn after_take_eq_changed(self) -> Self {
        PlayerState { eq_changed: false, ..self }
    }

    pub fn take_eq_changed(&mut self) -> (r: bool)
        ensures
            r == old(self).eq_changed,
            *final(self) == old(self).after_take_eq_changed(),
    {
        let r = self.eq_changed;
        self.eq_changed = false;
        r
    }

    pub open spec fn after_cycle_effects(self) -> Self {
        if self.effects_preset_count == 0 {
            self
        } else {
            PlayerState {
                effects_preset_index: next_preset(
                    self.effects_preset_index,
                    self.effects_preset_count,
                ),
                effects_changed: true,
                ..self
            }
        }
    }

    /// The next effects preset, around the end; nothing where there is none.
    pub fn cycle_effects(&mut self)
        requires
            old(self).effects_preset_index < usize::MAX,
        ensures
            *final(self) == old(self).after_cycle_effects(),
    {
        if self.effects_preset_count == 0 {
            return ;
        }
        self.effects_preset_index = (self.effects_preset_index + 1) % self.effects_preset_count;
        self.effects_changed = true;
    }

    pub fn effects_index(&self) -> (r: usize)
        ensures
            r == self.effects_preset_index,
    {
        self.effects_preset_index
    }

    pub open spec fn after_take_effects_changed(self) -> Self {
        PlayerState { effects_changed: false, ..self }
    }

    pub fn take_effects_changed(&mut self) -> (r: bool)
        ensures
            r == old(self).effects_changed,
            *final(self) == old(self).after_take_effects_changed(),
    {
        let r = self.effects_changed;
        self.effects_changed = false;
        r
    }

    pub open spec fn after_toggle_pre_fader(self) -> Self {
        PlayerState { pre_fader: !self.pre_fader, ..self }
    }

    pub fn toggle_pre_fader(&mut self)
        ensures
            *final(self) == old(self).after_toggle_pre_fader(),
    {
        self.pre_fader = !self.pre_fader;
    }

    pub fn is_pre_fader(&self) -> (r: bool)
        ensures
            r == self.pre_fader,
    {
        self.pre_fader
    }

    pub open spec fn after_toggle_stats(self) -> Self {
        PlayerState { show_stats: !self.show_stats, ..self }
    }

    pub fn toggle_stats(&mut self)
        ensures
            *final(self) == old(self).after_toggle_stats(),
    {
        self.show_stats = !self.show_stats;
    }

    pub fn show_stats(&self) -> (r: bool)
        ensures
            r == self.show_stats,
    {
        self.show_stats
    }

    pub fn viz_style(&self) -> (r: VizStyle)
        ensures
            r == VizStyle::of(self.viz_style),
    {
        VizStyle::from_u8(self.viz_style)
    }

    pub open spec fn after_toggle_viz_style(self) -> Self {
        PlayerState {
            viz_style: if self.viz_style == 0 {
                1
            } else {
                0
            },
            ..self
        }
    }

    pub fn toggle_viz_style(&mut self)
        ensures
            *final(self) == old(self).after_toggle_viz_style(),
    {
        self.viz_style = if self.viz_style == 0 {
            1
        } else {
            0
        };
    }

    pub open spec fn after_signal_next_track(self, index: usize) -> Self {
        PlayerState {
            producer_track_index: index,
            track_transition_count: self.track_transition_count.wrapping_add(1),
            ..self
        }
    }

    /// Tells the interface that the decoder has reached the track at `index`;
    /// the count of transitions starts over behind the largest number.
    pub fn signal_next_track(&mut self, index: usize)
        ensures
            *final(self) == old(self).after_signal_next_track(index),
    {
        let count: usize = self.track_transition_count.wrapping_add(1);
        self.producer_track_index = index;
        self.track_transition_count = count;
    }

    pub fn rg_mode(&self) -> (r: RgMode)
        ensures
            r == RgMode::of(self.rg_mode),
    {
        RgMode::from_u8(self.rg_mode)
    }

    pub open spec fn after_is_clipping(self) -> Self {
        PlayerState { clipping: false, ..self }
    }

    /// Whether the signal has clipped since this was asked last.
    pub fn is_clipping(&mut self) -> (r: bool)
        ensures
            r == old(self).clipping,
            *final(self) == old(self).after_is_clipping(),
    {
        let r = self.clipping;
        self.clipping = false;
        r
    }

    pub open spec fn after_cycle_crossfeed(self) -> Self {
        if self.crossfeed_preset_count == 0 {
            self
        } else {
            PlayerState {
                crossfeed_preset_index: next_preset(
                    self.crossfeed_preset_index,
                    self.crossfeed_preset_count,
                ),
                crossfeed_changed: true,
                ..self
            }
        }
    }

    /// The next crossfeed preset, around the end; nothing where there is none.
    pub fn cycle_crossfeed(&mut self)
        requires
            old(self).crossfeed_preset_index < usize::MAX,
        ensures
            *final(self) == old(self).after_cycle_crossfeed(),
    {
        if self.crossfeed_preset_count == 0 {
            return ;
        }
        self.crossfeed_preset_index = (self.crossfeed_preset_index + 1)
            % self.crossfeed_preset_count;
        self.crossfeed_changed = true;
    }

    pub fn crossfeed_index(&self) -> (r: usize)
        ensures
            r == self.crossfeed_preset_index,
    {
        self.crossfeed_preset_index
    }

    pub open spec fn after_take_crossfeed_changed(self) -> Self {
        PlayerState { crossfeed_changed: false, ..self }
    }

    pub fn take_crossfeed_changed(&mut self) -> (r: bool)
        ensures
            r == old(self).crossfeed_changed,
            *final(self) == old(self).after_take_crossfeed_changed(),
    {
        let r = self.crossfeed_changed;
        self.crossfeed_changed = false;
        r
    }

    pub open spec fn after_balance_left(self) -> Self {
        PlayerState {
            balance: if self.balance - 5 < -100 {
                -100i32
            } else {
                (self.balance - 5) as i32
            },
            ..self
        }
    }

    /// Five points to the left, as far as -100.
    pub fn balance_left(&mut self)
        requires
            old(self).balance >= i32::MIN + 5,
        ensures
            *final(self) == old(self).after_balance_left(),
    {
        let to = self.balance - 5;
        self.balance = if to < -100 {
            -100
        } else {
            to
        };
    }

    pub open spec fn after_balance_right(self) -> Self {
        PlayerState {
            balance: if self.balance + 5 > 100 {
                100
            } else {
                (self.balance + 5) as i32
            },
            ..self
        }
    }

    /// Five points to the right, as far as 100.
    pub fn balance_right(&mut self)
        requires
            old(self).balance <= i32::MAX - 5,
        ensures
            *final(self) == old(self).after_balance_right(),
    {
        let to = self.balance + 5;
        self.balance = if to > 100 {
            100
        } else {
            to
        };
    }

    pub fn balance_value(&self) -> (r: i32)
        ensures
            r == self.balance,
    {
        self.balance
    }

    pub fn set_peaks(&mut self, left: u32, right: u32)
        ensures
            *final(self) == (PlayerState { peak_left: left, peak_right: right, ..*old(self) }),
    {
        self.peak_left = left;
        self.peak_right = right;
    }

    pub fn get_peaks(&self) -> (r: (u32, u32))
        ensures
            r == (self.peak_left, self.peak_right),
    {
        (self.peak_left, self.peak_right)
    }

    pub fn set_spectrum(&mut self, bands: &[u32; SPECTRUM_BANDS])
        ensures
            *final(self) == (PlayerState { spectrum: *bands, ..*old(self) }),
    {
        self.spectrum = *bands;
    }

    pub fn get_spectrum(&self) -> (r: [u32; SPECTRUM_BANDS])
        ensures
            r == self.spectrum,
    {
        self.spectrum
    }

    pub fn set_spectrum_r(&mut self, bands: &[u32; SPECTRUM_BANDS])
        ensures
            *final(self) == (PlayerState { spectrum_r: *bands, ..*old(self) }),
    {
        self.spectrum_r = *bands;
    }

    pub fn get_spectrum_r(&self) -> (r: [u32; SPECTRUM_BANDS])
        ensures
            r == self.spectrum_r,
    {
        self.spectrum_r
    }

    pub fn set_dots(&mut self, dots: &[u32; SPECTRUM_BANDS])
        ensures
            *final(self) == (PlayerState { peak_dots: *dots, ..*old(self) }),
    {
        self.peak_dots = *dots;
    }

    pub fn get_dots(&self) -> (r: [u32; SPECTRUM_BANDS])
        ensures
            r == self.peak_dots,
    {
        self.peak_dots
    }

    pub fn set_vu_dots(&mut self, left: u32, right: u32)
        ensures
            *final(self) == (PlayerState {
                vu_peak_dot_l: left,
                vu_peak_dot_r: right,
                ..*old(self)
            }),
    {
        self.vu_peak_dot_l = left;
        self.vu_peak_dot_r = right;
    }

    pub fn get_vu_dots(&self) -> (r: (u32, u32))
        ensures
            r == (self.vu_peak_dot_l, self.vu_peak_dot_r),
    {
        (self.vu_peak_dot_l, self.vu_peak_dot_r)
    }
}

/// What fills the body of the screen.
#[derive(Clone, Copy, Debug, PartialEq, Eq, Structural)]
pub enum ViewMode {
    Player,
    Playlist,
    Lyrics,
}

/// What typed characters go to.
pub enum InputMode {
    Normal,
    Search(String),
    SavePlaylist(String),
}

/// An input mode with its text as characters.
pub ghost enum InputView {
    Normal,
    Search(Seq<char>),
    SavePlaylist(Seq<char>),
}

impl View for InputMode {
    type V = InputView;

    open spec fn view(&self) -> InputView {
        match self {
            InputMode::Normal => InputView::Normal,
            InputMode::Search(q) => InputView::Search(q@),
            InputMode::SavePlaylist(n) => InputView::SavePlaylist(n@),
        }
    }
}

/// A rectangle of character cells on the screen.
#[derive(Clone, Copy, Debug, PartialEq, Eq, Structural)]
pub struct CellRect {
    pub x: u16,
    pub y: u16,
    pub w: u16,
    pub h: u16,
}

/// The actions that have a key of their own on the banner.
#[derive(Clone, Copy, Debug, PartialEq, Eq, Structural)]
pub enum BannerHotkey {
    Eq,
    Fx,
    Crossfeed,
    Fader,
    VizMode,
    VizStyle,
    Info,
    List,
    Lyrics,
    Open,
    Pick,
    Shuffle,
    LoopToggle,
}

/// The state of the interface.
///
/// `lyrics_offset` counts half seconds: positive shows the lyrics later, negative
/// earlier.
/// The status message carries the millisecond at which it was set.
pub struct UiState {
    pub view_mode: ViewMode,
    pub input_mode: InputMode,
    pub scroll_offset: usize,
    pub cursor: usize,
    pub filtered_indices: Vec<usize>,
    pub current: usize,
    pub source_paths: Vec<String>,
    pub status_message: Option<(String, u64)>,
    pub removed_paths: Vec<String>,
    pub banner_lines: usize,
    pub banner_text: String,
    pub playlist_dirty: bool,
    pub current_track_removed: bool,
    pub terminal_resized: bool,
    pub lyrics: Option<Lyrics>,
    pub lyrics_scroll: usize,
    pub lyrics_auto_scroll: bool,
    pub lyrics_offset: i64,
    pub shuffle: bool,
    pub repeat: bool,
    pub session_idle: bool,
    pub pending_resume_save: bool,
    pub banner_hotkey_regions: Vec<(CellRect, BannerHotkey)>,
}

/// The state of the interface with its texts as characters.
#[verifier::ext_equal]
pub ghost struct UiView {
    pub view_mode: ViewMode,
    pub input: InputView,
    pub scroll_offset: usize,
    pub cursor: usize,
    pub filtered: Seq<usize>,
    pub current: usize,
    pub sources: Seq<Seq<char>>,
    pub status: Option<(Seq<char>, u64)>,
    pub removed: Seq<Seq<char>>,
    pub banner_lines: usize,
    pub banner: Seq<char>,
    pub playlist_dirty: bool,
    pub current_track_removed: bool,
    pub terminal_resized: bool,
    pub lyrics: Option<LyricsView>,
    pub lyrics_scroll: usize,
    pub lyrics_auto_scroll: bool,
    pub lyrics_offset: i64,
    pub shuffle: bool,
    pub repeat: bool,
    pub session_idle: bool,
    pub pending_resume_save: bool,
    pub regions: Seq<(CellRect, BannerHotkey)>,
}

/// A status message as characters.
pub open spec fn status_view(m: Option<(String, u64)>) -> Option<(Seq<char>, u64)> {
    match m {
        Some((s, at)) => Some((s@, at)),
        None => None,
    }
}

/// Lyrics as characters, where there are any.
pub open spec fn lyrics_view(l: Option<Lyrics>) -> Option<LyricsView> {
    match l {
        Some(l) => Some(l@),
        None => None,
    }
}

impl View for UiState {
    type V = UiView;

    open spec fn view(&self) -> UiView {
        UiView {
            view_mode: self.view_mode,
            input: self.input_mode@,
            scroll_offset: self.scroll_offset,
            cursor: self.cursor,
            filtered: self.filtered_indices@,
            current: self.current,
            sources: texts(self.source_paths@),
            status: status_view(self.status_message),
            removed: texts(self.removed_paths@),
            banner_lines: self.banner_lines,
            banner: self.banner_text@,
            playlist_dirty: self.playlist_dirty,
            current_track_removed: self.current_track_removed,
            terminal_resized: self.terminal_resized,
            lyrics: lyrics_view(self.lyrics),
            lyrics_scroll: self.lyrics_scroll,
            lyrics_auto_scroll: self.lyrics_auto_scroll,
            lyrics_offset: self.lyrics_offset,
            shuffle: self.shuffle,
            repeat: self.repeat,
            session_idle: self.session_idle,
            pending_resume_save: self.pending_resume_save,
            regions: self.banner_hotkey_regions@,
        }
    }
}

impl UiView {
    /// The interface at the start.
    pub open spec fn initial(sources: Seq<Seq<char>>, shuffle: bool, repeat: bool) -> UiView {
        UiView {
            view_mode: ViewMode::Player,
            input: InputView::Normal,
            scroll_offset: 0,
            cursor: 0,
            filtered: Seq::empty(),
            current: 0,
            sources,
            status: None,
            removed: Seq::empty(),
            banner_lines: 0,
            banner: Seq::empty(),
            playlist_dirty: false,
            current_track_removed: false,
            terminal_resized: false,
            lyrics: None,
            lyrics_scroll: 0,
            lyrics_auto_scroll: true,
            lyrics_offset: 0,
            shuffle,
            repeat,
            session_idle: false,
            pending_resume_save: false,
            regions: Seq::empty(),
        }
    }

    /// The interface with a status message set at `now`.
    pub open spec fn with_status(self, msg: Seq<char>, now: u64) -> UiView {
        UiView { status: Some((msg, now)), ..self }
    }

    /// Whether the status message is still to be shown at `now`: for two
    /// seconds, and never before it was set.
    pub open spec fn status_live(self, now: u64) -> bool {
        self.status matches Some((_, at)) && now - at < 2000
    }
}

impl UiState {
    pub fn new(source_paths: Vec<String>, shuffle: bool, repeat: bool) -> (r: Self)
        ensures
            r@ == UiView::initial(texts(source_paths@), shuffle, repeat),
    {
        let r = UiState {
            view_mode: ViewMode::Player,
            input_mode: InputMode::Normal,
            scroll_offset: 0,
            cursor: 0,
            filtered_indices: Vec::new(),
            current: 0,
            source_paths,
            status_message: None,
            removed_paths: Vec::new(),
            banner_lines: 0,
            banner_text: String::new(),
            playlist_dirty: false,
            current_track_removed: false,
            terminal_resized: false,
            lyrics: None,
            lyrics_scroll: 0,
            lyrics_auto_scroll: true,
            lyrics_offset: 0,
            shuffle,
            repeat,
            session_idle: false,
            pending_resume_save: false,
            banner_hotkey_regions: Vec::new(),
        };
        assert(r@ =~= UiView::initial(texts(source_paths@), shuffle, repeat));
        r
    }

    /// Shows a message; `now` is the present millisecond.
    pub fn set_status(&mut self, msg: String, now: u64)
        ensures
            final(self)@ == old(self)@.with_status(msg@, now),
    {
        self.status_message = Some((msg, now));
    }

    /// The message to show at `now`; one older than two seconds is forgotten.
    pub fn take_status(&mut self, now: u64) -> (r: Option<String>)
        ensures
            old(self)@.status_live(now) ==> final(self)@ == old(self)@ && (old(self)@.status matches Some(
                (msg, _),
            ) && r matches Some(shown) && shown@ == msg),
            !old(self)@.status_live(now) ==> r is None && final(self)@ == (UiView {
                status: None,
                ..old(self)@
            }),
    {
        let live: bool = match &self.status_message {
            Some((_, at)) => now < *at || now - *at < 2000,
            None => false,
        };
        if live {
            match &self.status_message {
                Some((msg, _)) => Some(msg.clone()),
                None => None,
            }
        } else {
            self.status_message = None;
            None
        }
    }
}

/// Four steps of the visualization key come back to where they began.
pub proof fn law_viz_modes_cycle(m: VizMode)
    ensures
        m.after().after().after().after() == m,
{
}

/// Each mode and style is found again by its number.
pub proof fn law_numbers_name_modes(m: VizMode, style: VizStyle, rg: RgMode)
    ensures
        VizMode::of(m.code()) == m,
        VizStyle::of(style.code()) == style,
        RgMode::of(rg.code()) == rg,
{
}

/// Keys that toggle undo themselves.
pub proof fn law_toggles_undo(s: PlayerState)
    ensures
        s.after_toggle_pause().after_toggle_pause() == s,
        s.after_toggle_pre_fader().after_toggle_pre_fader() == s,
        s.after_toggle_stats().after_toggle_stats() == s,
        s.viz_style <= 1 ==> s.after_toggle_viz_style().after_toggle_viz_style() == s,
{
}

/// A request for a track is taken once, as it was made.
pub proof fn law_jump_taken_once(s: PlayerState, index: usize)
    requires
        index <= i64::MAX,
    ensures
        s.after_jump_to(index).wanted_track() == Some(index),
        s.after_jump_to(index).after_take_jump().wanted_track() is None,
{
}

/// A call that changes the player.
pub ghost enum Call {
    TogglePause,
    Next,
    Prev,
    JumpTo(usize),
    TakeJump,
    TakeSkipNext,
    TakeSkipPrev,
    Seek(i64),
    TakeSeek,
    VolumeUp,
    VolumeDown,
    CycleVizMode,
    CycleEq,
    TakeEqChanged,
    CycleEffects,
    TakeEffectsChanged,
    TogglePreFader,
    ToggleStats,
    ToggleVizStyle,
    SignalNextTrack(usize),
    IsClipping,
    CycleCrossfeed,
    TakeCrossfeedChanged,
    BalanceLeft,
    BalanceRight,
    Quit,
    SetPaused(bool),
    SetPeaks(u32, u32),
    SetSpectrum([u32; SPECTRUM_BANDS]),
    SetSpectrumR([u32; SPECTRUM_BANDS]),
    SetDots([u32; SPECTRUM_BANDS]),
    SetVuDots(u32, u32),
}

impl PlayerState {
    /// The player after a call.
    pub open spec fn after_call(self, call: Call) -> Self {
        match call {
            Call::TogglePause => self.after_toggle_pause(),
            Call::Next => self.after_next(),
            Call::Prev => self.after_prev(),
            Call::JumpTo(x) => self.after_jump_to(x),
            Call::TakeJump => self.after_take_jump(),
            Call::TakeSkipNext => self.after_take_skip_next(),
            Call::TakeSkipPrev => self.after_take_skip_prev(),
            Call::Seek(x) => self.after_seek(x),
            Call::TakeSeek => self.after_take_seek(),
            Call::VolumeUp => self.after_volume_up(),
            Call::VolumeDown => self.after_volume_down(),
            Call::CycleVizMode => self.after_cycle_viz_mode(),
            Call::CycleEq => self.after_cycle_eq(),
            Call::TakeEqChanged => self.after_take_eq_changed(),
            Call::CycleEffects => self.after_cycle_effects(),
            Call::TakeEffectsChanged => self.after_take_effects_changed(),
            Call::TogglePreFader => self.after_toggle_pre_fader(),
            Call::ToggleStats => self.after_toggle_stats(),
            Call::ToggleVizStyle => self.after_toggle_viz_style(),
            Call::SignalNextTrack(x) => self.after_signal_next_track(x),
            Call::IsClipping => self.after_is_clipping(),
            Call::CycleCrossfeed => self.after_cycle_crossfeed(),
            Call::TakeCrossfeedChanged => self.after_take_crossfeed_changed(),
            Call::BalanceLeft => self.after_balance_left(),
            Call::BalanceRight => self.after_balance_right(),
            Call::Quit => self.after_quit(),
            Call::SetPaused(paused) => PlayerState { paused, ..self },
            Call::SetPeaks(l, r) => PlayerState { peak_left: l, peak_right: r, ..self },
            Call::SetSpectrum(bands) => PlayerState { spectrum: bands, ..self },
            Call::SetSpectrumR(bands) => PlayerState { spectrum_r: bands, ..self },
            Call::SetDots(dots) => PlayerState { peak_dots: dots, ..self },
            Call::SetVuDots(l, r) => PlayerState { vu_peak_dot_l: l, vu_peak_dot_r: r, ..self },
        }
    }

    /// The player after calls, one after the other.
    pub open spec fn after_calls(self, calls: Seq<Call>) -> Self
        decreases calls.len(),
    {
        if calls.len() == 0 {
            self
        } else {
            self.after_calls(calls.drop_last()).after_call(calls.last())
        }
    }
}

proof fn lemma_calls_hold(calls: Seq<Call>, c: Call)
    requires
        calls.len() > 0,
    ensures
        calls.contains(c) <==> calls.drop_last().contains(c) || calls.last() == c,
{
    let front = calls.drop_last();
    if front.contains(c) {
        let k = choose|k: int| 0 <= k < front.len() && front[k] == c;
        assert(calls[k] == c);
    }
    if calls.contains(c) && calls.last() != c {
        let k = choose|k: int| 0 <= k < calls.len() && calls[k] == c;
        assert(front[k] == c);
    }
}

/// Whatever is called, the player is to quit from the first call that says so, and
/// not before.
pub proof fn law_quit_latches(s: PlayerState, calls: Seq<Call>)
    ensures
        s.after_calls(calls).quit <==> s.quit || calls.contains(Call::Quit),
    decreases calls.len(),
{
    if calls.len() > 0 {
        law_quit_latches(s, calls.drop_last());
        lemma_calls_hold(calls, Call::Quit);
    }
}

/// Whatever is called in between, a skip is taken where one was asked for since the
/// last was taken, and only there.
pub proof fn law_skip_taken_once(s: PlayerState, calls: Seq<Call>)
    ensures
        !calls.contains(Call::TakeSkipNext) ==> (s.after_take_skip_next().after_calls(
            calls,
        ).skip_next <==> calls.contains(Call::Next)),
        !calls.contains(Call::TakeSkipPrev) ==> (s.after_take_skip_prev().after_calls(
            calls,
        ).skip_prev <==> calls.contains(Call::Prev)),
    decreases calls.len(),
{
    if calls.len() > 0 {
        law_skip_taken_once(s, calls.drop_last());
        lemma_calls_hold(calls, Call::TakeSkipNext);
        lemma_calls_hold(calls, Call::TakeSkipPrev);
        lemma_calls_hold(calls, Call::Next);
        lemma_calls_hold(calls, Call::Prev);
    }
}

/// A request to seek is taken once, as it was made.
pub proof fn law_seek_taken_once(s: PlayerState, secs: i64)
    ensures
        s.after_seek(secs).seek_request == secs,
        s.after_seek(secs).after_take_seek().seek_request == 0,
{
}

/// The controls never leave their scales: volume between 0 and 150, balance
/// between -100 and 100, presets among those that there are.
pub proof fn law_controls_stay_in_range(s: PlayerState)
    requires
        s.in_range(),
    ensures
        s.after_volume_up().in_range(),
        s.after_volume_down().in_range(),
        s.after_balance_left().in_range(),
        s.after_balance_right().in_range(),
        s.after_cycle_eq().in_range(),
        s.after_cycle_effects().in_range(),
        s.after_cycle_crossfeed().in_range(),
{
    if s.eq_preset_count > 0 {
        let i = s.eq_preset_index + 1;
        assert(0 <= i % (s.eq_preset_count as int) < s.eq_preset_count);
    }
    if s.effects_preset_count > 0 {
        let i = s.effects_preset_index + 1;
        assert(0 <= i % (s.effects_preset_count as int) < s.effects_preset_count);
    }
    if s.crossfeed_preset_count > 0 {
        let i = s.crossfeed_preset_index + 1;
        assert(0 <= i % (s.crossfeed_preset_count as int) < s.crossfeed_preset_count);
    }
}

/// One step up and one step down leave the volume where it was, away from the
/// loud end; so do steps of the balance, away from both ends.
pub proof fn law_steps_undo(s: PlayerState)
    ensures
        s.volume <= 145 ==> s.after_volume_up().after_volume_down() == s,
        -95 <= s.balance <= 95 ==> s.after_balance_left().after_balance_right() == s,
        -95 <= s.balance <= 95 ==> s.after_balance_right().after_balance_left() == s,
{
}

/// The preset after `n` presses of its key.
pub open spec fn preset_after(index: usize, count: usize, n: nat) -> usize
    decreases n,
{
    if n == 0 {
        index
    } else {
        next_preset(preset_after(index, count, (n - 1) as nat), count)
    }
}

/// Presses of a preset key walk through the presets, around their end.
pub proof fn law_preset_after(index: usize, count: usize, n: nat)
    requires
        index < count,
    ensures
        preset_after(index, count, n) == (index + n) % count as int,
    decreases n,
{
    let c = count as int;
    if n == 0 {
        vstd::arithmetic::div_mod::lemma_small_mod(index as nat, c as nat);
    } else {
        law_preset_after(index, count, (n - 1) as nat);
        let x = index + n - 1;
        let y = x % c;
        vstd::arithmetic::div_mod::lemma_mod_bound(x, c);
        vstd::arithmetic::div_mod::lemma_mod_bound(y + 1, c);
        vstd::arithmetic::div_mod::lemma_add_mod_noop(x, 1, c);
        vstd::arithmetic::div_mod::lemma_add_mod_noop(y, 1, c);
        vstd::arithmetic::div_mod::lemma_mod_twice(x, c);
        assert((y + 1) % c == (x + 1) % c);
    }
}

/// As many presses of a preset key as there are presets come back to the preset
/// that they began with.
pub proof fn law_presets_cycle(index: usize, count: usize)
    requires
        index < count,
    ensures
        preset_after(index, count, count as nat) == index,
{
    law_preset_after(index, count, count as nat);
    let c = count as int;
    vstd::arithmetic::div_mod::lemma_mod_add_multiples_vanish(index as int, c);
    vstd::arithmetic::div_mod::lemma_small_mod(index as nat, c as nat);
}

/// A status message is shown for two seconds from when it was set, and for no
/// longer.
pub proof fn law_status_lives_two_seconds(u: UiView, msg: Seq<char>, set: u64, now: u64)
    requires
        set <= now,
    ensures
        u.with_status(msg, set).status_live(now) <==> now < set + 2000,
{
}

/// The numbers of the modes: nothing, the meter, the spectrum lying and standing; bars and dots;
/// loudness of the track, of the album and none. Other numbers mean the first.
pub proof fn law_modes_have_their_numbers(n: u8)
    ensures
        n == 1 ==> VizMode::of(n) == VizMode::VuMeter && VizStyle::of(n) == VizStyle::Dots
            && RgMode::of(n) == RgMode::Album,
        n == 2 ==> VizMode::of(n) == VizMode::SpectrumHorizontal && RgMode::of(n) == RgMode::Off,
        n == 3 ==> VizMode::of(n) == VizMode::SpectrumVertical,
        n == 0 || n > 3 ==> VizMode::of(n) == VizMode::Off,
        n == 0 || n > 2 ==> RgMode::of(n) == RgMode::Track,
        n != 1 ==> VizStyle::of(n) == VizStyle::Bars,
        VizMode::of(n).code() <= 3 && (n <= 3 ==> VizMode::of(n).code() == n),
        RgMode::of(n).code() <= 2 && (n <= 2 ==> RgMode::of(n).code() == n),
        VizMode::of(n).after().code() == (VizMode::of(n).code() + 1) % 4,
{
}

/// Each mode of loudness is shown under its name.
pub proof fn law_modes_have_their_names()
    ensures
        RgMode::Track.label() == seq!['T', 'r', 'a', 'c', 'k'],
        RgMode::Album.label() == seq!['A', 'l', 'b', 'u', 'm'],
        RgMode::Off.label() == seq!['O', 'f', 'f'],
{
    reveal_strlit("Track");
    reveal_strlit("Album");
    reveal_strlit("Off");
    assert("Track"@ =~= seq!['T', 'r', 'a', 'c', 'k']);
    assert("Album"@ =~= seq!['A', 'l', 'b', 'u', 'm']);
    assert("Off"@ =~= seq!['O', 'f', 'f']);
}

/// Time is counted in samples: what was played at the rate of the output, the whole track at
/// the rate of its source. Whole seconds are those that are over.
pub proof fn law_time_is_counted_in_samples(s: PlayerState)
    ensures
        s.output_rate > 0 ==> {
            let secs = s.position().floor();
            secs * s.output_rate <= s.samples_played < (secs + 1) * s.output_rate
        },
        s.sample_rate > 0 ==> {
            let secs = s.duration().floor();
            secs * s.sample_rate <= s.total_samples < (secs + 1) * s.sample_rate
        },
        s.output_rate > 0 ==> s.position().num == s.samples_played && s.position().den
            == s.output_rate,
        s.sample_rate > 0 ==> s.duration().num == s.total_samples && s.duration().den
            == s.sample_rate,
        s.output_rate == 0 ==> s.position().floor() == 0 && s.position().num == 0,
        s.sample_rate == 0 ==> s.duration().floor() == 0 && s.duration().num == 0,
        s.position().wf() && s.duration().wf(),
{
    if s.output_rate > 0 {
        lemma_whole(s.samples_played as int, s.output_rate as int);
    }
    if s.sample_rate > 0 {
        lemma_whole(s.total_samples as int, s.sample_rate as int);
    }
}

proof fn lemma_whole(n: int, d: int)
    requires
        d > 0,
        n >= 0,
    ensures
        (n / d) * d <= n < (n / d + 1) * d,
        n / d >= 0,
{
    vstd::arithmetic::div_mod::lemma_fundamental_div_mod(n, d);
    vstd::arithmetic::div_mod::lemma_mod_bound(n, d);
    vstd::arithmetic::div_mod::lemma_div_pos_is_pos(n, d);
    let q = n / d;
    assert(q * d == d * q && (q + 1) * d == d * q + d) by (nonlinear_arith);
}

/// Requests for a track or a place set what is asked for and nothing else.
pub proof fn law_requests_touch_one_thing(s: PlayerState, index: usize, secs: i64)
    requires
        index <= i64::MAX,
    ensures
        s.after_seek(secs).seek_request == secs && s == (PlayerState {
            seek_request: s.seek_request,
            ..s.after_seek(secs)
        }),
        s.after_jump_to(index).jump_to_track == index && s == (PlayerState {
            jump_to_track: s.jump_to_track,
            ..s.after_jump_to(index)
        }),
{
}

/// Requests to skip, to pause and to quit set what is asked for and nothing else.
pub proof fn law_switches_touch_one_thing(s: PlayerState)
    ensures
        s.after_next() == (PlayerState { skip_next: true, ..s }),
        s.after_prev() == (PlayerState { skip_prev: true, ..s }),
        s.after_quit() == (PlayerState { quit: true, ..s }),
        s.after_toggle_pause() == (PlayerState { paused: !s.paused, ..s }),
{
}

/// Taking a request or a sign of change takes it back, and nothing else.
pub proof fn law_taking_touches_one_thing(s: PlayerState)
    ensures
        !s.after_take_skip_next().skip_next && s == (PlayerState {
            skip_next: s.skip_next,
            ..s.after_take_skip_next()
        }),
        !s.after_take_skip_prev().skip_prev && s == (PlayerState {
            skip_prev: s.skip_prev,
            ..s.after_take_skip_prev()
        }),
        s.after_take_seek().seek_request == 0 && s == (PlayerState {
            seek_request: s.seek_request,
            ..s.after_take_seek()
        }),
        s.after_take_jump().jump_to_track < 0 && s == (PlayerState {
            jump_to_track: s.jump_to_track,
            ..s.after_take_jump()
        }),
        s.jump_to_track < 0 ==> s.wanted_track() is None,
        !s.after_is_clipping().clipping && s == (PlayerState {
            clipping: s.clipping,
            ..s.after_is_clipping()
        }),
{
}

/// A change of presets is told once, each kind for itself.
pub proof fn law_changes_are_told_once(s: PlayerState)
    ensures
        !s.after_take_eq_changed().eq_changed && s == (PlayerState {
            eq_changed: s.eq_changed,
            ..s.after_take_eq_changed()
        }),
        !s.after_take_effects_changed().effects_changed && s == (PlayerState {
            effects_changed: s.effects_changed,
            ..s.after_take_effects_changed()
        }),
        !s.after_take_crossfeed_changed().crossfeed_changed && s == (PlayerState {
            crossfeed_changed: s.crossfeed_changed,
            ..s.after_take_crossfeed_changed()
        }),
        s.eq_preset_count > 0 ==> s.after_cycle_eq().eq_changed,
        s.effects_preset_count > 0 ==> s.after_cycle_effects().effects_changed,
        s.crossfeed_preset_count > 0 ==> s.after_cycle_crossfeed().crossfeed_changed,
{
}

/// The interface learns of each track that the decoder reaches: which one it is, and by a
/// count that goes up by one.
pub proof fn law_transitions_are_counted(s: PlayerState, index: usize)
    ensures
        s.after_signal_next_track(index).producer_track_index == index,
        s.track_transition_count < usize::MAX ==> s.after_signal_next_track(
            index,
        ).track_transition_count == s.track_transition_count + 1,
        s.track_transition_count == usize::MAX ==> s.after_signal_next_track(
            index,
        ).track_transition_count == 0,
        s == (PlayerState {
            producer_track_index: s.producer_track_index,
            track_transition_count: s.track_transition_count,
            ..s.after_signal_next_track(index)
        }),
{
}

/// The steps of volume and balance: five points, as far as the scale goes.
pub proof fn law_steps_are_five_points(s: PlayerState)
    requires
        s.in_range(),
    ensures
        s.volume <= 145 ==> s.after_volume_up().volume == s.volume + 5,
        s.volume > 145 ==> s.after_volume_up().volume == 150,
        s.volume >= 5 ==> s.after_volume_down().volume == s.volume - 5,
        s.volume < 5 ==> s.after_volume_down().volume == 0,
        s.balance >= -95 ==> s.after_balance_left().balance == s.balance - 5,
        s.balance < -95 ==> s.after_balance_left().balance == -100,
        s.balance <= 95 ==> s.after_balance_right().balance == s.balance + 5,
        s.balance > 95 ==> s.after_balance_right().balance == 100,
{
}

/// A player begins at rest: it plays, at full volume in the middle, with nothing asked for, and
/// nothing to undo.
pub proof fn law_player_begins_at_rest(s: PlayerState)
    requires
        s.fresh(),
    ensures
        !s.paused && !s.quit && s.volume == 100 && s.balance == 0,
        s.wanted_track() is None && s.seek_request == 0 && !s.skip_next && !s.skip_prev,
        s.position().num == 0 && s.duration().num == 0 && s.output_rate == 44100,
        s.channels == 2 && s.bits_per_sample == 16,
        VizMode::of(s.viz_mode) is Off && VizStyle::of(s.viz_style) is Dots,
        RgMode::of(s.rg_mode) is Track,
        s.in_range(),
        s.crossfade_secs == 0 && !s.exclusive && !s.pre_fader && !s.show_stats,
{
}

/// The interface begins with the player's view at the first track, with nothing typed, told
/// or marked, and lyrics that follow the music.
pub proof fn law_interface_begins_at_the_first_track(
    sources: Seq<Seq<char>>,
    shuffle: bool,
    repeat: bool,
)
    ensures
        ({
            let u = UiView::initial(sources, shuffle, repeat);
            &&& u.view_mode is Player && u.input is Normal
            &&& u.current == 0 && u.cursor == 0 && u.scroll_offset == 0
            &&& u.sources == sources && u.shuffle == shuffle && u.repeat == repeat
            &&& u.status is None && u.lyrics is None && u.filtered.len() == 0
            &&& u.removed.len() == 0 && u.regions.len() == 0
            &&& u.lyrics_auto_scroll && u.lyrics_offset == 0 && u.lyrics_scroll == 0
            &&& !u.playlist_dirty && !u.current_track_removed && !u.session_idle
            &&& !u.pending_resume_save && !u.terminal_resized
        }),
{
}

} // verus!
