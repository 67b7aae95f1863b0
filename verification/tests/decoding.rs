use std::collections::VecDeque;

use keet::decode::{
    choose_rg_gain, extract_rg_from_tags, failure_text, keeps_tail, resampler_for, samples_at,
    seek_point, track_params, Action, DecodeRun, Event, RgTags, SeekPoint, Stage, TrackParams,
};
use keet::metadata::{Tag, TagMeaning};
use keet::samples::{
    balance_gains, crossfade, crossfade_samples, deinterleave, filled_chunk, interleave,
    push_tail, scale_pairs, take_chunks,
};
use keet::state::{PlayerState, RgMode, Seconds, RING_BUFFER_SIZE};

const NOWHERE: SeekPoint = SeekPoint { num: 0, den: 1 };

fn params() -> TrackParams {
    track_params(Some(48000), None, Some(24), Some(96000))
}

#[test]
fn missing_parameters_have_usual_values() {
    assert_eq!(
        track_params(None, None, None, None),
        TrackParams { sample_rate: 44100, channels: 2, bits_per_sample: 16, total: 0 }
    );
    assert_eq!(
        params(),
        TrackParams { sample_rate: 48000, channels: 2, bits_per_sample: 24, total: 96000 }
    );
}

#[test]
fn a_run_plays_and_ends() {
    let mut s = PlayerState::new();
    let mut run = DecodeRun::new(1, 0, 44100, 2, 0, 0);
    let free = RING_BUFFER_SIZE;
    assert_eq!(run.step(&mut s, Event::Ready, free, NOWHERE), Action::Open(0));
    assert_eq!(
        run.step(&mut s, Event::Opened(params()), free, NOWHERE),
        Action::Start(params())
    );
    assert!(s.track_info_ready);
    assert_eq!((s.sample_rate, s.total_samples, s.bits_per_sample), (48000, 96000, 24));
    assert_eq!(s.track_transition_count, 0);
    s.eq_changed = true;
    s.eq_preset_index = 1;
    s.effects_changed = true;
    assert_eq!(
        run.step(&mut s, Event::Ready, free, NOWHERE),
        Action::Decode { eq: Some(1), effects: None, crossfeed: None }
    );
    assert!(!s.eq_changed && !s.effects_changed);
    assert_eq!(
        run.step(&mut s, Event::Ended, free, NOWHERE),
        Action::Close { keep_tail: true }
    );
    assert_eq!(run.step(&mut s, Event::Ready, free, NOWHERE), Action::Stop);
    assert_eq!(run.stage, Stage::Stopped);
    assert!(s.producer_done);
}

#[test]
fn broken_tracks_are_passed_over() {
    let mut s = PlayerState::new();
    let mut run = DecodeRun::new(2, 0, 44100, 0, 0, 0);
    let free = RING_BUFFER_SIZE;
    assert_eq!(run.step(&mut s, Event::Ready, free, NOWHERE), Action::Open(0));
    let text = failure_text("a.mp3", "not found");
    assert_eq!(text, "a.mp3: not found");
    assert_eq!(run.step(&mut s, Event::Failed(text), free, NOWHERE), Action::Open(1));
    assert_eq!(s.decode_error, Some("a.mp3: not found".to_string()));
    assert_eq!((s.producer_track_index, s.track_transition_count), (1, 1));
    let text = failure_text("b.mp3", "x");
    assert_eq!(run.step(&mut s, Event::Failed(text), free, NOWHERE), Action::Stop);
}

#[test]
fn the_track_before_is_heard_first() {
    let mut s = PlayerState::new();
    let mut run = DecodeRun::new(3, 0, 44100, 0, 0, 0);
    run.index = 1;
    run.stage = Stage::Opening;
    let full = 0;
    assert_eq!(run.step(&mut s, Event::Opened(params()), full, NOWHERE), Action::Sleep(10));
    s.paused = true;
    assert_eq!(run.step(&mut s, Event::Ready, full, NOWHERE), Action::Sleep(50));
    let free = RING_BUFFER_SIZE - 44100;
    assert_eq!(run.step(&mut s, Event::Ready, free, NOWHERE), Action::Start(params()));
    assert_eq!((s.producer_track_index, s.track_transition_count), (1, 1));
}

#[test]
fn skipping_while_draining_throws_the_rest_away() {
    let mut s = PlayerState::new();
    let mut run = DecodeRun::new(3, 0, 44100, 0, 0, 0);
    run.index = 1;
    run.stage = Stage::Opening;
    s.next();
    assert_eq!(run.step(&mut s, Event::Opened(params()), 0, NOWHERE), Action::Start(params()));
    assert_eq!(s.discard_samples, RING_BUFFER_SIZE as u64);
    assert!(s.reset_consumer_counter && !s.skip_next);
    run.stage = Stage::Draining;
    s.quit();
    assert_eq!(run.step(&mut s, Event::Ready, 0, NOWHERE), Action::Stop);
}

fn playing() -> (PlayerState, DecodeRun) {
    let mut run = DecodeRun::new(3, 0, 44100, 0, 0, 0);
    run.stage = Stage::Playing;
    (PlayerState::new(), run)
}

#[test]
fn requests_close_the_track() {
    let (mut s, mut run) = playing();
    s.next();
    assert_eq!(
        run.step(&mut s, Event::Ready, RING_BUFFER_SIZE - 10, NOWHERE),
        Action::Close { keep_tail: false }
    );
    assert_eq!(s.discard_samples, 10);
    assert_eq!(run.step(&mut s, Event::Ready, 0, NOWHERE), Action::Open(1));

    let (mut s, mut run) = playing();
    s.jump_to(2);
    assert_eq!(
        run.step(&mut s, Event::Ready, RING_BUFFER_SIZE, NOWHERE),
        Action::Close { keep_tail: true }
    );
    assert_eq!(run.step(&mut s, Event::Ready, 0, NOWHERE), Action::Stop);
    assert_eq!(s.jump_to_track, 2);
}

#[test]
fn the_decoder_waits() {
    let (mut s, mut run) = playing();
    assert_eq!(run.step(&mut s, Event::Ready, RING_BUFFER_SIZE / 4 - 1, NOWHERE), Action::Sleep(20));
    s.paused = true;
    assert_eq!(run.step(&mut s, Event::Ready, RING_BUFFER_SIZE, NOWHERE), Action::Sleep(50));
    assert_eq!(run.stage, Stage::Playing);
}

#[test]
fn seeking_moves_the_position() {
    let (mut s, mut run) = playing();
    s.samples_played = 44100 * 20;
    s.seek(-10);
    let a = run.step(&mut s, Event::Ready, RING_BUFFER_SIZE - 4, NOWHERE);
    let goal = SeekPoint { num: 44100 * 10, den: 44100 };
    assert_eq!(a, Action::Seek(goal));
    assert_eq!(s.discard_samples, 4);
    let a = run.step(&mut s, Event::Sought(true), RING_BUFFER_SIZE, goal);
    assert_eq!(a, Action::Decode { eq: None, effects: None, crossfeed: None });
    assert_eq!(s.samples_played, 44100 * 10);
    s.seek(5);
    let _ = run.step(&mut s, Event::Ready, RING_BUFFER_SIZE, NOWHERE);
    let _ = run.step(&mut s, Event::Sought(false), RING_BUFFER_SIZE, goal);
    assert_eq!(s.samples_played, 44100 * 10);
}

#[test]
fn positions_do_not_go_below_the_start() {
    let p = Seconds { num: 100, den: 10 };
    assert_eq!(seek_point(p, -60), SeekPoint { num: 0, den: 10 });
    assert_eq!(seek_point(p, 5), SeekPoint { num: 150, den: 10 });
    assert_eq!(samples_at(SeekPoint { num: 15, den: 10 }, 48000), 72000);
    assert_eq!(samples_at(SeekPoint { num: 1, den: 3 }, 10), 3);
    assert_eq!(samples_at(SeekPoint { num: u128::MAX, den: 1 }, 2), u64::MAX);
    assert_eq!(samples_at(SeekPoint { num: 7, den: 1 }, 0), 0);
}

#[test]
fn another_rate_ends_an_exclusive_run() {
    let mut s = PlayerState::new();
    s.exclusive = true;
    let mut run = DecodeRun::new(3, 0, 44100, 0, 0, 0);
    run.stage = Stage::Closing;
    assert_eq!(run.step(&mut s, Event::Ready, 0, NOWHERE), Action::Probe(1));
    let mut same = run;
    let mut t = PlayerState::new();
    assert_eq!(same.step(&mut t, Event::Rate(Some(44100)), 0, NOWHERE), Action::Open(1));
    assert_eq!(run.step(&mut s, Event::Rate(Some(96000)), 0, NOWHERE), Action::Stop);
    assert!(s.rate_change_needed && !s.producer_done);
    assert_eq!((s.next_track_rate, s.producer_track_index, run.index), (96000, 1, 1));
}

#[test]
fn loudness_tags() {
    let mut rg = RgTags { track_gain: None, track_peak: None, album_gain: None, album_peak: None };
    let t = |key: &str, n: u32| Tag {
        meaning: TagMeaning::Other,
        key: key.to_string(),
        text: Some("x".to_string()),
        gain: Some(n),
        peak: Some(n + 1),
    };
    extract_rg_from_tags(
        &vec![t("ReplayGain_Track_Gain", 1), t("replaygain_track_gain", 2), t("replaygain_album_peak", 3)],
        &mut rg,
    );
    assert_eq!(
        rg,
        RgTags { track_gain: Some(1), track_peak: None, album_gain: None, album_peak: Some(4) }
    );
    assert_eq!(choose_rg_gain(RgMode::Off, &rg), None);
    assert_eq!(choose_rg_gain(RgMode::Track, &rg), Some((1, None)));
    assert_eq!(choose_rg_gain(RgMode::Album, &rg), Some((1, Some(4))));
    rg.track_gain = None;
    assert_eq!(choose_rg_gain(RgMode::Track, &rg), None);
}

#[test]
fn channels_apart_and_together() {
    let planes = deinterleave(&vec![1, 2, 3, 4, 5], 2);
    assert_eq!(planes, vec![vec![1, 3, 5], vec![2, 4]]);
    assert_eq!(deinterleave(&Vec::<u8>::new(), 3), vec![Vec::<u8>::new(); 3]);
    assert_eq!(interleave(&vec![vec![1, 3, 9], vec![2, 4]], 2), vec![1, 2, 3, 4]);
    assert_eq!(deinterleave(&interleave(&vec![vec![7, 8], vec![9, 0]], 2), 2), vec![vec![7, 8], vec![9, 0]]);
    assert_eq!(interleave(&Vec::<Vec<u8>>::new(), 3), Vec::<u8>::new());
}

#[test]
fn chunks_come_off_the_front() {
    let mut pending = vec![1, 2, 3, 4, 5, 6, 7];
    assert_eq!(take_chunks(&mut pending, 3), vec![vec![1, 2, 3], vec![4, 5, 6]]);
    assert_eq!(pending, vec![7]);
    assert_eq!(take_chunks(&mut pending, 3), Vec::<Vec<i32>>::new());
    assert_eq!(filled_chunk(&pending, 3, 0), vec![7, 0, 0]);
}

#[test]
fn balance_pushes_one_side_back() {
    assert_eq!(balance_gains(0), None);
    assert_eq!(balance_gains(30), Some((70, 100)));
    assert_eq!(balance_gains(-100), Some((100, 0)));
    assert_eq!(balance_gains(i32::MIN), Some((100, 0)));
    let out = scale_pairs(&vec![10u32, 20, 30], 50, 100, |x: u32, g: u32| x * g / 100);
    assert_eq!(out, vec![5, 20, 15]);
}

#[test]
fn crossfades_mix_the_tail() {
    assert_eq!(crossfade_samples(3, 44100), 264600);
    let tail: VecDeque<i32> = VecDeque::from(vec![10, 20]);
    let mix = |x: i32, t: Option<i32>, p: usize, n: usize| {
        x * 1000 + t.unwrap_or(0) * 10 + (p + n) as i32
    };
    let (out, pos) = crossfade(&vec![1, 2, 3], &tail, 1, 3, mix);
    assert_eq!(out, vec![1204, 2005, 3]);
    assert_eq!(pos, 3);
    let (out, pos) = crossfade(&vec![4], &tail, 5, 3, mix);
    assert_eq!((out, pos), (vec![4], 5));
}

#[test]
fn tails_keep_the_end() {
    let mut tail: VecDeque<i32> = VecDeque::new();
    push_tail(&mut tail, &vec![1, 2], 3);
    push_tail(&mut tail, &vec![3, 4], 3);
    assert_eq!(tail, VecDeque::from(vec![2, 3, 4]));
    assert!(keeps_tail(3, 3, true) && !keeps_tail(3, 3, false) && !keeps_tail(0, 3, true));
}

#[test]
fn resamplers_are_needed_for_other_rates() {
    assert!(resampler_for(44100, 44100, true).is_none());
    let r = resampler_for(44100, 48000, true).unwrap();
    assert_eq!((r.sinc_len, r.cubic, r.oversampling, r.chunk), (256, true, 128, 1024));
    let r = resampler_for(44100, 48000, false).unwrap();
    assert_eq!((r.sinc_len, r.cubic), (64, false));
}
