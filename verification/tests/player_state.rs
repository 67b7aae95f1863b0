use keet::state::{
    InputMode, PlayerState, RgMode, Seconds, UiState, ViewMode, VizMode, VizStyle, SPECTRUM_BANDS,
};

#[test]
fn a_fresh_player() {
    let s = PlayerState::new();
    assert!(!s.is_paused() && !s.should_quit());
    assert_eq!(s.volume, 100);
    assert_eq!(s.jump_to_track, -1);
    assert_eq!(s.viz_mode(), VizMode::Off);
    assert_eq!(s.viz_style(), VizStyle::Dots);
    assert_eq!(s.rg_mode(), RgMode::Track);
    assert_eq!((s.sample_rate, s.output_rate, s.channels, s.bits_per_sample), (44100, 44100, 2, 16));
}

#[test]
fn requests_are_taken_once() {
    let mut s = PlayerState::new();
    s.jump_to(3);
    assert_eq!(s.take_jump(), Some(3));
    assert_eq!(s.take_jump(), None);
    s.seek(-10);
    assert_eq!(s.take_seek(), -10);
    assert_eq!(s.take_seek(), 0);
    s.next();
    assert!(s.take_skip_next() && !s.take_skip_next());
    s.prev();
    assert!(s.take_skip_prev() && !s.take_skip_prev());
    s.clipping = true;
    assert!(s.is_clipping() && !s.is_clipping());
}

#[test]
fn volume_and_balance_have_ends() {
    let mut s = PlayerState::new();
    for _ in 0..20 {
        s.volume_up();
        s.balance_right();
    }
    assert_eq!((s.volume, s.balance_value()), (150, 100));
    for _ in 0..50 {
        s.volume_down();
        s.balance_left();
    }
    assert_eq!((s.volume, s.balance_value()), (0, -100));
    s.volume = 3;
    s.volume_down();
    assert_eq!(s.volume_gain(), 0);
}

#[test]
fn toggles_and_cycles() {
    let mut s = PlayerState::new();
    s.toggle_pause();
    assert!(s.is_paused());
    s.toggle_pause();
    assert!(!s.is_paused());
    for mode in [
        VizMode::VuMeter,
        VizMode::SpectrumHorizontal,
        VizMode::SpectrumVertical,
        VizMode::Off,
    ] {
        s.cycle_viz_mode();
        assert!(s.viz_mode() == mode);
    }
    s.toggle_viz_style();
    assert!(s.viz_style() == VizStyle::Bars);
    s.cycle_eq();
    assert!(!s.take_eq_changed());
    s.eq_preset_count = 2;
    s.cycle_eq();
    assert_eq!(s.eq_index(), 1);
    assert!(s.take_eq_changed());
    s.cycle_eq();
    assert_eq!(s.eq_index(), 0);
}

#[test]
fn times_are_fractions() {
    let mut s = PlayerState::new();
    s.samples_played = 44100 * 90 + 1;
    s.total_samples = 96000;
    s.sample_rate = 48000;
    assert!(s.time_secs() == Seconds { num: 44100 * 90 + 1, den: 44100 });
    assert_eq!(s.time_secs().whole(), 90);
    assert_eq!(s.total_secs().whole(), 2);
    s.output_rate = 0;
    assert!(s.time_secs() == Seconds { num: 0, den: 1 });
}

#[test]
fn numbers_name_modes() {
    assert!(VizStyle::from_u8(1) == VizStyle::Dots && VizStyle::from_u8(9) == VizStyle::Bars);
    assert!(RgMode::from_u8(2) == RgMode::Off && RgMode::from_u8(9) == RgMode::Track);
    assert!(VizMode::from_u8(3) == VizMode::SpectrumVertical && VizMode::from_u8(9) == VizMode::Off);
    assert_eq!(RgMode::Album.name(), "Album");
    assert_eq!(RgMode::Off.to_u8(), 2);
}

#[test]
fn meters_keep_what_they_are_given() {
    let mut s = PlayerState::new();
    s.set_peaks(1, 2);
    assert_eq!(s.get_peaks(), (1, 2));
    s.set_vu_dots(3, 4);
    assert_eq!(s.get_vu_dots(), (3, 4));
    let bands = [7u32; SPECTRUM_BANDS];
    s.set_spectrum(&bands);
    s.set_spectrum_r(&bands);
    s.set_dots(&bands);
    assert_eq!(s.get_spectrum(), bands);
    assert_eq!(s.get_spectrum_r(), bands);
    assert_eq!(s.get_dots(), bands);
}

#[test]
fn transitions_are_counted() {
    let mut s = PlayerState::new();
    s.signal_next_track(5);
    assert_eq!((s.producer_track_index, s.track_transition_count), (5, 1));
    s.track_transition_count = usize::MAX;
    s.signal_next_track(6);
    assert_eq!(s.track_transition_count, 0);
}

#[test]
fn messages_live_two_seconds() {
    let mut ui = UiState::new(vec!["a".to_string()], true, false);
    assert!(ui.view_mode == ViewMode::Player && matches!(ui.input_mode, InputMode::Normal));
    assert!(ui.shuffle && !ui.repeat);
    assert_eq!(ui.take_status(0), None);
    ui.set_status("hello".to_string(), 1000);
    assert_eq!(ui.take_status(2999), Some("hello".to_string()));
    assert_eq!(ui.take_status(3000), None);
    assert_eq!(ui.take_status(1000), None);
}

#[test]
fn a_request_to_quit_stays() {
    let mut s = PlayerState::new();
    s.next();
    assert!(!s.should_quit());
    s.quit();
    s.toggle_pause();
    s.jump_to(3);
    assert!(s.take_skip_next() && !s.take_skip_next() && !s.take_skip_prev());
    s.set_peaks(1, 2);
    s.take_jump();
    assert!(s.should_quit());
}
