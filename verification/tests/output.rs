use keet::audio::{
    core_audio_error, exclusive_refused, fill_output, find_device_by_name,
    fix_bluetooth_sample_rate, is_bluetooth_transport, list_output_devices, max_supported_rate,
    pairs_of, plan_callback, plan_output_rate, release_exclusive_mode, render, set_exclusive_mode,
    set_output_sample_rate, tap, Callback, Platform, RateChange,
};
use keet::ring::{drain, free_places, new_ring, read_samples, waiting, write_samples};
use keet::state::PlayerState;

#[test]
fn rings_carry_samples_in_order() {
    let (mut p, mut c) = new_ring(4);
    assert_eq!((free_places(&p), waiting(&c)), (4, 0));
    assert!(write_samples(&mut p, &vec![1, 2, 3]));
    assert!(!write_samples(&mut p, &vec![4, 5]));
    assert_eq!((free_places(&p), waiting(&c)), (1, 3));
    assert_eq!(read_samples(&mut c, 2), Some((vec![1, 2], vec![])));
    assert!(write_samples(&mut p, &vec![4, 5, 6]));
    assert_eq!(read_samples(&mut c, 5), None);
    assert_eq!(read_samples(&mut c, 3), Some((vec![3, 4], vec![5])));
    drain(&mut c);
    assert_eq!(waiting(&c), 0);
    assert_eq!(read_samples(&mut c, 0), Some((vec![], vec![])));
    assert!(write_samples(&mut p, &vec![]));
}

#[test]
fn wireless_outputs_go_back_to_their_rate() {
    assert_eq!(fix_bluetooth_sample_rate(Platform::MacOs, true), Some(48000));
    assert_eq!(fix_bluetooth_sample_rate(Platform::MacOs, false), None);
    assert_eq!(fix_bluetooth_sample_rate(Platform::Linux, true), None);
    assert!(is_bluetooth_transport(0x626C7565) && is_bluetooth_transport(0x626C6561));
    assert!(!is_bluetooth_transport(0));
}

#[test]
fn rates_are_switched_where_that_works() {
    let ranges = vec![(44100, 48000), (96000, 96000)];
    let plan = |d, p, bt| plan_output_rate(d, 44100, p, bt, &ranges);
    assert_eq!(plan(44100, Platform::MacOs, false), RateChange::Use(44100));
    assert_eq!(plan(96000, Platform::MacOs, false), RateChange::Switch(96000));
    assert_eq!(plan(88200, Platform::MacOs, false), RateChange::Use(44100));
    assert_eq!(plan(96000, Platform::MacOs, true), RateChange::Use(44100));
    assert_eq!(plan(96000, Platform::Windows, false), RateChange::Use(44100));
    assert_eq!(plan(96000, Platform::Linux, false), RateChange::Use(96000));
    assert_eq!(plan(96000, Platform::Other, false), RateChange::Use(44100));
    let switch = RateChange::Switch(96000);
    assert_eq!(set_output_sample_rate(96000, 44100, switch, Some(96000)), 96000);
    assert_eq!(set_output_sample_rate(96000, 44100, switch, Some(48000)), 44100);
    assert_eq!(set_output_sample_rate(96000, 44100, switch, None), 44100);
    assert_eq!(set_output_sample_rate(96000, 44100, RateChange::Use(7), None), 7);
}

#[test]
fn the_largest_rate() {
    assert_eq!(max_supported_rate(&vec![]), 48000);
    assert_eq!(max_supported_rate(&vec![44100, 192000, 96000]), 192000);
}

#[test]
fn devices_by_name() {
    let names = vec![None, Some("Built-in Output".to_string()), Some("USB Audio DAC".to_string())];
    assert_eq!(find_device_by_name(&names, "usb"), Some(2));
    assert_eq!(find_device_by_name(&names, ""), Some(1));
    assert_eq!(find_device_by_name(&names, "hdmi"), None);
    let lines = list_output_devices(&names, &Some("USB Audio DAC".to_string()));
    assert_eq!(
        lines,
        vec!["  1. Unknown", "  2. Built-in Output", "  3. USB Audio DAC (default)"]
    );
}

#[test]
fn exclusive_use() {
    assert_eq!(set_exclusive_mode(Platform::MacOs, None, Some(4)), Ok(4));
    assert_eq!(set_exclusive_mode(Platform::MacOs, Some(3), Some(4)), Ok(3));
    assert_eq!(
        set_exclusive_mode(Platform::MacOs, None, None),
        Err("Could not find CoreAudio device ID".to_string())
    );
    assert_eq!(
        set_exclusive_mode(Platform::Linux, Some(3), None),
        Err("Exclusive mode not supported on this platform".to_string())
    );
    assert_eq!(release_exclusive_mode(Platform::MacOs, Some(3)), Some(3));
    assert_eq!(release_exclusive_mode(Platform::Linux, Some(3)), None);
    let mut s = PlayerState::new();
    s.exclusive = true;
    assert_eq!(
        exclusive_refused(&mut s, Platform::MacOs, "no"),
        "Note: Hog mode unavailable (no). Per-track rate switching is still active."
    );
    assert!(s.exclusive);
    assert_eq!(exclusive_refused(&mut s, Platform::Linux, "no"), "Note: no");
    assert!(!s.exclusive);
    assert_eq!(core_audio_error(0x21686f67), "CoreAudio error '!hog' (560492391)");
    assert_eq!(core_audio_error(-1), "CoreAudio error '????' (-1)");
}

#[test]
fn what_a_callback_does() {
    let mut s = PlayerState::new();
    s.reset_consumer_counter = true;
    s.discard_samples = 9;
    assert_eq!(plan_callback(&mut s, 50, 2, 8), Callback::Drain);
    assert!(!s.reset_consumer_counter);
    assert_eq!((s.discard_samples, s.buffer_level), (0, 0));
    assert_eq!(plan_callback(&mut s, 50, 2, 8), Callback::Read(8));
    assert_eq!(s.buffer_level, 50);
    assert_eq!(plan_callback(&mut s, 3, 2, 8), Callback::Read(3));
    assert_eq!(plan_callback(&mut s, 50, 4, 8), Callback::Read(4));
    assert_eq!(plan_callback(&mut s, 0, 2, 8), Callback::Silence);
    assert_eq!(plan_callback(&mut s, 5, 0, 8), Callback::Silence);
    s.paused = true;
    assert_eq!(plan_callback(&mut s, 5, 2, 8), Callback::Silence);
}

#[test]
fn frames_are_placed_by_channel() {
    let pairs = pairs_of(&vec![1, 2, 3], &vec![4, 5]);
    assert_eq!(pairs, vec![(1, 2), (4, 5)]);
    let scale = |x: u32| x * 10;
    let mix = |a: u32, b: u32| a + b;
    assert_eq!(render(&pairs, 2, 6, &scale, &mix), vec![10, 20, 40, 50, 0, 0]);
    assert_eq!(render(&pairs, 1, 3, &scale, &mix), vec![30, 90, 0]);
    assert_eq!(render(&pairs, 3, 6, &scale, &mix), vec![10, 20, 0, 40, 50, 0]);
    let raw = |x: u32| x / 10;
    assert_eq!(tap(&vec![10, 20, 0, 40, 50, 0], 3, 2, true, &raw), vec![1, 2, 4, 5]);
    assert_eq!(tap(&vec![30, 90, 0], 1, 2, false, &raw), vec![30, 30, 90, 90]);
}

#[test]
fn the_callback_fills_the_output() {
    let mut s = PlayerState::new();
    let (mut p, mut c) = new_ring(16);
    let (mut vp, mut vc) = new_ring(16);
    assert!(write_samples(&mut p, &vec![1, 2, 3, 4]));
    let scale = |x: u32| x + 100;
    let mix = |a: u32, _b: u32| a;
    let raw = |x: u32| x - 100;
    let out = fill_output(&mut s, &mut c, &mut vp, 2, 6, scale, mix, raw);
    assert_eq!(out, vec![101, 102, 103, 104, 0, 0]);
    assert_eq!(s.samples_played, 2);
    assert_eq!(read_samples(&mut vc, 4), Some((vec![101, 102, 103, 104], vec![])));
    s.pre_fader = true;
    assert!(write_samples(&mut p, &vec![5, 6]));
    let out = fill_output(&mut s, &mut c, &mut vp, 2, 2, scale, mix, raw);
    assert_eq!(out, vec![105, 106]);
    assert_eq!(read_samples(&mut vc, 2), Some((vec![5, 6], vec![])));
    s.paused = true;
    assert!(write_samples(&mut p, &vec![7, 8]));
    assert_eq!(fill_output(&mut s, &mut c, &mut vp, 2, 2, scale, mix, raw), vec![0, 0]);
    assert_eq!(waiting(&c), 2);
    s.reset_consumer_counter = true;
    assert_eq!(fill_output(&mut s, &mut c, &mut vp, 2, 2, scale, mix, raw), vec![0, 0]);
    assert_eq!(waiting(&c), 0);
    assert_eq!(s.samples_played, 3);
}

#[test]
fn rings_are_walked_around() {
    let (mut p, mut c) = new_ring(6);
    assert!(write_samples(&mut p, &vec![1, 2, 3, 4]));
    assert_eq!(read_samples(&mut c, 4), Some((vec![1, 2, 3, 4], vec![])));
    assert!(write_samples(&mut p, &vec![5, 6, 7, 8]));
    assert_eq!(read_samples(&mut c, 4), Some((vec![5, 6], vec![7, 8])));
    assert!(write_samples(&mut p, &vec![9, 10, 11, 12]));
    let mut s = PlayerState::new();
    let (mut vp, _vc) = new_ring(6);
    let out = fill_output(&mut s, &mut c, &mut vp, 2, 4, |x: u32| x, |a: u32, _: u32| a, |x: u32| x);
    assert_eq!(out, vec![9, 10, 11, 12]);
    assert!(write_samples(&mut p, &vec![13, 14, 15, 16]));
    let out = fill_output(&mut s, &mut c, &mut vp, 2, 4, |x: u32| x, |a: u32, _: u32| a, |x: u32| x);
    assert_eq!(out, vec![13, 14, 15, 16]);
    assert_eq!(s.samples_played, 4);
}
