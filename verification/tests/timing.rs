use w4on2_shared::optimal_bpm;
use w4on2_shared::timing::{Bpm, MidiTiming, TickRatio, TimingError};

fn bpm(tempo: Bpm) -> f64 {
    tempo.num as f64 / tempo.den as f64
}

#[test]
fn the_wait_for_120_beats_in_four_four_is_8() {
    // 120 beats a minute are 500000 microseconds for a quarter note
    let (rounded, tick_wait) = optimal_bpm(500_000, 4, 4);
    assert_eq!(tick_wait, 8);
    assert_eq!(rounded, Bpm { num: 3600, den: 32 });
    assert_eq!(bpm(rounded), 3600.0 / (tick_wait as f64 * 4.0));
    assert_eq!(bpm(rounded), 112.5);
    for other in 1..200 {
        let there = 3600.0 / (other as f64 * 4.0);
        assert!((120.0 - bpm(rounded)).abs() <= (120.0f64 - there).abs());
    }
}

#[test]
fn the_wait_is_the_closest_in_beats_a_minute() {
    // 3600 / (bpm * 1) is 1.45: a wait of 1 gives 3600 beats, a wait of 2
    // gives 1800, and the tempo of 2482.7 is closer to 1800
    assert_eq!(optimal_bpm(24_167, 1, 4), (Bpm { num: 3600, den: 2 }, 2));
    // an exact wait is kept
    assert_eq!(optimal_bpm(1_000_000, 6, 8), (Bpm { num: 3600, den: 60 }, 10));
    // a tempo too fast for one tick a beat gets one tick
    assert_eq!(optimal_bpm(1000, 4, 4), (Bpm { num: 3600, den: 4 }, 1));
}

#[test]
fn of_two_waits_as_close_the_smaller_is_taken() {
    // 100 beats of 27 to the bar: a wait of 1 gives 133.3, a wait of 2 gives 66.7
    assert_eq!(optimal_bpm(600_000, 27, 4), (Bpm { num: 3600, den: 27 }, 1));
}

#[test]
fn without_tempo_or_time_signature_the_wait_is_1() {
    assert_eq!(optimal_bpm(0, 4, 4), (Bpm { num: 60_000_000, den: 0 }, 1));
    assert_eq!(optimal_bpm(500_000, 0, 4), (Bpm { num: 60_000_000, den: 500_000 }, 1));
    assert_eq!(optimal_bpm(500_000, 4, 0), (Bpm { num: 60_000_000, den: 500_000 }, 1));
    assert_eq!(optimal_bpm(500_000, -3, 4), (Bpm { num: 60_000_000, den: 500_000 }, 1));
}

#[test]
fn ticks_are_not_known_before_tempo_and_time_signature() {
    let mut timing = MidiTiming::new(true);
    assert_eq!(timing.get_w4_ticks(0), Ok(0));
    assert_eq!(timing.get_w4_ticks(5), Err(TimingError::Indeterminate));
    assert_eq!(timing.set_tempo(500_000), Ok(()));
    assert_eq!(timing.result, None);
    assert_eq!(timing.get_w4_ticks(5), Err(TimingError::Indeterminate));
    assert_eq!(timing.set_timesig((4, 2, 24, 8)), Ok(()));
    assert_eq!(timing.result, Some(TickRatio { num: 8, den: 24 }));
    assert_eq!(timing.get_w4_ticks(0), Ok(0));
    assert_eq!(timing.get_w4_ticks(96), Ok(32));
}

#[test]
fn the_time_signature_may_come_first() {
    let mut timing = MidiTiming::new(true);
    assert_eq!(timing.set_timesig((4, 2, 24, 8)), Ok(()));
    assert_eq!(timing.result, None);
    assert_eq!(timing.set_tempo(500_000), Ok(()));
    assert_eq!(timing.result, Some(TickRatio { num: 8, den: 24 }));
}

#[test]
fn ticks_are_rounded_and_the_error_is_summed() {
    let mut timing = MidiTiming::new(true);
    timing.set_tempo(500_000).unwrap();
    timing.set_timesig((4, 2, 24, 8)).unwrap();
    // one tick of the file is a third of a tick of the chip
    assert_eq!(timing.get_w4_ticks(1), Ok(0));
    assert_eq!(timing.accumulated_inaccuracy, 8);
    assert_eq!(timing.get_w4_ticks(2), Ok(1));
    assert_eq!(timing.accumulated_inaccuracy, 16);
    assert_eq!(timing.get_w4_ticks(3), Ok(1));
    assert_eq!(timing.accumulated_inaccuracy, 16);
    assert_eq!(timing.get_w4_ticks(100), Ok(33));
    assert_eq!(timing.accumulated_inaccuracy, 24);
    // in ticks of the chip the error is the sum over the denominator
    assert_eq!(timing.accumulated_inaccuracy as f64 / 24.0, 1.0);
}

#[test]
fn a_half_is_rounded_up() {
    let mut timing = MidiTiming::new(true);
    timing.set_tempo(500_000).unwrap();
    timing.set_timesig((4, 2, 16, 8)).unwrap();
    assert_eq!(timing.result, Some(TickRatio { num: 8, den: 16 }));
    assert_eq!(timing.get_w4_ticks(1), Ok(1));
    assert_eq!(timing.get_w4_ticks(2), Ok(1));
    assert_eq!(timing.get_w4_ticks(3), Ok(2));
    assert_eq!(timing.accumulated_inaccuracy, 16);
}

#[test]
fn without_stretch_the_tempo_is_kept() {
    let mut timing = MidiTiming::new(false);
    timing.set_tempo(500_000).unwrap();
    timing.set_timesig((4, 2, 24, 8)).unwrap();
    // a beat lasts 7.5 ticks of the chip and 24 ticks of the file
    assert_eq!(timing.result, Some(TickRatio { num: 1_500_000, den: 4_800_000 }));
    assert_eq!(timing.get_w4_ticks(96), Ok(30));
    assert_eq!(timing.accumulated_inaccuracy, 0);
    assert_eq!(timing.get_w4_ticks(100), Ok(31));
    assert_eq!(timing.accumulated_inaccuracy, 1_200_000);
}

#[test]
fn a_beat_without_ticks_gives_no_ratio() {
    let mut timing = MidiTiming::new(true);
    timing.set_tempo(500_000).unwrap();
    timing.set_timesig((4, 2, 0, 8)).unwrap();
    assert_eq!(timing.result, None);
    assert_eq!(timing.get_w4_ticks(0), Ok(0));
    assert_eq!(timing.get_w4_ticks(7), Err(TimingError::Indeterminate));
    let mut timing = MidiTiming::new(false);
    timing.set_tempo(500_000).unwrap();
    timing.set_timesig((0, 2, 24, 8)).unwrap();
    assert_eq!(timing.result, None);
}

#[test]
fn a_second_tempo_must_be_the_first() {
    let mut timing = MidiTiming::new(true);
    assert_eq!(timing.set_tempo(500_000), Ok(()));
    assert_eq!(timing.set_tempo(500_000), Ok(()));
    assert_eq!(timing.set_tempo(400_000), Err(TimingError::TempoChange));
    assert_eq!(timing.tempo, Some(500_000));
}

#[test]
fn a_second_time_signature_must_be_the_first() {
    let mut timing = MidiTiming::new(true);
    assert_eq!(timing.set_timesig((4, 2, 24, 8)), Ok(()));
    assert_eq!(timing.set_timesig((4, 2, 24, 8)), Ok(()));
    assert_eq!(timing.set_timesig((3, 2, 24, 8)), Err(TimingError::TimeSignatureChange));
    assert_eq!(timing.set_timesig((4, 2, 24, 9)), Err(TimingError::TimeSignatureChange));
    assert_eq!(timing.timesig, Some((4, 2, 24, 8)));
}

#[test]
fn ticks_stop_at_the_greatest_number() {
    let mut timing = MidiTiming::new(false);
    timing.set_tempo(0xff_ffff).unwrap();
    timing.set_timesig((1, 2, 1, 8)).unwrap();
    // about a thousand ticks of the chip for each tick of the file
    assert_eq!(timing.get_w4_ticks(usize::MAX), Ok(usize::MAX));
    assert_eq!(timing.get_w4_ticks(1), Ok(1007));
}
