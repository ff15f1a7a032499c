use w4on2_shared::wasm4_apu::{
    add_samples, add_wrap, decode_tone, mix_sample, noise_next, noise_sample, ramp, tick_samples,
    Envelope, ToneRequest, APU,
};

#[test]
fn a_tone_is_four_packed_numbers() {
    let request = decode_tone(
        440 | (880 << 16),
        (1 << 24) | (2 << 16) | (3 << 8) | 4,
        (80 << 8) | 50,
        2 | (1 << 2) | (2 << 4) | 0x40,
    );
    assert_eq!(
        request,
        ToneRequest {
            freq1: 440,
            freq2: 880,
            attack: 1,
            decay: 2,
            release: 3,
            sustain: 4,
            sustain_volume: 50,
            peak_volume: 80,
            channel: 2,
            mode: 1,
            pan: 2,
            note_mode: true,
        }
    );
}

#[test]
fn the_volumes_of_a_tone_stop_at_100() {
    let request = decode_tone(0, 0, (200 << 8) | 150, 0);
    assert_eq!(request.sustain_volume, 100);
    assert_eq!(request.peak_volume, 100);
    let request = decode_tone(0, 0, 0xffff_ffff, 0xffff_ffbf);
    assert_eq!(request.sustain_volume, 100);
    assert_eq!(request.peak_volume, 100);
    assert_eq!(request.channel, 3);
    assert_eq!(request.mode, 3);
    assert_eq!(request.pan, 3);
    assert!(!request.note_mode);
}

#[test]
fn a_ramp_is_a_line_between_two_values() {
    assert_eq!(ramp(0, 0, 100, 0, 10), 0);
    assert_eq!(ramp(5, 0, 100, 0, 10), 50);
    assert_eq!(ramp(9, 0, 100, 0, 10), 90);
    assert_eq!(ramp(10, 0, 100, 0, 10), 100);
    assert_eq!(ramp(99, 0, 100, 0, 10), 100);
    assert_eq!(ramp(3, 100, 0, 0, 10), 70);
    assert_eq!(ramp(25, 10, 20, 20, 30), 15);
}

#[test]
fn a_ramp_is_rounded_towards_0() {
    assert_eq!(ramp(1, 0, 10, 0, 3), 3);
    assert_eq!(ramp(2, 0, 10, 0, 3), 6);
    assert_eq!(ramp(1, 10, 0, 0, 3), 6);
    assert_eq!(ramp(1, -10, 0, 0, 3), -6);
    assert_eq!(ramp(1, 0, -10, 0, 3), -3);
    assert_eq!(ramp(1, -5, 5, 0, 4), -2);
}

#[test]
fn a_ramp_before_its_start_is_its_first_value() {
    assert_eq!(ramp(3, 7, 100, 5, 10), 7);
    assert_eq!(ramp(5, 7, 100, 5, 5), 100);
}

#[test]
fn ticks_last_a_sixtieth_of_a_second() {
    assert_eq!(tick_samples(44100, 1), 735);
    assert_eq!(tick_samples(44100, 60), 44100);
    assert_eq!(tick_samples(48000, 255), 204000);
    assert_eq!(tick_samples(100, 1), 1);
    assert_eq!(tick_samples(u32::MAX, 255), 18253611003);
}

#[test]
fn a_sum_of_times_wraps() {
    assert_eq!(add_wrap(1, 2), 3);
    assert_eq!(add_wrap(u64::MAX, 1), 0);
    assert_eq!(add_wrap(u64::MAX, u64::MAX), u64::MAX - 1);
}

#[test]
fn a_held_triangle_tone_sounds_for_its_ticks_and_then_no_more() {
    let mut apu = APU::new(44100);
    let start = apu.tone(262, 60, (100 << 8) | 100, 2);
    assert!(!start.reset_phase);
    assert_eq!(start.request.channel, 2);
    assert_eq!(start.request.sustain, 60);
    let mut sounding = 0;
    for _ in 0..60 {
        apu.tick();
        for _ in 0..735 {
            assert!(apu.is_active(2));
            assert_eq!(apu.current_volume(2), 0x2000);
            sounding += 1;
            apu.advance();
        }
    }
    assert_eq!(sounding, 44100);
    for _ in 0..10 {
        apu.tick();
        for _ in 0..735 {
            assert!(!apu.is_active(2));
            apu.advance();
        }
    }
    for channel in [0u8, 1, 3] {
        assert!(!apu.is_active(channel));
    }
}

#[test]
fn an_envelope_rises_falls_holds_and_fades() {
    let mut apu = APU::new(6000);
    // a tick is 100 samples; attack 1, decay 2, sustain 3, release 4
    apu.tone(440, (1 << 24) | (2 << 16) | (4 << 8) | 3, (100 << 8) | 50, 0);
    assert_eq!(
        apu.channels[0],
        Envelope {
            start_time: 0,
            attack_time: 100,
            decay_time: 300,
            sustain_time: 600,
            release_time: 1000,
            end_tick: 10,
            sustain_volume: 0x999,
            peak_volume: 0x1333,
            pan: 0,
        }
    );
    let envelope = apu.channels[0];
    assert_eq!(envelope.volume_at(0, 6000), 0);
    assert_eq!(envelope.volume_at(50, 6000), 0x1333 / 2);
    assert_eq!(envelope.volume_at(100, 6000), 0x1333);
    assert_eq!(envelope.volume_at(200, 6000), (0x1333 + 0x999) / 2);
    assert_eq!(envelope.volume_at(300, 6000), 0x999);
    assert_eq!(envelope.volume_at(599, 6000), 0x999);
    assert_eq!(envelope.volume_at(600, 6000), 0x999);
    assert_eq!(envelope.volume_at(800, 6000), 0x999 / 2);
    assert_eq!(envelope.volume_at(1000, 6000), 0);
    assert!(envelope.is_active(999, 0));
    assert!(!envelope.is_active(1000, 0));
    assert!(envelope.is_active(1000, 10));
}

#[test]
fn a_peak_of_0_is_the_loudest() {
    let mut apu = APU::new(44100);
    apu.tone(440, 10, 30, 1);
    assert_eq!(apu.channels[1].peak_volume, 0x1333);
    assert_eq!(apu.channels[1].sustain_volume, (0x1333 * 30 / 100) as i16);
    apu.tone(440, 10, 30, 2);
    assert_eq!(apu.channels[2].peak_volume, 0x2000);
}

#[test]
fn a_release_of_a_thousandth_of_a_second_holds_the_volume() {
    let mut apu = APU::new(44100);
    // without release the volume is held to the end
    apu.tone(440, 60, 100, 0);
    assert_eq!(apu.channels[0].volume_at(44099, 44100), 0x1333);
    assert_eq!(apu.channels[0].volume_at(44100, 44100), 0x1333);
    // the release that noise gets is no longer than a thousandth of a second
    apu.tone(440, 60, 100, 3);
    assert_eq!(apu.channels[3].volume_at(44100, 44100), 0x1333);
    assert_eq!(apu.channels[3].volume_at(44143, 44100), 0x1333);
    // a release of one tick is 735 samples and fades
    apu.tone(440, (1 << 8) | 60, 100, 0);
    assert_eq!(apu.channels[0].volume_at(44100, 44100), 0x1333);
    assert_eq!(apu.channels[0].volume_at(44100 + 147, 44100), 0x1333 * 4 / 5);
    assert_eq!(apu.channels[0].volume_at(44100 + 735, 44100), 0);
}

#[test]
fn noise_without_release_gets_a_thousandth_of_a_second() {
    let mut apu = APU::new(44100);
    apu.tone(440, 60, 100, 3);
    assert_eq!(apu.channels[3].sustain_time, 44100);
    assert_eq!(apu.channels[3].release_time, 44144);
    apu.tone(440, (1 << 8) | 60, 100, 3);
    assert_eq!(apu.channels[3].release_time, 44100 + 735);
    apu.tone(440, 60, 100, 2);
    assert_eq!(apu.channels[2].release_time, 44100);
    apu.tone(440, 60, 100, 0);
    assert_eq!(apu.channels[0].release_time, 44100);
}

#[test]
fn a_tone_after_the_end_of_another_starts_the_wave_over() {
    let mut apu = APU::new(6000);
    assert!(!apu.tone(440, 1, 100, 0).reset_phase);
    // the tone ends at sample 100 and tick 1
    for _ in 0..100 {
        apu.advance();
    }
    assert!(!apu.tone(440, 1, 100, 0).reset_phase);
    for _ in 0..101 {
        apu.advance();
    }
    // sample 201 is after the release at 200, but the tick is the last
    // of the tone
    apu.tick();
    assert!(!apu.tone(440, 1, 100, 0).reset_phase);
    for _ in 0..101 {
        apu.advance();
    }
    assert!(apu.tone(440, 1, 100, 0).reset_phase);
    // a voice that has never sounded ended at sample 0 and tick 0
    assert!(apu.tone(440, 1, 100, 1).reset_phase);
}

#[test]
fn a_tone_leaves_the_other_voices_alone() {
    let mut apu = APU::new(44100);
    apu.tone(440, 60, 100, 0);
    let first = apu.channels[0];
    apu.tick();
    apu.advance();
    apu.tone(220, 30, 50, 1);
    assert_eq!(apu.channels[0], first);
    assert_eq!(apu.channels[1].start_time, 1);
    assert_eq!(apu.channels[1].end_tick, 31);
    assert_eq!(apu.time, 1);
    assert_eq!(apu.ticks, 1);
    assert_eq!(apu.sample_rate, 44100);
}

#[test]
fn the_noise_generator_shifts_and_mixes_its_bits() {
    assert_eq!(noise_next(1), 0x2201);
    assert_eq!(noise_next(0x8000), 0x8100);
    assert_eq!(noise_next(0), 0);
    assert_eq!(noise_sample(0x2201), 1);
    assert_eq!(noise_sample(0x8100), -1);
    let mut apu = APU::new(44100);
    assert_eq!(apu.seed, 1);
    assert_eq!(apu.noise_step(), 1);
    assert_eq!(apu.seed, 0x2201);
}

#[test]
fn a_sample_goes_to_the_sides_that_its_pan_allows() {
    assert_eq!(mix_sample((10, 20), 100, 0), (110, 120));
    assert_eq!(mix_sample((10, 20), 100, 1), (110, 20));
    assert_eq!(mix_sample((10, 20), 100, 2), (10, 120));
    assert_eq!(mix_sample((10, 20), 100, 3), (110, 120));
    assert_eq!(mix_sample((10, 20), -100, 0), (-90, -80));
}

#[test]
fn a_sum_of_samples_wraps() {
    assert_eq!(add_samples(32767, 1), -32768);
    assert_eq!(add_samples(-32768, -1), 32767);
    assert_eq!(add_samples(32767, 32767), -2);
    assert_eq!(add_samples(-32768, -32768), 0);
    assert_eq!(add_samples(100, -30), 70);
}
