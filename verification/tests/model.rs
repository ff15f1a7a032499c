use w4on2_shared::{
    Arpeggio, Channel, DelayPingPong, Pan, PitchEnv, PulseDuty, SongConfig, SongTrackConfig,
    Vibrato, ADSR,
};

#[test]
fn the_duties_are_four() {
    assert_eq!(
        PulseDuty::types(),
        [PulseDuty::D12_5, PulseDuty::D25, PulseDuty::D50, PulseDuty::D75]
    );
    assert_eq!(PulseDuty::D12_5.code(), 0);
    assert_eq!(PulseDuty::D25.code(), 1);
    assert_eq!(PulseDuty::D50.code(), 2);
    assert_eq!(PulseDuty::D75.code(), 3);
}

#[test]
fn the_duties_have_names() {
    assert_eq!(PulseDuty::D12_5.to_string(), "12.5%");
    assert_eq!(PulseDuty::D25.to_string(), "25%");
    assert_eq!(PulseDuty::D50.to_string(), "50%");
    assert_eq!(PulseDuty::D75.to_string(), "75%");
}

#[test]
fn the_voices_are_four() {
    assert_eq!(
        Channel::types(),
        [
            Channel::Pulse1(PulseDuty::D12_5),
            Channel::Pulse2(PulseDuty::D12_5),
            Channel::Triangle,
            Channel::Noise
        ]
    );
    assert_eq!(Channel::Pulse1(PulseDuty::D75).to_string(), "PULSE_1");
    assert_eq!(Channel::Pulse2(PulseDuty::D12_5).to_string(), "PULSE_2");
    assert_eq!(Channel::Triangle.to_string(), "TRIANGLE");
    assert_eq!(Channel::Noise.to_string(), "NOISE");
}

#[test]
fn the_flags_are_the_voice_and_the_duty() {
    assert_eq!(Channel::Pulse1(PulseDuty::D12_5).to_wasm4_flags(), 0);
    assert_eq!(Channel::Pulse1(PulseDuty::D25).to_wasm4_flags(), 4);
    assert_eq!(Channel::Pulse1(PulseDuty::D50).to_wasm4_flags(), 8);
    assert_eq!(Channel::Pulse1(PulseDuty::D75).to_wasm4_flags(), 12);
    assert_eq!(Channel::Pulse2(PulseDuty::D12_5).to_wasm4_flags(), 1);
    assert_eq!(Channel::Pulse2(PulseDuty::D25).to_wasm4_flags(), 5);
    assert_eq!(Channel::Pulse2(PulseDuty::D50).to_wasm4_flags(), 9);
    assert_eq!(Channel::Pulse2(PulseDuty::D75).to_wasm4_flags(), 13);
    assert_eq!(Channel::Triangle.to_wasm4_flags(), 2);
    assert_eq!(Channel::Noise.to_wasm4_flags(), 3);
}

#[test]
fn the_sides_have_numbers() {
    assert_eq!(Pan::Stereo.code(), 0);
    assert_eq!(Pan::Left.code(), 1);
    assert_eq!(Pan::Right.code(), 2);
}

#[test]
fn an_instrument_starts_loud_and_plain() {
    let conf = SongTrackConfig::default();
    assert_eq!(conf.nickname, "");
    assert_eq!(conf.channel, Channel::Pulse1(PulseDuty::D12_5));
    assert_eq!(conf.volume, 100);
    assert_eq!(conf.adsr, ADSR(0, 0, 100, 0));
    assert_eq!(conf.pitch_env.note_offset, 0);
    assert_eq!(conf.pitch_env.duration, 0);
    assert_eq!(conf.portamento, 0);
    assert_eq!(conf.arpeggio.rate, 0);
    assert_eq!(conf.vibrato.speed, 0);
    assert_eq!(conf.vibrato.depth, 0);
    let song = SongConfig::default();
    assert_eq!(song.channels.len(), 16);
    for channel in &song.channels {
        assert_eq!(channel.instrument(), conf.instrument());
        assert_eq!(channel.nickname, "");
    }
}

#[test]
fn the_parts_of_an_instrument_start_at_0() {
    assert_eq!(PitchEnv::default(), PitchEnv { note_offset: 0, duration: 0 });
    assert_eq!(Arpeggio::default(), Arpeggio { rate: 0 });
    assert_eq!(Vibrato::default(), Vibrato { speed: 0, depth: 0 });
    assert_eq!(DelayPingPong::default(), DelayPingPong::No);
}
