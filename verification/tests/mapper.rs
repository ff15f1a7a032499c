use w4on2_shared::{
    Arpeggio, Channel, MidiEventMapper, Pan, PitchEnv, PulseDuty, SongConfig, SongTrackConfig,
    TrackEvent, Vibrato, ADSR,
};

fn bright() -> SongTrackConfig {
    SongTrackConfig {
        nickname: "bright".to_owned(),
        channel: Channel::Pulse2(PulseDuty::D50),
        volume: 80,
        adsr: ADSR(1, 2, 3, 4),
        pitch_env: PitchEnv { note_offset: -1, duration: 7 },
        portamento: 6,
        arpeggio: Arpeggio { rate: 5 },
        vibrato: Vibrato { speed: 8, depth: 9 },
    }
}

#[test]
fn a_note_on_the_first_settings_is_bare() {
    let mut mapper = MidiEventMapper::new();
    mapper.set_tracks(&SongConfig::default().channels);
    let mut into = Vec::new();
    mapper.note_on(&mut into, 3, 60, 127);
    assert_eq!(into, vec![TrackEvent::NoteOn(60)]);
}

#[test]
fn a_note_brings_every_setting_that_differs() {
    let mut conf = SongConfig::default();
    conf.channels[2] = bright();
    let mut mapper = MidiEventMapper::default();
    mapper.set_tracks(&conf.channels);
    let mut into = Vec::new();
    mapper.note_on(&mut into, 2, 64, 90);
    assert_eq!(
        into,
        vec![
            TrackEvent::SetFlags(9),
            TrackEvent::SetVolume(80),
            TrackEvent::SetADSR(ADSR(1, 2, 3, 4)),
            TrackEvent::SetArpeggio(Arpeggio { rate: 5 }),
            TrackEvent::SetPortamento(6),
            TrackEvent::SetPitchEnv(PitchEnv { note_offset: -1, duration: 7 }),
            TrackEvent::SetVibrato(Vibrato { speed: 8, depth: 9 }),
            TrackEvent::SetVelocity(90),
            TrackEvent::NoteOn(64),
        ]
    );
    // the other channels are as they were
    let mut other = Vec::new();
    mapper.note_on(&mut other, 1, 64, 127);
    assert_eq!(other, vec![TrackEvent::NoteOn(64)]);
}

#[test]
fn a_note_brings_only_the_setting_that_differs() {
    let mut conf = SongConfig::default();
    conf.channels[0].portamento = 12;
    let mut mapper = MidiEventMapper::new();
    mapper.set_tracks(&conf.channels);
    let mut into = Vec::new();
    mapper.note_on(&mut into, 0, 1, 127);
    assert_eq!(into, vec![TrackEvent::SetPortamento(12), TrackEvent::NoteOn(1)]);
}

#[test]
fn a_second_note_with_the_same_settings_is_bare() {
    let mut conf = SongConfig::default();
    conf.channels[2] = bright();
    let mut mapper = MidiEventMapper::new();
    mapper.set_tracks(&conf.channels);
    let mut into = Vec::new();
    mapper.pan(2, 100);
    mapper.note_on(&mut into, 2, 64, 90);
    into.clear();
    mapper.note_on(&mut into, 2, 67, 90);
    assert_eq!(into, vec![TrackEvent::NoteOn(67)]);
    into.clear();
    mapper.note_on(&mut into, 2, 67, 91);
    assert_eq!(into, vec![TrackEvent::SetVelocity(91), TrackEvent::NoteOn(67)]);
}

#[test]
fn new_settings_come_with_the_next_note() {
    let mut mapper = MidiEventMapper::new();
    let mut conf = SongConfig::default();
    mapper.set_tracks(&conf.channels);
    let mut into = Vec::new();
    mapper.note_on(&mut into, 0, 60, 127);
    conf.channels[0].volume = 33;
    mapper.set_tracks(&conf.channels);
    into.clear();
    mapper.note_off(&mut into, 0, 60);
    assert_eq!(into, vec![TrackEvent::SetVolume(33), TrackEvent::NotesOff]);
    into.clear();
    mapper.note_on(&mut into, 0, 60, 127);
    assert_eq!(into, vec![TrackEvent::NoteOn(60)]);
}

#[test]
fn a_pan_has_three_zones_and_waits_for_a_note() {
    let cases = [
        (0u8, Some(Pan::Left)),
        (42, Some(Pan::Left)),
        (43, None),
        (64, None),
        (84, None),
        (85, Some(Pan::Right)),
        (127, Some(Pan::Right)),
    ];
    for (value, side) in cases {
        let mut mapper = MidiEventMapper::new();
        let mut into = Vec::new();
        mapper.pan(5, value);
        assert!(into.is_empty());
        mapper.note_on(&mut into, 5, 10, 127);
        match side {
            Some(side) => assert_eq!(into, vec![TrackEvent::SetPan(side), TrackEvent::NoteOn(10)]),
            None => assert_eq!(into, vec![TrackEvent::NoteOn(10)]),
        }
    }
}

#[test]
fn a_pan_back_to_the_middle_is_sent() {
    let mut mapper = MidiEventMapper::new();
    let mut into = Vec::new();
    mapper.pan(0, 0);
    mapper.note_on(&mut into, 0, 10, 127);
    mapper.pan(0, 64);
    into.clear();
    mapper.note_on(&mut into, 0, 10, 127);
    assert_eq!(into, vec![TrackEvent::SetPan(Pan::Stereo), TrackEvent::NoteOn(10)]);
}

#[test]
fn the_end_of_a_note_that_does_not_sound_is_dropped() {
    let mut mapper = MidiEventMapper::new();
    let mut into = Vec::new();
    mapper.note_on(&mut into, 0, 60, 127);
    mapper.note_on(&mut into, 0, 62, 127);
    into.clear();
    mapper.note_off(&mut into, 0, 60);
    assert_eq!(into, vec![]);
    mapper.note_off(&mut into, 0, 62);
    assert_eq!(into, vec![TrackEvent::NotesOff]);
    // another channel has its own note
    let mut other = Vec::new();
    mapper.note_off(&mut other, 1, 62);
    assert_eq!(other, vec![]);
}
