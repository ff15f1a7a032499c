use w4on2_shared::convert::{
    collapse_tracks, convert, convert_events, midi_to_track_events, ConvertError,
};
use w4on2_shared::crunch::uncrunch;
use w4on2_shared::format::FormatError;
use w4on2_shared::midi::{read_midi, MidiEvent, MidiEventKind};
use w4on2_shared::{Pan, SongConfig, TrackEvent};

const TIME_SIGNATURE: [u8; 8] = [0x00, 0xff, 0x58, 0x04, 0x04, 0x02, 0x18, 0x08];
const TEMPO: [u8; 7] = [0x00, 0xff, 0x51, 0x03, 0x07, 0xa1, 0x20];
const END_OF_TRACK: [u8; 4] = [0x00, 0xff, 0x2f, 0x00];

/// A note file of one track with the given events, at 96 ticks for a
/// quarter note.
fn midi_file(tracks: &[Vec<u8>]) -> Vec<u8> {
    let mut file = b"MThd".to_vec();
    file.extend([0, 0, 0, 6, 0, 1, 0, tracks.len() as u8, 0, 96]);
    for track in tracks {
        file.extend(b"MTrk");
        file.extend((track.len() as u32).to_be_bytes());
        file.extend(track);
    }
    file
}

fn one_note() -> Vec<u8> {
    let mut track = Vec::new();
    track.extend(TIME_SIGNATURE);
    track.extend(TEMPO);
    track.extend([0x00, 0xff, 0x03, 0x04, b'L', b'e', b'a', b'd']);
    track.extend([0x00, 0x90, 0x3c, 0x64]);
    track.extend([0x60, 0x80, 0x3c, 0x40]);
    track.extend(END_OF_TRACK);
    midi_file(&[track])
}

fn event(delta: u32, kind: MidiEventKind) -> MidiEvent {
    MidiEvent { delta, kind }
}

#[test]
fn a_note_file_is_read_event_by_event() {
    let mut track = Vec::new();
    track.extend(TIME_SIGNATURE);
    track.extend(TEMPO);
    track.extend([0x00, 0xff, 0x03, 0x04, b'L', b'e', b'a', b'd']);
    track.extend([0x05, 0x93, 0x3c, 0x64]);
    track.extend([0x81, 0x00, 0xb3, 0x0a, 0x7f]);
    track.extend([0x60, 0x83, 0x3c, 0x40]);
    track.extend([0x00, 0xc3, 0x05]);
    track.extend([0x00, 0xff, 0x01, 0x02, b'h', b'i']);
    track.extend(END_OF_TRACK);
    let second = END_OF_TRACK.to_vec();
    let tracks = read_midi(&midi_file(&[track, second])).unwrap();
    assert_eq!(
        tracks,
        vec![
            vec![
                event(0, MidiEventKind::TimeSignature(4, 2, 24, 8)),
                event(0, MidiEventKind::Tempo(500_000)),
                event(0, MidiEventKind::TrackName(b"Lead".to_vec())),
                event(5, MidiEventKind::NoteOn { channel: 3, key: 60, vel: 100 }),
                event(128, MidiEventKind::Controller { channel: 3, controller: 10, value: 127 }),
                event(96, MidiEventKind::NoteOff { channel: 3, key: 60 }),
                event(0, MidiEventKind::OtherMidi { channel: 3 }),
                event(0, MidiEventKind::Unhandled),
                event(0, MidiEventKind::EndOfTrack),
            ],
            vec![event(0, MidiEventKind::EndOfTrack)],
        ]
    );
}

#[test]
fn what_is_no_note_file_is_not_read() {
    assert_eq!(read_midi(b"no notes here"), None);
    assert_eq!(read_midi(b""), None);
    let conf = SongConfig::default();
    assert_eq!(convert(&conf, b"no notes here", true, true), Err(ConvertError::Malformed));
}

#[test]
fn one_note_compiles_to_a_song_of_one_pattern() {
    let conf = SongConfig::default();
    let want = vec![
        0x00, 0x0d, // the length
        0x01, 0x01, // one pattern, one track
        0x00, 0x08, // where the pattern is
        0x00, 0x0c, // where the track is
        0x05, 0x64, // velocity 100
        0xbc, // note 60
        0x6f, // 32 ticks, then the end of the note
        0x00, // the track is pattern 0
    ];
    assert_eq!(convert(&conf, &one_note(), true, false), Ok(want.clone()));
    assert_eq!(convert(&conf, &one_note(), true, true), Ok(want));
}

#[test]
fn without_stretch_a_beat_keeps_its_length() {
    let conf = SongConfig::default();
    let song = convert(&conf, &one_note(), false, false).unwrap();
    // 96 ticks of the file are 4 beats of 7.5 ticks of the chip
    assert_eq!(song[8..12], [0x05, 0x64, 0xbc, 0x50 + 29]);
}

fn notes(events: &[(u32, u8, u8, bool)]) -> Vec<MidiEvent> {
    let mut track = vec![
        event(0, MidiEventKind::Tempo(500_000)),
        event(0, MidiEventKind::TimeSignature(4, 2, 24, 8)),
    ];
    for (delta, channel, key, on) in events {
        track.push(event(
            *delta,
            if *on {
                MidiEventKind::NoteOn { channel: *channel, key: *key, vel: 127 }
            } else {
                MidiEventKind::NoteOff { channel: *channel, key: *key }
            },
        ));
    }
    track
}

#[test]
fn every_channel_with_an_event_gets_a_track() {
    let conf = SongConfig::default();
    let midi = vec![notes(&[
        (0, 5, 60, true),
        (3, 2, 40, true),
        (3, 5, 60, false),
        (0, 5, 62, true),
        (30, 2, 40, false),
    ])];
    let tracks = midi_to_track_events(&conf, &midi, true).unwrap();
    assert_eq!(
        tracks,
        vec![
            // channel 2: a note at tick 1, its end at tick 12
            vec![
                TrackEvent::Delta(1),
                TrackEvent::NoteOn(40),
                TrackEvent::Delta(11),
                TrackEvent::NotesOff,
            ],
            // channel 5: a note at tick 0, its end and the next at tick 2
            vec![
                TrackEvent::NoteOn(60),
                TrackEvent::Delta(2),
                TrackEvent::NotesOff,
                TrackEvent::NoteOn(62),
            ],
        ]
    );
}

#[test]
fn the_ticks_of_every_track_start_at_0() {
    let conf = SongConfig::default();
    let midi = vec![
        notes(&[(30, 0, 60, true)]),
        vec![
            event(60, MidiEventKind::NoteOff { channel: 0, key: 60 }),
            event(0, MidiEventKind::NoteOn { channel: 1, key: 1, vel: 127 }),
        ],
    ];
    let tracks = midi_to_track_events(&conf, &midi, true).unwrap();
    assert_eq!(
        tracks,
        vec![
            vec![
                TrackEvent::Delta(10),
                TrackEvent::NoteOn(60),
                TrackEvent::Delta(10),
                TrackEvent::NotesOff
            ],
            vec![TrackEvent::Delta(20), TrackEvent::NoteOn(1)],
        ]
    );
}

#[test]
fn an_event_that_is_not_later_gets_no_wait() {
    let conf = SongConfig::default();
    // the second track goes back to tick 0, behind the last event of the channel
    let midi = vec![
        notes(&[(30, 0, 60, true)]),
        vec![event(3, MidiEventKind::NoteOn { channel: 0, key: 61, vel: 127 })],
    ];
    let tracks = midi_to_track_events(&conf, &midi, true).unwrap();
    assert_eq!(
        tracks,
        vec![vec![TrackEvent::Delta(10), TrackEvent::NoteOn(60), TrackEvent::NoteOn(61)]]
    );
}

#[test]
fn a_pan_comes_with_the_next_note() {
    let conf = SongConfig::default();
    let mut track = notes(&[]);
    track.push(event(0, MidiEventKind::Controller { channel: 0, controller: 10, value: 0 }));
    track.push(event(0, MidiEventKind::Controller { channel: 0, controller: 7, value: 99 }));
    track.push(event(0, MidiEventKind::Controller { channel: 1, controller: 10, value: 127 }));
    track.push(event(0, MidiEventKind::OtherMidi { channel: 0 }));
    track.push(event(0, MidiEventKind::Unhandled));
    track.push(event(0, MidiEventKind::NoteOn { channel: 0, key: 9, vel: 127 }));
    track.push(event(0, MidiEventKind::EndOfTrack));
    let tracks = midi_to_track_events(&conf, &vec![track], true).unwrap();
    assert_eq!(tracks, vec![vec![TrackEvent::SetPan(Pan::Left), TrackEvent::NoteOn(9)]]);
}

#[test]
fn the_instruments_of_the_song_are_asked_for() {
    let mut conf = SongConfig::default();
    conf.channels[1].volume = 50;
    let midi = vec![notes(&[(0, 1, 60, true), (0, 1, 61, true)])];
    let tracks = midi_to_track_events(&conf, &midi, true).unwrap();
    assert_eq!(
        tracks,
        vec![vec![TrackEvent::SetVolume(50), TrackEvent::NoteOn(60), TrackEvent::NoteOn(61)]]
    );
}

#[test]
fn a_change_of_tempo_is_refused() {
    let conf = SongConfig::default();
    let mut track = notes(&[]);
    track.push(event(0, MidiEventKind::Tempo(500_000)));
    assert_eq!(midi_to_track_events(&conf, &vec![track.clone()], true), Ok(vec![]));
    track.push(event(0, MidiEventKind::Tempo(500_001)));
    assert_eq!(
        midi_to_track_events(&conf, &vec![track], true),
        Err(ConvertError::TempoChange)
    );
}

#[test]
fn a_change_of_time_signature_is_refused() {
    let conf = SongConfig::default();
    let mut track = notes(&[]);
    track.push(event(0, MidiEventKind::TimeSignature(4, 2, 24, 8)));
    assert_eq!(midi_to_track_events(&conf, &vec![track.clone()], true), Ok(vec![]));
    let other = vec![event(0, MidiEventKind::TimeSignature(3, 2, 24, 8))];
    assert_eq!(
        midi_to_track_events(&conf, &vec![track, other], true),
        Err(ConvertError::TimeSignatureChange)
    );
}

#[test]
fn a_second_name_in_one_track_is_refused() {
    let conf = SongConfig::default();
    let named = vec![event(0, MidiEventKind::TrackName(b"one".to_vec()))];
    assert_eq!(
        midi_to_track_events(&conf, &vec![named.clone(), named.clone()], true),
        Ok(vec![])
    );
    let twice = vec![
        event(0, MidiEventKind::TrackName(b"one".to_vec())),
        event(0, MidiEventKind::TrackName(b"one".to_vec())),
    ];
    assert_eq!(
        midi_to_track_events(&conf, &vec![twice], true),
        Err(ConvertError::DuplicateTrackName)
    );
}

#[test]
fn a_name_that_is_no_text_is_refused() {
    let conf = SongConfig::default();
    let named = vec![event(0, MidiEventKind::TrackName(vec![0xc3, 0xa9]))];
    assert_eq!(midi_to_track_events(&conf, &vec![named], true), Ok(vec![]));
    let named = vec![event(0, MidiEventKind::TrackName(vec![0xc3, 0x28]))];
    assert_eq!(
        midi_to_track_events(&conf, &vec![named], true),
        Err(ConvertError::InvalidTrackName)
    );
    let mut track = Vec::new();
    track.extend([0x00, 0xff, 0x03, 0x02, 0xc3, 0x28]);
    track.extend(END_OF_TRACK);
    assert_eq!(
        convert(&conf, &midi_file(&[track]), true, true),
        Err(ConvertError::InvalidTrackName)
    );
}

#[test]
fn a_note_before_the_tempo_must_stand_at_tick_0() {
    let conf = SongConfig::default();
    let early = vec![event(0, MidiEventKind::NoteOn { channel: 0, key: 1, vel: 127 })];
    assert_eq!(
        midi_to_track_events(&conf, &vec![early], true),
        Ok(vec![vec![TrackEvent::NoteOn(1)]])
    );
    let late = vec![event(1, MidiEventKind::NoteOn { channel: 0, key: 1, vel: 127 })];
    assert_eq!(
        midi_to_track_events(&conf, &vec![late], true),
        Err(ConvertError::TimingIndeterminate)
    );
    // the end of a note that does not sound asks for no tick
    let stale = vec![event(1, MidiEventKind::NoteOff { channel: 0, key: 1 })];
    assert_eq!(midi_to_track_events(&conf, &vec![stale], true), Ok(vec![]));
}

#[test]
fn a_wait_and_the_end_of_the_notes_become_one_event() {
    let tracks = vec![
        vec![
            TrackEvent::Delta(3),
            TrackEvent::NotesOff,
            TrackEvent::NotesOff,
            TrackEvent::NoteOn(1),
            TrackEvent::NotesOff,
            TrackEvent::Delta(4),
            TrackEvent::Delta(5),
            TrackEvent::NotesOff,
        ],
        vec![],
        vec![TrackEvent::NotesOff],
        vec![TrackEvent::DeltaNotesOff(1), TrackEvent::NotesOff, TrackEvent::Delta(9)],
    ];
    assert_eq!(
        collapse_tracks(tracks),
        vec![
            vec![
                TrackEvent::DeltaNotesOff(3),
                TrackEvent::NotesOff,
                TrackEvent::NoteOn(1),
                TrackEvent::NotesOff,
                TrackEvent::Delta(4),
                TrackEvent::DeltaNotesOff(5),
            ],
            vec![TrackEvent::NotesOff],
            vec![TrackEvent::DeltaNotesOff(1), TrackEvent::NotesOff, TrackEvent::Delta(9)],
        ]
    );
}

#[test]
fn a_wait_of_more_than_65535_ticks_is_refused() {
    let conf = SongConfig::default();
    // 196608 ticks of the file are 65536 ticks of the chip
    let midi = vec![notes(&[(196_608, 0, 60, true)])];
    assert_eq!(
        convert_events(&conf, &midi, true, false),
        Err(ConvertError::Format(FormatError::IllegalEvent))
    );
    let midi = vec![notes(&[(196_605, 0, 60, true)])];
    assert_eq!(
        convert_events(&conf, &midi, true, false),
        Ok(vec![0x00, 0x0d, 0x01, 0x01, 0x00, 0x08, 0x00, 0x0c, 0x00, 0xff, 0xce, 0x80 + 60, 0x00])
    );
}

#[test]
fn a_note_without_a_code_is_refused() {
    let conf = SongConfig::default();
    let midi = vec![notes(&[(0, 0, 128, true)])];
    assert_eq!(
        convert_events(&conf, &midi, true, true),
        Err(ConvertError::Format(FormatError::IllegalEvent))
    );
}

fn read16(bytes: &[u8], at: usize) -> usize {
    bytes[at] as usize * 256 + bytes[at + 1] as usize
}

/// The bytes of the patterns and the tracks of a song, read by its head.
fn take_apart(song: &[u8]) -> (Vec<Vec<u8>>, Vec<Vec<usize>>) {
    assert_eq!(read16(song, 0), song.len());
    let patterns = song[2] as usize;
    let tracks = song[3] as usize;
    let mut starts = Vec::new();
    for i in 0..patterns + tracks {
        let at = read16(song, 4 + 2 * i);
        assert!(4 + 2 * (patterns + tracks) <= at && at <= song.len());
        starts.push(at);
    }
    starts.push(song.len());
    let mut parts = Vec::new();
    for i in 0..patterns + tracks {
        assert!(starts[i] <= starts[i + 1]);
        parts.push(song[starts[i]..starts[i + 1]].to_vec());
    }
    let lists = parts[patterns..]
        .iter()
        .map(|track| track.iter().map(|index| *index as usize).collect())
        .collect();
    (parts[..patterns].to_vec(), lists)
}

#[test]
fn a_crunched_song_plays_the_same_bytes() {
    let conf = SongConfig::default();
    let mut events = Vec::new();
    for _ in 0..6 {
        events.push((3, 0, 60, true));
        events.push((3, 0, 60, false));
        events.push((3, 0, 64, true));
        events.push((3, 0, 64, false));
        events.push((3, 1, 30, true));
        events.push((6, 1, 30, false));
    }
    let midi = vec![notes(&events)];
    let plain = convert_events(&conf, &midi, true, false).unwrap();
    let crunched = convert_events(&conf, &midi, true, true).unwrap();
    assert!(crunched.len() < plain.len());
    let (plain_patterns, plain_tracks) = take_apart(&plain);
    assert_eq!(plain_tracks, vec![vec![0], vec![1]]);
    let (patterns, tracks) = take_apart(&crunched);
    assert!(patterns.len() > 2);
    assert_eq!(uncrunch(&patterns, &tracks), plain_patterns);
    // compiling again gives the same song
    assert_eq!(convert_events(&conf, &midi, true, true), Ok(crunched));
}
