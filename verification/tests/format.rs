use w4on2_shared::format::FormatError;
use w4on2_shared::{Arpeggio, Pan, PitchEnv, TrackEvent, Vibrato, W4PlayerSong, ADSR};

fn bytes_of(event: TrackEvent) -> Vec<u8> {
    let mut into = Vec::new();
    event.serialize_into(&mut into);
    assert_eq!(into.len(), event.encoded_size());
    into
}

#[test]
fn short_waits_take_one_byte() {
    assert_eq!(bytes_of(TrackEvent::Delta(1)), vec![0x20]);
    assert_eq!(bytes_of(TrackEvent::Delta(2)), vec![0x21]);
    assert_eq!(bytes_of(TrackEvent::Delta(48)), vec![0x4f]);
    assert_eq!(bytes_of(TrackEvent::DeltaNotesOff(1)), vec![0x50]);
    assert_eq!(bytes_of(TrackEvent::DeltaNotesOff(48)), vec![0x7f]);
}

#[test]
fn long_waits_take_three_bytes() {
    assert_eq!(bytes_of(TrackEvent::Delta(49)), vec![0x00, 0x00, 0x00]);
    assert_eq!(bytes_of(TrackEvent::Delta(50)), vec![0x00, 0x00, 0x01]);
    assert_eq!(bytes_of(TrackEvent::Delta(65535)), vec![0x00, 0xff, 0xce]);
    assert_eq!(bytes_of(TrackEvent::DeltaNotesOff(49)), vec![0x01, 0x00, 0x00]);
    assert_eq!(bytes_of(TrackEvent::DeltaNotesOff(1000)), vec![0x01, 0x03, 0xb7]);
    assert_eq!(bytes_of(TrackEvent::DeltaNotesOff(65535)), vec![0x01, 0xff, 0xce]);
}

#[test]
fn notes_take_one_byte() {
    assert_eq!(bytes_of(TrackEvent::NoteOn(0)), vec![0x80]);
    assert_eq!(bytes_of(TrackEvent::NoteOn(60)), vec![0xbc]);
    assert_eq!(bytes_of(TrackEvent::NoteOn(127)), vec![0xff]);
    assert_eq!(bytes_of(TrackEvent::NotesOff), vec![0x02]);
}

#[test]
fn settings_take_their_code_and_their_values() {
    assert_eq!(bytes_of(TrackEvent::SetVolume(77)), vec![0x03, 77]);
    assert_eq!(bytes_of(TrackEvent::SetFlags(5)), vec![0x04, 5]);
    assert_eq!(bytes_of(TrackEvent::SetVelocity(100)), vec![0x05, 100]);
    assert_eq!(bytes_of(TrackEvent::SetADSR(ADSR(1, 2, 3, 4))), vec![0x06, 1, 2, 3, 4]);
    assert_eq!(bytes_of(TrackEvent::SetA(9)), vec![0x07, 9]);
    assert_eq!(bytes_of(TrackEvent::SetD(10)), vec![0x08, 10]);
    assert_eq!(bytes_of(TrackEvent::SetS(11)), vec![0x09, 11]);
    assert_eq!(bytes_of(TrackEvent::SetR(12)), vec![0x0a, 12]);
    assert_eq!(
        bytes_of(TrackEvent::SetPitchEnv(PitchEnv { note_offset: 3, duration: 7 })),
        vec![0x0b, 3, 7]
    );
    assert_eq!(
        bytes_of(TrackEvent::SetPitchEnv(PitchEnv { note_offset: -2, duration: 7 })),
        vec![0x0b, 0xfe, 7]
    );
    assert_eq!(
        bytes_of(TrackEvent::SetPitchEnv(PitchEnv { note_offset: -128, duration: 0 })),
        vec![0x0b, 0x80, 0]
    );
    assert_eq!(bytes_of(TrackEvent::SetArpeggio(Arpeggio { rate: 3 })), vec![0x0c, 3]);
    assert_eq!(bytes_of(TrackEvent::SetPortamento(4)), vec![0x0d, 4]);
    assert_eq!(bytes_of(TrackEvent::SetVibrato(Vibrato { speed: 5, depth: 6 })), vec![0x0e, 5, 6]);
}

#[test]
fn a_pan_is_one_of_three_codes() {
    assert_eq!(bytes_of(TrackEvent::SetPan(Pan::Stereo)), vec![0x10]);
    assert_eq!(bytes_of(TrackEvent::SetPan(Pan::Left)), vec![0x11]);
    assert_eq!(bytes_of(TrackEvent::SetPan(Pan::Right)), vec![0x12]);
}

#[test]
fn an_event_is_appended_to_what_is_there() {
    let mut into = vec![1, 2, 3];
    TrackEvent::NoteOn(1).serialize_into(&mut into);
    TrackEvent::Delta(1).serialize_into(&mut into);
    assert_eq!(into, vec![1, 2, 3, 0x81, 0x20]);
}

#[test]
fn waits_of_no_tick_and_of_too_many_are_not_legal() {
    assert!(!TrackEvent::Delta(0).is_legal());
    assert!(TrackEvent::Delta(1).is_legal());
    assert!(TrackEvent::Delta(65535).is_legal());
    assert!(!TrackEvent::Delta(65536).is_legal());
    assert!(!TrackEvent::DeltaNotesOff(0).is_legal());
    assert!(TrackEvent::DeltaNotesOff(65535).is_legal());
    assert!(!TrackEvent::DeltaNotesOff(65536).is_legal());
    assert!(TrackEvent::NoteOn(127).is_legal());
    assert!(!TrackEvent::NoteOn(128).is_legal());
    assert!(TrackEvent::SetVolume(255).is_legal());
}

fn small_song() -> W4PlayerSong {
    W4PlayerSong {
        patterns: vec![
            vec![TrackEvent::NoteOn(60), TrackEvent::Delta(2)],
            vec![TrackEvent::NotesOff],
        ],
        tracks: vec![vec![0, 1], vec![1]],
    }
}

#[test]
fn a_song_is_head_offsets_patterns_and_tracks() {
    let song = small_song();
    assert_eq!(song.check(), None);
    assert_eq!(
        song.serialize(),
        vec![
            0x00, 0x12, // the length
            0x02, 0x02, // two patterns, two tracks
            0x00, 0x0c, 0x00, 0x0e, // where the patterns are
            0x00, 0x0f, 0x00, 0x11, // where the tracks are
            0xbc, 0x21, // the first pattern
            0x02, // the second pattern
            0x00, 0x01, // the first track
            0x01, // the second track
        ]
    );
    assert_eq!(song.try_serialize(), Ok(song.serialize()));
}

#[test]
fn an_empty_song_is_its_head() {
    let song = W4PlayerSong { patterns: vec![], tracks: vec![] };
    assert_eq!(song.serialize(), vec![0x00, 0x04, 0x00, 0x00]);
}

fn read16(bytes: &[u8], at: usize) -> usize {
    bytes[at] as usize * 256 + bytes[at + 1] as usize
}

#[test]
fn the_head_of_a_song_tells_where_everything_is() {
    let song = W4PlayerSong {
        patterns: vec![
            vec![TrackEvent::SetADSR(ADSR(1, 2, 3, 4)), TrackEvent::NoteOn(1)],
            vec![],
            vec![TrackEvent::Delta(500), TrackEvent::NotesOff],
        ],
        tracks: vec![vec![0, 1, 2], vec![], vec![2, 2]],
    };
    let bytes = song.serialize();
    assert_eq!(read16(&bytes, 0), bytes.len());
    assert_eq!(bytes[2], 3);
    assert_eq!(bytes[3], 3);
    let mut next = 4 + 2 * 3 + 2 * 3;
    for (i, pattern) in song.patterns.iter().enumerate() {
        let at = read16(&bytes, 4 + 2 * i);
        assert_eq!(at, next);
        let mut want = Vec::new();
        for event in pattern {
            event.serialize_into(&mut want);
        }
        assert_eq!(&bytes[at..at + want.len()], &want[..]);
        next = at + want.len();
    }
    for (i, track) in song.tracks.iter().enumerate() {
        let at = read16(&bytes, 4 + 2 * 3 + 2 * i);
        assert_eq!(at, next);
        let want: Vec<u8> = track.iter().map(|index| *index as u8).collect();
        assert_eq!(&bytes[at..at + want.len()], &want[..]);
        next = at + want.len();
    }
    assert_eq!(next, bytes.len());
}

#[test]
fn a_song_of_255_patterns_counts_them_all() {
    let song = W4PlayerSong { patterns: vec![vec![]; 255], tracks: vec![vec![254]] };
    let bytes = song.try_serialize().unwrap();
    assert_eq!(bytes.len(), 4 + 2 * 255 + 2 + 1);
    assert_eq!(read16(&bytes, 0), bytes.len());
    assert_eq!(bytes[2], 255);
    assert_eq!(bytes[3], 1);
    assert_eq!(bytes[bytes.len() - 1], 254);
}

#[test]
fn too_many_patterns_are_refused() {
    // one byte counts the patterns, so 256 are one too many
    let song = W4PlayerSong { patterns: vec![vec![]; 256], tracks: vec![] };
    assert_eq!(song.check(), Some(FormatError::TooManyPatterns));
    assert_eq!(song.try_serialize(), Err(FormatError::TooManyPatterns));
    let song = W4PlayerSong { patterns: vec![vec![]; 257], tracks: vec![] };
    assert_eq!(song.check(), Some(FormatError::TooManyPatterns));
    assert_eq!(song.try_serialize(), Err(FormatError::TooManyPatterns));
}

#[test]
fn too_many_tracks_are_refused() {
    let song = W4PlayerSong { patterns: vec![], tracks: vec![vec![]; 17] };
    assert_eq!(song.try_serialize(), Err(FormatError::TooManyTracks));
    let song = W4PlayerSong { patterns: vec![], tracks: vec![vec![]; 16] };
    assert!(song.try_serialize().is_ok());
}

#[test]
fn an_event_that_is_not_legal_is_refused() {
    let song = W4PlayerSong {
        patterns: vec![vec![TrackEvent::NoteOn(1)], vec![TrackEvent::NotesOff, TrackEvent::Delta(0)]],
        tracks: vec![vec![0]],
    };
    assert_eq!(song.try_serialize(), Err(FormatError::IllegalEvent));
    let song = W4PlayerSong { patterns: vec![vec![TrackEvent::Delta(65536)]], tracks: vec![] };
    assert_eq!(song.try_serialize(), Err(FormatError::IllegalEvent));
    let song = W4PlayerSong { patterns: vec![vec![TrackEvent::NoteOn(128)]], tracks: vec![] };
    assert_eq!(song.try_serialize(), Err(FormatError::IllegalEvent));
}

#[test]
fn a_pattern_number_over_one_byte_is_refused() {
    let song = W4PlayerSong { patterns: vec![], tracks: vec![vec![0, 256]] };
    assert_eq!(song.try_serialize(), Err(FormatError::PatternIndexTooLarge));
    // a number that names no pattern is written all the same
    let song = W4PlayerSong { patterns: vec![], tracks: vec![vec![7]] };
    assert_eq!(song.try_serialize(), Ok(vec![0x00, 0x07, 0x00, 0x01, 0x00, 0x06, 0x07]));
}

#[test]
fn a_song_over_65535_bytes_is_refused() {
    // 8 bytes of head and 65527 of pattern are 65535
    let song = W4PlayerSong { patterns: vec![vec![TrackEvent::NotesOff; 65527]], tracks: vec![vec![]] };
    let bytes = song.try_serialize().unwrap();
    assert_eq!(bytes.len(), 65535);
    assert_eq!(read16(&bytes, 0), 65535);
    let song = W4PlayerSong { patterns: vec![vec![TrackEvent::NotesOff; 65528]], tracks: vec![vec![]] };
    assert_eq!(song.try_serialize(), Err(FormatError::TooLarge));
}

#[test]
fn of_several_reasons_the_first_is_given() {
    let song = W4PlayerSong {
        patterns: vec![vec![TrackEvent::Delta(0)]; 257],
        tracks: vec![vec![300]; 17],
    };
    assert_eq!(song.try_serialize(), Err(FormatError::TooManyPatterns));
    let song = W4PlayerSong { patterns: vec![vec![TrackEvent::Delta(0)]], tracks: vec![vec![300]; 17] };
    assert_eq!(song.try_serialize(), Err(FormatError::TooManyTracks));
    let song = W4PlayerSong { patterns: vec![vec![TrackEvent::Delta(0)]], tracks: vec![vec![300]] };
    assert_eq!(song.try_serialize(), Err(FormatError::IllegalEvent));
    let song = W4PlayerSong {
        patterns: vec![vec![TrackEvent::NotesOff; 70000]],
        tracks: vec![vec![300]],
    };
    assert_eq!(song.try_serialize(), Err(FormatError::PatternIndexTooLarge));
}
