//! The song format: how an event is written as bytes, and how patterns and
//! tracks are laid out in a song.
//!
//! A song is its length in two bytes, the number of patterns and the number
//! of tracks in one byte each, the offset of every pattern and of every
//! track in two bytes each, the patterns and the tracks. A pattern is its
//! events one after the other, a track one byte for each pattern number.
//! Numbers of two bytes have the high byte first, and offsets count from
//! the start of the song.

use vstd::prelude::*;
use crate::crunch::rows;
use crate::model::{TrackEvent, W4PlayerSong, ADSR, MAX_PATTERNS, TRACK_COUNT};

verus! {

/// The code of a wait that is written in three bytes.
pub const FMT_LONG_DELTA: u8 = 0x00;

/// The code of a wait ending the notes that is written in three bytes.
pub const FMT_LONG_DELTA_NOTES_OFF: u8 = 0x01;

/// The code of the end of the notes.
pub const FMT_NOTES_OFF: u8 = 0x02;

/// The code of a volume; the volume follows.
pub const FMT_SET_VOLUME: u8 = 0x03;

/// The code of the flags of a voice; the flags follow.
pub const FMT_SET_FLAGS: u8 = 0x04;

/// The code of a velocity; the velocity follows.
pub const FMT_SET_VELOCITY: u8 = 0x05;

/// The code of an envelope; attack, decay, sustain and release follow.
pub const FMT_SET_ADSR: u8 = 0x06;

/// The code of an attack; the attack follows.
pub const FMT_SET_A: u8 = 0x07;

/// The code of a decay; the decay follows.
pub const FMT_SET_D: u8 = 0x08;

/// The code of a sustain level; the level follows.
pub const FMT_SET_S: u8 = 0x09;

/// The code of a release; the release follows.
pub const FMT_SET_R: u8 = 0x0a;

/// The code of a pitch envelope; the offset and the duration follow.
pub const FMT_SET_PITCH_ENV: u8 = 0x0b;

/// The code of an arpeggio; the rate follows.
pub const FMT_SET_ARP_RATE: u8 = 0x0c;

/// The code of a portamento; its amount follows.
pub const FMT_SET_PORTAMENTO: u8 = 0x0d;

/// The code of a vibrato; the speed and the depth follow.
pub const FMT_SET_VIBRATO: u8 = 0x0e;

/// The first of three codes, one for each side of a pan.
pub const FMT_SET_PAN_START: u8 = 0x10;

/// The code of a wait of one tick; longer short waits follow.
pub const FMT_SHORT_DELTA_START: u8 = 0x20;

/// The longest wait that is written in one byte.
pub const FMT_SHORT_DELTA_COUNT: usize = 0x30;

/// The code of a wait of one tick that ends the notes; longer ones follow.
pub const FMT_SHORT_DELTA_NOTES_OFF_START: u8 = 0x50;

/// The longest wait ending the notes that is written in one byte.
pub const FMT_SHORT_DELTA_NOTES_OFF_COUNT: usize = 0x30;

/// The code of the lowest note; the higher notes follow.
pub const FMT_NOTE_ON_START: u8 = 0x80;

/// The number of notes that have a code.
pub const FMT_NOTE_ON_COUNT: u8 = 0x80;

/// The longest wait that can be written.
pub const DELTA_MAX: usize = 0xffff;

/// The greatest size of a song, and the greatest offset in it.
pub const SONG_MAX: usize = 0xffff;

/// A number as two bytes, the high byte first.
pub open spec fn be16(x: int) -> Seq<u8> {
    seq![(x / 256) as u8, (x % 256) as u8]
}

/// The number that two bytes stand for, the high byte first.
pub open spec fn decode16(hi: u8, lo: u8) -> int {
    hi * 256 + lo
}

/// A signed byte as the byte with the same bits.
pub open spec fn byte_of(x: i8) -> u8 {
    if x >= 0 {
        x as u8
    } else {
        (x + 256) as u8
    }
}

impl TrackEvent {
    /// The event can be written: a wait lasts from 1 to 65535 ticks, and a
    /// note has a code.
    pub open spec fn spec_is_legal(&self) -> bool {
        match self {
            TrackEvent::Delta(d) => 1 <= *d <= DELTA_MAX,
            TrackEvent::DeltaNotesOff(d) => 1 <= *d <= DELTA_MAX,
            TrackEvent::NoteOn(n) => *n < FMT_NOTE_ON_COUNT,
            _ => true,
        }
    }

    /// The bytes of the event.
    pub open spec fn bytes(&self) -> Seq<u8> {
        match self {
            TrackEvent::Delta(d) => if 1 <= *d <= FMT_SHORT_DELTA_COUNT {
                seq![(FMT_SHORT_DELTA_START + (*d - 1)) as u8]
            } else {
                seq![FMT_LONG_DELTA] + be16(*d - FMT_SHORT_DELTA_COUNT - 1)
            },
            TrackEvent::DeltaNotesOff(d) => if 1 <= *d <= FMT_SHORT_DELTA_NOTES_OFF_COUNT {
                seq![(FMT_SHORT_DELTA_NOTES_OFF_START + (*d - 1)) as u8]
            } else {
                seq![FMT_LONG_DELTA_NOTES_OFF] + be16(*d - FMT_SHORT_DELTA_NOTES_OFF_COUNT - 1)
            },
            TrackEvent::NoteOn(n) => seq![(FMT_NOTE_ON_START + *n) as u8],
            TrackEvent::NotesOff => seq![FMT_NOTES_OFF],
            TrackEvent::SetFlags(f) => seq![FMT_SET_FLAGS, *f],
            TrackEvent::SetVolume(v) => seq![FMT_SET_VOLUME, *v],
            TrackEvent::SetPan(p) => seq![(FMT_SET_PAN_START + p.spec_code()) as u8],
            TrackEvent::SetVelocity(v) => seq![FMT_SET_VELOCITY, *v],
            TrackEvent::SetADSR(ADSR(a, d, s, r)) => seq![FMT_SET_ADSR, *a, *d, *s, *r],
            TrackEvent::SetA(a) => seq![FMT_SET_A, *a],
            TrackEvent::SetD(d) => seq![FMT_SET_D, *d],
            TrackEvent::SetS(s) => seq![FMT_SET_S, *s],
            TrackEvent::SetR(r) => seq![FMT_SET_R, *r],
            TrackEvent::SetPitchEnv(pe) => seq![
                FMT_SET_PITCH_ENV,
                byte_of(pe.note_offset),
                pe.duration,
            ],
            TrackEvent::SetArpeggio(arp) => seq![FMT_SET_ARP_RATE, arp.rate],
            TrackEvent::SetPortamento(p) => seq![FMT_SET_PORTAMENTO, *p],
            TrackEvent::SetVibrato(v) => seq![FMT_SET_VIBRATO, v.speed, v.depth],
        }
    }

    /// Tells whether the event can be written.
    #[verifier::when_used_as_spec(spec_is_legal)]
    pub fn is_legal(&self) -> (r: bool)
        ensures
            r == self.spec_is_legal(),
    {
        match self {
            TrackEvent::Delta(d) => 1 <= *d && *d <= DELTA_MAX,
            TrackEvent::DeltaNotesOff(d) => 1 <= *d && *d <= DELTA_MAX,
            TrackEvent::NoteOn(n) => *n < FMT_NOTE_ON_COUNT,
            _ => true,
        }
    }

    /// The number of bytes of the event.
    pub fn encoded_size(&self) -> (r: usize)
        ensures
            r == self.bytes().len(),
            1 <= r <= 5,
    {
        match self {
            TrackEvent::Delta(d) => if 1 <= *d && *d <= FMT_SHORT_DELTA_COUNT {
                1
            } else {
                3
            },
            TrackEvent::DeltaNotesOff(d) => if 1 <= *d && *d <= FMT_SHORT_DELTA_NOTES_OFF_COUNT {
                1
            } else {
                3
            },
            TrackEvent::NoteOn(_) => 1,
            TrackEvent::NotesOff => 1,
            TrackEvent::SetPan(_) => 1,
            TrackEvent::SetADSR(_) => 5,
            TrackEvent::SetPitchEnv(_) => 3,
            TrackEvent::SetVibrato(_) => 3,
            _ => 2,
        }
    }

    /// Appends the bytes of the event to `into`.
    pub fn serialize_into(&self, into: &mut Vec<u8>)
        requires
            self.spec_is_legal(),
        ensures
            final(into)@ == old(into)@ + self.bytes(),
    {
        let ghost before = into@;
        match self {
            TrackEvent::SetVolume(v) => {
                into.push(FMT_SET_VOLUME);
                into.push(*v);
            },
            TrackEvent::SetADSR(ADSR(a, d, s, r)) => {
                into.push(FMT_SET_ADSR);
                into.push(*a);
                into.push(*d);
                into.push(*s);
                into.push(*r);
            },
            TrackEvent::SetFlags(f) => {
                into.push(FMT_SET_FLAGS);
                into.push(*f);
            },
            TrackEvent::SetVelocity(v) => {
                into.push(FMT_SET_VELOCITY);
                into.push(*v);
            },
            TrackEvent::SetPan(p) => {
                into.push(FMT_SET_PAN_START + p.code());
            },
            TrackEvent::SetArpeggio(arp) => {
                into.push(FMT_SET_ARP_RATE);
                into.push(arp.rate);
            },
            TrackEvent::SetPortamento(p) => {
                into.push(FMT_SET_PORTAMENTO);
                into.push(*p);
            },
            TrackEvent::Delta(d) => {
                if *d <= FMT_SHORT_DELTA_COUNT {
                    into.push(FMT_SHORT_DELTA_START + (*d - 1) as u8);
                } else {
                    let rest = *d - FMT_SHORT_DELTA_COUNT - 1;
                    into.push(FMT_LONG_DELTA);
                    into.push((rest / 256) as u8);
                    into.push((rest % 256) as u8);
                }
            },
            TrackEvent::NoteOn(n) => {
                into.push(FMT_NOTE_ON_START + *n);
            },
            TrackEvent::NotesOff => {
                into.push(FMT_NOTES_OFF);
            },
            TrackEvent::DeltaNotesOff(d) => {
                if *d <= FMT_SHORT_DELTA_NOTES_OFF_COUNT {
                    into.push(FMT_SHORT_DELTA_NOTES_OFF_START + (*d - 1) as u8);
                } else {
                    let rest = *d - FMT_SHORT_DELTA_NOTES_OFF_COUNT - 1;
                    into.push(FMT_LONG_DELTA_NOTES_OFF);
                    into.push((rest / 256) as u8);
                    into.push((rest % 256) as u8);
                }
            },
            TrackEvent::SetPitchEnv(pe) => {
                let offset: u8 = if pe.note_offset >= 0 {
                    pe.note_offset as u8
                } else {
                    (pe.note_offset as i16 + 256) as u8
                };
                into.push(FMT_SET_PITCH_ENV);
                into.push(offset);
                into.push(pe.duration);
            },
            TrackEvent::SetA(a) => {
                into.push(FMT_SET_A);
                into.push(*a);
            },
            TrackEvent::SetD(d) => {
                into.push(FMT_SET_D);
                into.push(*d);
            },
            TrackEvent::SetS(s) => {
                into.push(FMT_SET_S);
                into.push(*s);
            },
            TrackEvent::SetR(r) => {
                into.push(FMT_SET_R);
                into.push(*r);
            },
            TrackEvent::SetVibrato(v) => {
                into.push(FMT_SET_VIBRATO);
                into.push(v.speed);
                into.push(v.depth);
            },
        }
        assert(into@ =~= before + self.bytes());
    }
}


/// Why a song cannot be written.
#[derive(Clone, Copy, Debug, PartialEq, Eq, Structural)]
pub enum FormatError {
    /// The song has more patterns than one byte can count.
    TooManyPatterns,
    /// The song has more tracks than the chip has input channels.
    TooManyTracks,
    /// An event cannot be written.
    IllegalEvent,
    /// A pattern number does not fit one byte.
    PatternIndexTooLarge,
    /// The song is longer than two bytes can tell.
    TooLarge,
}

/// The bytes of a run of events.
pub open spec fn events_bytes(events: Seq<TrackEvent>) -> Seq<u8>
    decreases events.len(),
{
    if events.len() == 0 {
        Seq::empty()
    } else {
        events_bytes(events.drop_last()) + events.last().bytes()
    }
}

/// The bytes of some patterns, one after the other.
pub open spec fn patterns_bytes(patterns: Seq<Seq<TrackEvent>>) -> Seq<u8>
    decreases patterns.len(),
{
    if patterns.len() == 0 {
        Seq::empty()
    } else {
        patterns_bytes(patterns.drop_last()) + events_bytes(patterns.last())
    }
}

/// The bytes of a track: each pattern number as one byte.
pub open spec fn indices_bytes(indices: Seq<usize>) -> Seq<u8> {
    Seq::new(indices.len(), |i: int| indices[i] as u8)
}

/// The bytes of some tracks, one after the other.
pub open spec fn tracks_bytes(tracks: Seq<Seq<usize>>) -> Seq<u8>
    decreases tracks.len(),
{
    if tracks.len() == 0 {
        Seq::empty()
    } else {
        tracks_bytes(tracks.drop_last()) + indices_bytes(tracks.last())
    }
}

/// The size of what stands before the first pattern.
pub open spec fn header_len(patterns: int, tracks: int) -> int {
    4 + 2 * patterns + 2 * tracks
}

/// The offset of pattern `i` in the song.
pub open spec fn pattern_offset(
    patterns: Seq<Seq<TrackEvent>>,
    tracks: Seq<Seq<usize>>,
    i: int,
) -> int {
    header_len(patterns.len() as int, tracks.len() as int) + patterns_bytes(patterns.take(i)).len()
}

/// The offset of track `i` in the song.
pub open spec fn track_offset(
    patterns: Seq<Seq<TrackEvent>>,
    tracks: Seq<Seq<usize>>,
    i: int,
) -> int {
    header_len(patterns.len() as int, tracks.len() as int) + patterns_bytes(patterns).len()
        + tracks_bytes(tracks.take(i)).len()
}

/// The offsets of all patterns.
pub open spec fn pattern_offsets(patterns: Seq<Seq<TrackEvent>>, tracks: Seq<Seq<usize>>) -> Seq<
    int,
> {
    Seq::new(patterns.len(), |i: int| pattern_offset(patterns, tracks, i))
}

/// The offsets of all tracks.
pub open spec fn track_offsets(patterns: Seq<Seq<TrackEvent>>, tracks: Seq<Seq<usize>>) -> Seq<
    int,
> {
    Seq::new(tracks.len(), |i: int| track_offset(patterns, tracks, i))
}

/// A table of offsets, two bytes each.
pub open spec fn offsets_bytes(offsets: Seq<int>) -> Seq<u8>
    decreases offsets.len(),
{
    if offsets.len() == 0 {
        Seq::empty()
    } else {
        offsets_bytes(offsets.drop_last()) + be16(offsets.last())
    }
}

/// The size of the song.
pub open spec fn song_len(patterns: Seq<Seq<TrackEvent>>, tracks: Seq<Seq<usize>>) -> int {
    header_len(patterns.len() as int, tracks.len() as int) + patterns_bytes(patterns).len()
        + tracks_bytes(tracks).len()
}

/// The bytes of the song.
pub open spec fn song_bytes(patterns: Seq<Seq<TrackEvent>>, tracks: Seq<Seq<usize>>) -> Seq<u8> {
    be16(song_len(patterns, tracks)) + seq![patterns.len() as u8, tracks.len() as u8]
        + offsets_bytes(pattern_offsets(patterns, tracks)) + offsets_bytes(
        track_offsets(patterns, tracks),
    ) + patterns_bytes(patterns) + tracks_bytes(tracks)
}

/// Every event of every pattern can be written.
pub open spec fn events_legal(patterns: Seq<Seq<TrackEvent>>) -> bool {
    forall|i: int, j: int|
        0 <= i < patterns.len() && 0 <= j < patterns[i].len() ==> (
        #[trigger] patterns[i][j]).spec_is_legal()
}

/// Every pattern number of every track fits one byte.
pub open spec fn indices_small(tracks: Seq<Seq<usize>>) -> bool {
    forall|i: int, j: int|
        0 <= i < tracks.len() && 0 <= j < tracks[i].len() ==> (#[trigger] tracks[i][j]) <= 255
}

/// Why the song cannot be written, if it cannot. Of several reasons the
/// first in the order of `FormatError` is given.
pub open spec fn format_error(patterns: Seq<Seq<TrackEvent>>, tracks: Seq<Seq<usize>>) -> Option<
    FormatError,
> {
    if patterns.len() > MAX_PATTERNS {
        Some(FormatError::TooManyPatterns)
    } else if tracks.len() > TRACK_COUNT {
        Some(FormatError::TooManyTracks)
    } else if !events_legal(patterns) {
        Some(FormatError::IllegalEvent)
    } else if !indices_small(tracks) {
        Some(FormatError::PatternIndexTooLarge)
    } else if song_len(patterns, tracks) > SONG_MAX {
        Some(FormatError::TooLarge)
    } else {
        None
    }
}

proof fn lemma_patterns_prefix(patterns: Seq<Seq<TrackEvent>>, i: int)
    requires
        0 <= i <= patterns.len(),
    ensures
        patterns_bytes(patterns.take(i)).len() <= patterns_bytes(patterns).len(),
    decreases patterns.len() - i,
{
    if i < patterns.len() {
        lemma_patterns_prefix(patterns, i + 1);
        assert(patterns.take(i + 1).drop_last() == patterns.take(i));
    } else {
        assert(patterns.take(i) == patterns);
    }
}

proof fn lemma_tracks_prefix(tracks: Seq<Seq<usize>>, i: int)
    requires
        0 <= i <= tracks.len(),
    ensures
        tracks_bytes(tracks.take(i)).len() <= tracks_bytes(tracks).len(),
    decreases tracks.len() - i,
{
    if i < tracks.len() {
        lemma_tracks_prefix(tracks, i + 1);
        assert(tracks.take(i + 1).drop_last() == tracks.take(i));
    } else {
        assert(tracks.take(i) == tracks);
    }
}

/// The number of bytes of a run of events.
fn events_len(events: &Vec<TrackEvent>) -> (n: u128)
    ensures
        n == events_bytes(events@).len(),
        n <= 5 * events@.len(),
{
    let mut n: u128 = 0;
    let mut i: usize = 0;
    while i < events.len()
        invariant
            i <= events@.len(),
            n == events_bytes(events@.take(i as int)).len(),
            n <= 5 * i,
        decreases events@.len() - i,
    {
        proof {
            assert(events@.take(i + 1).drop_last() == events@.take(i as int));
        }
        n += events[i].encoded_size() as u128;
        i += 1;
    }
    proof {
        assert(events@.take(events@.len() as int) == events@);
    }
    n
}

impl W4PlayerSong {
    /// Why the song cannot be written, if it cannot.
    pub open spec fn spec_error(&self) -> Option<FormatError> {
        format_error(rows(self.patterns@), rows(self.tracks@))
    }

    /// The bytes of the song.
    pub open spec fn bytes(&self) -> Seq<u8> {
        song_bytes(rows(self.patterns@), rows(self.tracks@))
    }

    /// The size that the song has when it is written.
    fn encoded_len(&self) -> (n: u128)
        requires
            self.patterns@.len() <= MAX_PATTERNS,
            self.tracks@.len() <= TRACK_COUNT,
        ensures
            n == song_len(rows(self.patterns@), rows(self.tracks@)),
    {
        let ghost ps = rows(self.patterns@);
        let ghost ts = rows(self.tracks@);
        let mut n: u128 = 4 + 2 * (self.patterns.len() as u128) + 2 * (self.tracks.len() as u128);
        let mut i: usize = 0;
        while i < self.patterns.len()
            invariant
                ps == rows(self.patterns@),
                i <= self.patterns@.len() <= MAX_PATTERNS,
                self.tracks@.len() <= TRACK_COUNT,
                n == header_len(ps.len() as int, ts.len() as int) + patterns_bytes(
                    ps.take(i as int),
                ).len(),
                n <= 1000 + i * 5 * 0x1_0000_0000_0000_0000,
            decreases self.patterns@.len() - i,
        {
            proof {
                assert(ps.take(i + 1).drop_last() == ps.take(i as int));
                assert(ps.take(i + 1).last() == self.patterns@[i as int]@);
            }
            let m = events_len(&self.patterns[i]);
            assert(self.patterns@[i as int].len() == self.patterns@[i as int]@.len());
            n += m;
            i += 1;
        }
        proof {
            assert(ps.take(self.patterns@.len() as int) == ps);
        }
        let mut k: usize = 0;
        while k < self.tracks.len()
            invariant
                ts == rows(self.tracks@),
                self.patterns@.len() <= MAX_PATTERNS,
                k <= self.tracks@.len() <= TRACK_COUNT,
                n == header_len(ps.len() as int, ts.len() as int) + patterns_bytes(ps).len()
                    + tracks_bytes(ts.take(k as int)).len(),
                n <= 1000 + 256 * 5 * 0x1_0000_0000_0000_0000 + k * 0x1_0000_0000_0000_0000,
            decreases self.tracks@.len() - k,
        {
            proof {
                assert(ts.take(k + 1).drop_last() == ts.take(k as int));
                assert(ts.take(k + 1).last() == self.tracks@[k as int]@);
            }
            n += self.tracks[k].len() as u128;
            k += 1;
        }
        proof {
            assert(ts.take(self.tracks@.len() as int) == ts);
        }
        n
    }

    /// Tells whether every event of every pattern can be written.
    fn events_are_legal(&self) -> (r: bool)
        ensures
            r == events_legal(rows(self.patterns@)),
    {
        let ghost ps = rows(self.patterns@);
        let mut i: usize = 0;
        while i < self.patterns.len()
            invariant
                ps == rows(self.patterns@),
                i <= self.patterns@.len(),
                forall|a: int, b: int|
                    0 <= a < i && 0 <= b < ps[a].len() ==> (#[trigger] ps[a][b]).spec_is_legal(),
            decreases self.patterns@.len() - i,
        {
            let pattern = &self.patterns[i];
            let mut j: usize = 0;
            while j < pattern.len()
                invariant
                    ps == rows(self.patterns@),
                    i < self.patterns@.len(),
                    *pattern == self.patterns@[i as int],
                    j <= pattern@.len(),
                    forall|b: int| 0 <= b < j ==> (#[trigger] pattern@[b]).spec_is_legal(),
                decreases pattern@.len() - j,
            {
                if !pattern[j].is_legal() {
                    assert(!ps[i as int][j as int].spec_is_legal());
                    return false;
                }
                j += 1;
            }
            i += 1;
        }
        true
    }

    /// Tells whether every pattern number of every track fits one byte.
    fn indices_are_small(&self) -> (r: bool)
        ensures
            r == indices_small(rows(self.tracks@)),
    {
        let ghost ts = rows(self.tracks@);
        let mut i: usize = 0;
        while i < self.tracks.len()
            invariant
                ts == rows(self.tracks@),
                i <= self.tracks@.len(),
                forall|a: int, b: int|
                    0 <= a < i && 0 <= b < ts[a].len() ==> (#[trigger] ts[a][b]) <= 255,
            decreases self.tracks@.len() - i,
        {
            let track = &self.tracks[i];
            let mut j: usize = 0;
            while j < track.len()
                invariant
                    ts == rows(self.tracks@),
                    i < self.tracks@.len(),
                    *track == self.tracks@[i as int],
                    j <= track@.len(),
                    forall|b: int| 0 <= b < j ==> (#[trigger] track@[b]) <= 255,
                decreases track@.len() - j,
            {
                if track[j] > 255 {
                    assert(ts[i as int][j as int] > 255);
                    return false;
                }
                j += 1;
            }
            i += 1;
        }
        true
    }

    /// Tells why the song cannot be written, if it cannot.
    pub fn check(&self) -> (r: Option<FormatError>)
        ensures
            r == self.spec_error(),
    {
        if self.patterns.len() > MAX_PATTERNS {
            Some(FormatError::TooManyPatterns)
        } else if self.tracks.len() > TRACK_COUNT {
            Some(FormatError::TooManyTracks)
        } else if !self.events_are_legal() {
            Some(FormatError::IllegalEvent)
        } else if !self.indices_are_small() {
            Some(FormatError::PatternIndexTooLarge)
        } else if self.encoded_len() > SONG_MAX as u128 {
            Some(FormatError::TooLarge)
        } else {
            None
        }
    }

    /// Writes the song.
    pub fn serialize(&self) -> (out: Vec<u8>)
        requires
            self.spec_error().is_none(),
        ensures
            out@ == self.bytes(),
    {
        let ghost ps = rows(self.patterns@);
        let ghost ts = rows(self.tracks@);
        let header: usize = 4 + 2 * self.patterns.len() + 2 * self.tracks.len();
        // the patterns and the tracks, and where each begins
        let mut body: Vec<u8> = Vec::new();
        let mut pattern_starts: Vec<usize> = Vec::new();
        let mut i: usize = 0;
        while i < self.patterns.len()
            invariant
                ps == rows(self.patterns@),
                ts == rows(self.tracks@),
                format_error(ps, ts).is_none(),
                header == header_len(ps.len() as int, ts.len() as int),
                i <= self.patterns@.len(),
                body@ == patterns_bytes(ps.take(i as int)),
                pattern_starts@.len() == i,
                forall|a: int|
                    0 <= a < i ==> #[trigger] pattern_starts@[a] == pattern_offset(ps, ts, a),
            decreases self.patterns@.len() - i,
        {
            proof {
                lemma_patterns_prefix(ps, i as int);
                assert(ps.take(i + 1).drop_last() == ps.take(i as int));
                assert(ps.take(i + 1).last() == self.patterns@[i as int]@);
            }
            pattern_starts.push(header + body.len());
            let pattern = &self.patterns[i];
            let ghost before = body@;
            let mut j: usize = 0;
            while j < pattern.len()
                invariant
                    ps == rows(self.patterns@),
                    events_legal(ps),
                    i < self.patterns@.len(),
                    *pattern == self.patterns@[i as int],
                    j <= pattern@.len(),
                    body@ == before + events_bytes(pattern@.take(j as int)),
                decreases pattern@.len() - j,
            {
                proof {
                    assert(pattern@.take(j + 1).drop_last() == pattern@.take(j as int));
                    assert(ps[i as int][j as int].spec_is_legal());
                }
                pattern[j].serialize_into(&mut body);
                j += 1;
            }
            proof {
                assert(pattern@.take(pattern@.len() as int) == pattern@);
            }
            i += 1;
        }
        proof {
            assert(ps.take(self.patterns@.len() as int) == ps);
        }
        let mut track_starts: Vec<usize> = Vec::new();
        let mut k: usize = 0;
        while k < self.tracks.len()
            invariant
                ps == rows(self.patterns@),
                ts == rows(self.tracks@),
                format_error(ps, ts).is_none(),
                header == header_len(ps.len() as int, ts.len() as int),
                k <= self.tracks@.len(),
                body@ == patterns_bytes(ps) + tracks_bytes(ts.take(k as int)),
                track_starts@.len() == k,
                forall|a: int| 0 <= a < k ==> #[trigger] track_starts@[a] == track_offset(ps, ts, a),
            decreases self.tracks@.len() - k,
        {
            proof {
                lemma_tracks_prefix(ts, k as int);
                assert(ts.take(k + 1).drop_last() == ts.take(k as int));
                assert(ts.take(k + 1).last() == self.tracks@[k as int]@);
            }
            track_starts.push(header + body.len());
            let track = &self.tracks[k];
            let ghost before = body@;
            let mut j: usize = 0;
            while j < track.len()
                invariant
                    ts == rows(self.tracks@),
                    indices_small(ts),
                    k < self.tracks@.len(),
                    *track == self.tracks@[k as int],
                    j <= track@.len(),
                    body@ == before + indices_bytes(track@.take(j as int)),
                decreases track@.len() - j,
            {
                proof {
                    assert(ts[k as int][j as int] <= 255);
                    assert(indices_bytes(track@.take(j + 1)) =~= indices_bytes(
                        track@.take(j as int),
                    ).push(track@[j as int] as u8));
                }
                body.push(track[j] as u8);
                j += 1;
            }
            proof {
                assert(track@.take(track@.len() as int) == track@);
            }
            k += 1;
        }
        proof {
            assert(ts.take(self.tracks@.len() as int) == ts);
        }
        let total = header + body.len();
        let mut out: Vec<u8> = Vec::new();
        out.push((total / 256) as u8);
        out.push((total % 256) as u8);
        out.push(self.patterns.len() as u8);
        out.push(self.tracks.len() as u8);
        let ghost head = out@;
        assert(head =~= be16(song_len(ps, ts)) + seq![ps.len() as u8, ts.len() as u8]);
        let mut a: usize = 0;
        while a < pattern_starts.len()
            invariant
                a <= pattern_starts@.len(),
                pattern_starts@.len() == ps.len(),
                forall|x: int|
                    0 <= x < ps.len() ==> #[trigger] pattern_starts@[x] == pattern_offset(ps, ts, x),
                out@ == head + offsets_bytes(pattern_offsets(ps, ts).take(a as int)),
            decreases pattern_starts@.len() - a,
        {
            proof {
                assert(pattern_offsets(ps, ts).take(a + 1).drop_last() == pattern_offsets(
                    ps,
                    ts,
                ).take(a as int));
            }
            let at = pattern_starts[a];
            out.push((at / 256) as u8);
            out.push((at % 256) as u8);
            assert(out@ =~= head + offsets_bytes(pattern_offsets(ps, ts).take(a + 1)));
            a += 1;
        }
        proof {
            assert(pattern_offsets(ps, ts).take(ps.len() as int) == pattern_offsets(ps, ts));
        }
        let ghost mid = out@;
        let mut b: usize = 0;
        while b < track_starts.len()
            invariant
                b <= track_starts@.len(),
                track_starts@.len() == ts.len(),
                forall|x: int|
                    0 <= x < ts.len() ==> #[trigger] track_starts@[x] == track_offset(ps, ts, x),
                out@ == mid + offsets_bytes(track_offsets(ps, ts).take(b as int)),
            decreases track_starts@.len() - b,
        {
            proof {
                assert(track_offsets(ps, ts).take(b + 1).drop_last() == track_offsets(ps, ts).take(
                    b as int,
                ));
            }
            let at = track_starts[b];
            out.push((at / 256) as u8);
            out.push((at % 256) as u8);
            assert(out@ =~= mid + offsets_bytes(track_offsets(ps, ts).take(b + 1)));
            b += 1;
        }
        proof {
            assert(track_offsets(ps, ts).take(ts.len() as int) == track_offsets(ps, ts));
        }
        out.append(&mut body);
        assert(out@ =~= song_bytes(ps, ts));
        out
    }

    /// Writes the song, or tells why it cannot be written.
    pub fn try_serialize(&self) -> (r: Result<Vec<u8>, FormatError>)
        ensures
            match r {
                Ok(out) => self.spec_error().is_none() && out@ == self.bytes(),
                Err(e) => self.spec_error() == Some(e),
            },
    {
        match self.check() {
            Some(e) => Err(e),
            None => Ok(self.serialize()),
        }
    }
}


/// The number that stands in two bytes of a song, the high byte first.
pub open spec fn read16(bytes: Seq<u8>, at: int) -> int {
    decode16(bytes[at], bytes[at + 1])
}

/// The head of a song of `patterns` patterns and `tracks` tracks is in
/// order: the length that it tells is the length of the song, the counts
/// are the numbers of patterns and tracks, and every offset of the table
/// points behind the table and not behind the song.
pub open spec fn header_consistent(bytes: Seq<u8>, patterns: int, tracks: int) -> bool {
    &&& header_len(patterns, tracks) <= bytes.len() <= SONG_MAX
    &&& read16(bytes, 0) == bytes.len()
    &&& bytes[2] == patterns
    &&& bytes[3] == tracks
    &&& forall|i: int|
        0 <= i < patterns + tracks ==> header_len(patterns, tracks) <= #[trigger] read16(
            bytes,
            4 + 2 * i,
        ) <= bytes.len()
}

proof fn lemma_offsets_bytes(offsets: Seq<int>, i: int)
    requires
        0 <= i < offsets.len(),
    ensures
        offsets_bytes(offsets).len() == 2 * offsets.len(),
        offsets_bytes(offsets)[2 * i] == (offsets[i] / 256) as u8,
        offsets_bytes(offsets)[2 * i + 1] == (offsets[i] % 256) as u8,
    decreases offsets.len(),
{
    lemma_offsets_len(offsets.drop_last());
    if i < offsets.len() - 1 {
        lemma_offsets_bytes(offsets.drop_last(), i);
    }
}

proof fn lemma_offsets_len(offsets: Seq<int>)
    ensures
        offsets_bytes(offsets).len() == 2 * offsets.len(),
    decreases offsets.len(),
{
    if offsets.len() > 0 {
        lemma_offsets_len(offsets.drop_last());
    }
}

proof fn lemma_be16_round_trip(x: int)
    requires
        0 <= x <= 0xffff,
    ensures
        decode16(be16(x)[0], be16(x)[1]) == x,
{
}

/// The bytes of the first `i` patterns stand at the start of the bytes of
/// all patterns, and pattern `i` follows them.
proof fn lemma_patterns_place(patterns: Seq<Seq<TrackEvent>>, i: int)
    requires
        0 <= i < patterns.len(),
    ensures
        patterns_bytes(patterns.take(i)).len() + events_bytes(patterns[i]).len() <= patterns_bytes(
            patterns,
        ).len(),
        patterns_bytes(patterns).subrange(
            patterns_bytes(patterns.take(i)).len() as int,
            (patterns_bytes(patterns.take(i)).len() + events_bytes(patterns[i]).len()) as int,
        ) == events_bytes(patterns[i]),
    decreases patterns.len(),
{
    let front = patterns.drop_last();
    let all = patterns_bytes(patterns);
    if i < patterns.len() - 1 {
        lemma_patterns_place(front, i);
        assert(front.take(i) == patterns.take(i));
        let a = patterns_bytes(patterns.take(i)).len() as int;
        let b = a + events_bytes(patterns[i]).len();
        assert(all.subrange(a, b) =~= patterns_bytes(front).subrange(a, b));
    } else {
        assert(patterns.take(i) == front);
        let a = patterns_bytes(front).len() as int;
        assert(all.subrange(a, all.len() as int) =~= events_bytes(patterns[i]));
    }
}

/// The bytes of the first `i` tracks stand at the start of the bytes of all
/// tracks, and track `i` follows them.
proof fn lemma_tracks_place(tracks: Seq<Seq<usize>>, i: int)
    requires
        0 <= i < tracks.len(),
    ensures
        tracks_bytes(tracks.take(i)).len() + tracks[i].len() <= tracks_bytes(tracks).len(),
        tracks_bytes(tracks).subrange(
            tracks_bytes(tracks.take(i)).len() as int,
            (tracks_bytes(tracks.take(i)).len() + tracks[i].len()) as int,
        ) == indices_bytes(tracks[i]),
    decreases tracks.len(),
{
    let front = tracks.drop_last();
    let all = tracks_bytes(tracks);
    if i < tracks.len() - 1 {
        lemma_tracks_place(front, i);
        assert(front.take(i) == tracks.take(i));
        let a = tracks_bytes(tracks.take(i)).len() as int;
        let b = a + tracks[i].len();
        assert(all.subrange(a, b) =~= tracks_bytes(front).subrange(a, b));
    } else {
        assert(tracks.take(i) == front);
        let a = tracks_bytes(front).len() as int;
        assert(all.subrange(a, all.len() as int) =~= indices_bytes(tracks[i]));
    }
}

/// A song that can be written is laid out as its head tells: the length in
/// the first two bytes is the length of the song, and the offset of every
/// pattern and of every track in the table is the place where its bytes
/// stand.
pub proof fn lemma_song_layout(patterns: Seq<Seq<TrackEvent>>, tracks: Seq<Seq<usize>>)
    requires
        format_error(patterns, tracks).is_none(),
    ensures
        song_bytes(patterns, tracks).len() == song_len(patterns, tracks),
        header_consistent(
            song_bytes(patterns, tracks),
            patterns.len() as int,
            tracks.len() as int,
        ),
        forall|i: int|
            0 <= i < patterns.len() ==> #[trigger] read16(song_bytes(patterns, tracks), 4 + 2 * i)
                == pattern_offset(patterns, tracks, i),
        forall|i: int|
            0 <= i < patterns.len() ==> song_bytes(patterns, tracks).subrange(
                pattern_offset(patterns, tracks, i),
                pattern_offset(patterns, tracks, i) + events_bytes(patterns[i]).len(),
            ) == events_bytes(#[trigger] patterns[i]),
        forall|i: int|
            0 <= i < tracks.len() ==> #[trigger] read16(
                song_bytes(patterns, tracks),
                4 + 2 * patterns.len() + 2 * i,
            ) == track_offset(patterns, tracks, i),
        forall|i: int|
            0 <= i < tracks.len() ==> song_bytes(patterns, tracks).subrange(
                track_offset(patterns, tracks, i),
                track_offset(patterns, tracks, i) + tracks[i].len(),
            ) == indices_bytes(#[trigger] tracks[i]),
{
    let bytes = song_bytes(patterns, tracks);
    let p = patterns.len() as int;
    let t = tracks.len() as int;
    let head = header_len(p, t);
    let po = pattern_offsets(patterns, tracks);
    let to = track_offsets(patterns, tracks);
    let pb = patterns_bytes(patterns);
    let tb = tracks_bytes(tracks);
    let total = song_len(patterns, tracks);
    lemma_offsets_len(po);
    lemma_offsets_len(to);
    assert(bytes.len() == total);
    lemma_be16_round_trip(total);
    assert(bytes[0] == be16(total)[0] && bytes[1] == be16(total)[1]);
    assert forall|i: int| 0 <= i < p implies {
        &&& #[trigger] read16(bytes, 4 + 2 * i) == pattern_offset(patterns, tracks, i)
        &&& head <= pattern_offset(patterns, tracks, i) <= total
    } by {
        lemma_offsets_bytes(po, i);
        lemma_patterns_prefix(patterns, i);
        let at = pattern_offset(patterns, tracks, i);
        assert(bytes[4 + 2 * i] == offsets_bytes(po)[2 * i]);
        assert(bytes[4 + 2 * i + 1] == offsets_bytes(po)[2 * i + 1]);
        lemma_be16_round_trip(at);
    }
    assert forall|i: int| 0 <= i < t implies {
        &&& #[trigger] read16(bytes, 4 + 2 * p + 2 * i) == track_offset(patterns, tracks, i)
        &&& head <= track_offset(patterns, tracks, i) <= total
    } by {
        lemma_offsets_bytes(to, i);
        lemma_tracks_prefix(tracks, i);
        let at = track_offset(patterns, tracks, i);
        assert(bytes[4 + 2 * p + 2 * i] == offsets_bytes(to)[2 * i]);
        assert(bytes[4 + 2 * p + 2 * i + 1] == offsets_bytes(to)[2 * i + 1]);
        lemma_be16_round_trip(at);
    }
    assert forall|i: int| 0 <= i < p + t implies head <= #[trigger] read16(bytes, 4 + 2 * i)
        <= bytes.len() by {
        if i < p {
            assert(read16(bytes, 4 + 2 * i) == pattern_offset(patterns, tracks, i));
        } else {
            assert(read16(bytes, 4 + 2 * p + 2 * (i - p)) == track_offset(patterns, tracks, i - p));
        }
    }
    assert forall|i: int| 0 <= i < p implies bytes.subrange(
        pattern_offset(patterns, tracks, i),
        pattern_offset(patterns, tracks, i) + events_bytes(patterns[i]).len(),
    ) == events_bytes(#[trigger] patterns[i]) by {
        lemma_patterns_place(patterns, i);
        let a = patterns_bytes(patterns.take(i)).len() as int;
        let n = events_bytes(patterns[i]).len() as int;
        assert(bytes.subrange(head + a, head + a + n) =~= pb.subrange(a, a + n));
    }
    assert forall|i: int| 0 <= i < t implies bytes.subrange(
        track_offset(patterns, tracks, i),
        track_offset(patterns, tracks, i) + tracks[i].len(),
    ) == indices_bytes(#[trigger] tracks[i]) by {
        lemma_tracks_place(tracks, i);
        let a = tracks_bytes(tracks.take(i)).len() as int;
        let n = tracks[i].len() as int;
        assert(bytes.subrange(head + pb.len() + a, head + pb.len() + a + n) =~= tb.subrange(
            a,
            a + n,
        ));
    }
}


/// The ticks of the wait that `bytes` tell, where they are a wait: the
/// reading that belongs to `TrackEvent::bytes`.
pub open spec fn wait_ticks(bytes: Seq<u8>) -> int {
    if bytes[0] == FMT_LONG_DELTA {
        decode16(bytes[1], bytes[2]) + FMT_SHORT_DELTA_COUNT + 1
    } else if bytes[0] == FMT_LONG_DELTA_NOTES_OFF {
        decode16(bytes[1], bytes[2]) + FMT_SHORT_DELTA_NOTES_OFF_COUNT + 1
    } else if FMT_SHORT_DELTA_START <= bytes[0] < FMT_SHORT_DELTA_START + FMT_SHORT_DELTA_COUNT {
        bytes[0] - FMT_SHORT_DELTA_START + 1
    } else {
        bytes[0] - FMT_SHORT_DELTA_NOTES_OFF_START + 1
    }
}

/// A wait can be written where it lasts from 1 to 65535 ticks, and there
/// only. What is written tells these ticks again: no wait of no tick is
/// ever written.
pub proof fn lemma_wait_legality(d: usize)
    ensures
        TrackEvent::Delta(d).spec_is_legal() <==> 1 <= d <= 0xffff,
        TrackEvent::DeltaNotesOff(d).spec_is_legal() <==> 1 <= d <= 0xffff,
        1 <= d <= 0xffff ==> wait_ticks(TrackEvent::Delta(d).bytes()) == d,
        1 <= d <= 0xffff ==> wait_ticks(TrackEvent::DeltaNotesOff(d).bytes()) == d,
{
    if 1 <= d <= 0xffff {
        if d > FMT_SHORT_DELTA_COUNT {
            lemma_be16_round_trip(d - FMT_SHORT_DELTA_COUNT - 1);
        }
        if d > FMT_SHORT_DELTA_NOTES_OFF_COUNT {
            lemma_be16_round_trip(d - FMT_SHORT_DELTA_NOTES_OFF_COUNT - 1);
        }
    }
}

/// A song that holds an event that cannot be written, such as a wait of no
/// tick or of more than 65535, is refused.
pub proof fn lemma_illegal_event_is_refused(
    patterns: Seq<Seq<TrackEvent>>,
    tracks: Seq<Seq<usize>>,
    i: int,
    j: int,
)
    requires
        0 <= i < patterns.len(),
        0 <= j < patterns[i].len(),
        !patterns[i][j].spec_is_legal(),
    ensures
        format_error(patterns, tracks).is_some(),
{
}

} // verus!
