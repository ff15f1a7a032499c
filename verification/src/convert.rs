//! Compiles a note file and the settings of its instruments into a song.
//!
//! The events of the note file are mapped, channel by channel, to track
//! events with waits in ticks of the chip. A wait followed by the end of
//! the notes becomes one event. The tracks are compressed into patterns
//! where that is asked for, and the song is written.

use vstd::prelude::*;
use vstd::utf8::valid_utf8;
use vstd::laws_eq::obeys_concrete_eq;
use crate::crunch::{
    clones_are_equal, copy_range, count_items, crunch_result, rows, total_items,
};
use crate::format::{
    format_error, header_consistent, lemma_song_layout, song_bytes, FormatError,
};
use crate::mapper::{MidiEventMapper, MidiEventMapperTrack};
use crate::midi::{channels_ok, is_utf8, note_file, read_midi, MidiEvent, MidiEventKind};
use crate::model::{SongConfig, TrackEvent, W4PlayerSong};
use crate::timing::{MidiTiming, TimingError};

verus! {

/// What a pattern costs: one byte to use it and two for its offset.
pub const PATTERN_CREATE_COST: usize = 3;

/// The limit that compression is given: the number of patterns that one
/// byte can number.
pub const DICT_MAX: usize = 256;

/// The controller that sets the pan.
pub const CONTROLLER_PAN: u8 = 10;

/// Why a note file cannot be compiled.
#[derive(Clone, Copy, Debug, PartialEq, Eq, Structural)]
pub enum ConvertError {
    /// The bytes hold no note file.
    Malformed,
    /// The tempo changes.
    TempoChange,
    /// The time signature changes.
    TimeSignatureChange,
    /// A track has two names.
    DuplicateTrackName,
    /// The name of a track is no text.
    InvalidTrackName,
    /// A note comes before the tempo and the time signature are known.
    TimingIndeterminate,
    /// A track lasts more ticks than the machine can count.
    TickOverflow,
    /// The tracks hold more events than the machine can count.
    TooManyEvents,
    /// The song cannot be written.
    Format(FormatError),
}

/// The reason that a timing gives, as a reason not to compile.
pub open spec fn spec_timing_error(e: TimingError) -> ConvertError {
    match e {
        TimingError::TempoChange => ConvertError::TempoChange,
        TimingError::TimeSignatureChange => ConvertError::TimeSignatureChange,
        TimingError::Indeterminate => ConvertError::TimingIndeterminate,
    }
}

/// The reason that a timing gives, as a reason not to compile.
#[verifier::when_used_as_spec(spec_timing_error)]
pub fn timing_error(e: TimingError) -> (r: ConvertError)
    ensures
        r == spec_timing_error(e),
{
    match e {
        TimingError::TempoChange => ConvertError::TempoChange,
        TimingError::TimeSignatureChange => ConvertError::TimeSignatureChange,
        TimingError::Indeterminate => ConvertError::TimingIndeterminate,
    }
}

/// How far the mapping of a note file has come, as a value of
/// specifications.
pub struct Progress {
    pub timing: MidiTiming,
    /// What the mapper knows of each channel.
    pub channels: Seq<MidiEventMapperTrack>,
    /// The track events of each channel so far.
    pub events: Seq<Seq<TrackEvent>>,
    /// The tick of the chip of the last event of each channel.
    pub last_tick: Seq<usize>,
    /// The track of the note file that is being read has a name.
    pub named: bool,
    /// The ticks of the note file since the start of the track that is
    /// being read.
    pub ticks: usize,
}

/// The mapping before anything is read: every channel asks for its
/// instrument of `conf`.
pub open spec fn initial_progress(conf: SongConfig, stretch: bool) -> Progress {
    Progress {
        timing: MidiTiming {
            tempo: None,
            timesig: None,
            result: None,
            accumulated_inaccuracy: 0,
            stretch,
        },
        channels: Seq::new(
            16,
            |ch: int|
                MidiEventMapperTrack::initial().with_instrument(
                    conf.channels@[ch].spec_instrument(),
                ),
        ),
        events: Seq::new(16, |ch: int| Seq::empty()),
        last_tick: Seq::new(16, |ch: int| 0usize),
        named: false,
        ticks: 0,
    }
}

/// The mapping at the start of a track of the note file.
pub open spec fn begin_track(p: Progress) -> Progress {
    Progress { named: false, ticks: 0, ..p }
}

/// The mapping after the events `buffer` have come up on channel `ch`. If
/// there are any, they stand at the tick of the chip that the ticks of the
/// note file so far come to; where that is later than the last event of
/// the channel, a wait for the ticks between goes first.
pub open spec fn emit(p: Progress, ch: int, buffer: Seq<TrackEvent>) -> Result<
    Progress,
    ConvertError,
> {
    if buffer.len() == 0 {
        Ok(p)
    } else {
        match p.timing.ticks_result(p.ticks) {
            Err(e) => Err(spec_timing_error(e)),
            Ok(at) => {
                let late = at > p.last_tick[ch];
                let waited = if late {
                    p.events[ch].push(TrackEvent::Delta((at - p.last_tick[ch]) as usize))
                } else {
                    p.events[ch]
                };
                Ok(
                    Progress {
                        timing: p.timing.after_ticks(p.ticks),
                        events: p.events.update(ch, waited + buffer),
                        last_tick: if late {
                            p.last_tick.update(ch, at)
                        } else {
                            p.last_tick
                        },
                        ..p
                    },
                )
            },
        }
    }
}

/// The mapping with what the mapper knows of channel `ch` replaced.
pub open spec fn with_channel(p: Progress, ch: int, track: MidiEventMapperTrack) -> Progress {
    Progress { channels: p.channels.update(ch, track), ..p }
}

/// The mapping after an event of the note file, or why the file cannot be
/// compiled.
pub open spec fn handle(p: Progress, kind: MidiEventKind) -> Result<Progress, ConvertError> {
    match kind {
        MidiEventKind::NoteOn { channel, key, vel } => emit(
            with_channel(p, channel as int, p.channels[channel as int].after_note_on(key, vel)),
            channel as int,
            p.channels[channel as int].note_on_events(key, vel),
        ),
        MidiEventKind::NoteOff { channel, key } => emit(
            with_channel(p, channel as int, p.channels[channel as int].after_init()),
            channel as int,
            p.channels[channel as int].note_off_events(key),
        ),
        MidiEventKind::Controller { channel, controller, value } => Ok(
            if controller == CONTROLLER_PAN {
                with_channel(p, channel as int, p.channels[channel as int].after_pan(value))
            } else {
                p
            },
        ),
        MidiEventKind::OtherMidi { channel } => Ok(p),
        MidiEventKind::Tempo(tempo) => match p.timing.tempo_result(tempo) {
            Ok(timing) => Ok(Progress { timing, ..p }),
            Err(e) => Err(spec_timing_error(e)),
        },
        MidiEventKind::TimeSignature(a, b, c, d) => match p.timing.timesig_result((a, b, c, d)) {
            Ok(timing) => Ok(Progress { timing, ..p }),
            Err(e) => Err(spec_timing_error(e)),
        },
        MidiEventKind::TrackName(name) => if p.named {
            Err(ConvertError::DuplicateTrackName)
        } else if !valid_utf8(name@) {
            Err(ConvertError::InvalidTrackName)
        } else {
            Ok(Progress { named: true, ..p })
        },
        MidiEventKind::EndOfTrack => Ok(p),
        MidiEventKind::Unhandled => Ok(p),
    }
}

/// The mapping after the ticks of an event have passed and the event has
/// been handled.
pub open spec fn step(p: Progress, e: MidiEvent) -> Result<Progress, ConvertError> {
    if p.ticks + e.delta > usize::MAX {
        Err(ConvertError::TickOverflow)
    } else {
        handle(Progress { ticks: (p.ticks + e.delta) as usize, ..p }, e.kind)
    }
}

/// The mapping after some events of one track of the note file.
pub open spec fn run_events(p: Progress, events: Seq<MidiEvent>) -> Result<Progress, ConvertError>
    decreases events.len(),
{
    if events.len() == 0 {
        Ok(p)
    } else {
        match run_events(p, events.drop_last()) {
            Ok(q) => step(q, events.last()),
            Err(e) => Err(e),
        }
    }
}

/// The mapping after some tracks of the note file.
pub open spec fn run_tracks(p: Progress, tracks: Seq<Seq<MidiEvent>>) -> Result<
    Progress,
    ConvertError,
>
    decreases tracks.len(),
{
    if tracks.len() == 0 {
        Ok(p)
    } else {
        match run_tracks(p, tracks.drop_last()) {
            Ok(q) => run_events(begin_track(q), tracks.last()),
            Err(e) => Err(e),
        }
    }
}

/// The tracks that hold an event, in their order.
pub open spec fn nonempty<T>(tracks: Seq<Seq<T>>) -> Seq<Seq<T>>
    decreases tracks.len(),
{
    if tracks.len() == 0 {
        Seq::empty()
    } else if tracks.last().len() > 0 {
        nonempty(tracks.drop_last()).push(tracks.last())
    } else {
        nonempty(tracks.drop_last())
    }
}

/// The track events that a note file is mapped to: one track for each
/// channel that has an event.
pub open spec fn track_events_of(conf: SongConfig, midi: Seq<Seq<MidiEvent>>, stretch: bool) -> Result<
    Seq<Seq<TrackEvent>>,
    ConvertError,
> {
    match run_tracks(initial_progress(conf, stretch), midi) {
        Ok(p) => Ok(nonempty(p.events)),
        Err(e) => Err(e),
    }
}

proof fn lemma_run_events_fails(p: Progress, events: Seq<MidiEvent>, i: int)
    requires
        0 <= i <= events.len(),
        run_events(p, events.take(i)) is Err,
    ensures
        run_events(p, events) == run_events(p, events.take(i)),
    decreases events.len() - i,
{
    if i < events.len() {
        assert(events.take(i + 1).drop_last() == events.take(i));
        lemma_run_events_fails(p, events, i + 1);
    } else {
        assert(events.take(i) == events);
    }
}

proof fn lemma_run_tracks_fails(p: Progress, tracks: Seq<Seq<MidiEvent>>, i: int)
    requires
        0 <= i <= tracks.len(),
        run_tracks(p, tracks.take(i)) is Err,
    ensures
        run_tracks(p, tracks) == run_tracks(p, tracks.take(i)),
    decreases tracks.len() - i,
{
    if i < tracks.len() {
        assert(tracks.take(i + 1).drop_last() == tracks.take(i));
        lemma_run_tracks_fails(p, tracks, i + 1);
    } else {
        assert(tracks.take(i) == tracks);
    }
}

/// How far the mapping of a note file has come.
pub struct Conversion {
    pub timing: MidiTiming,
    pub mapper: MidiEventMapper,
    pub track_events: Vec<Vec<TrackEvent>>,
    pub last_event_tick: [usize; 16],
    pub track_named: bool,
    pub midi_ticks: usize,
}

impl View for Conversion {
    type V = Progress;

    open spec fn view(&self) -> Progress {
        Progress {
            timing: self.timing,
            channels: self.mapper.tracks@,
            events: rows(self.track_events@),
            last_tick: self.last_event_tick@,
            named: self.track_named,
            ticks: self.midi_ticks,
        }
    }
}

impl Conversion {
    /// There is a track for each channel, and the timing is in order.
    pub open spec fn wf(&self) -> bool {
        self.timing.wf() && self.track_events@.len() == 16
    }

    /// The mapping before anything is read.
    pub fn new(conf: &SongConfig, stretch: bool) -> (r: Conversion)
        ensures
            r.wf(),
            r@ == initial_progress(*conf, stretch),
    {
        let mut mapper = MidiEventMapper::new();
        mapper.set_tracks(&conf.channels);
        let mut track_events: Vec<Vec<TrackEvent>> = Vec::new();
        let mut ch: usize = 0;
        while ch < 16
            invariant
                ch <= 16,
                track_events@.len() == ch,
                forall|i: int| 0 <= i < ch ==> (#[trigger] track_events@[i])@ == Seq::<
                    TrackEvent,
                >::empty(),
            decreases 16 - ch,
        {
            track_events.push(Vec::new());
            ch += 1;
        }
        let r = Conversion {
            timing: MidiTiming::new(stretch),
            mapper,
            track_events,
            last_event_tick: [0usize;16],
            track_named: false,
            midi_ticks: 0,
        };
        proof {
            let want = initial_progress(*conf, stretch);
            assert(r@.channels =~= want.channels);
            assert(r@.events =~= want.events);
            assert(r@.last_tick =~= want.last_tick);
        }
        r
    }

    /// Puts the events of `buffer`, if there are any, on channel `ch` at
    /// the tick that the note file has come to.
    pub fn emit(&mut self, ch: u8, buffer: &Vec<TrackEvent>) -> (r: Result<(), ConvertError>)
        requires
            old(self).wf(),
            ch < 16,
        ensures
            match emit(old(self)@, ch as int, buffer@) {
                Ok(p) => r.is_ok() && final(self)@ == p && final(self).wf(),
                Err(e) => r == Err::<(), ConvertError>(e),
            },
    {
        if buffer.len() == 0 {
            return Ok(());
        }
        let at = match self.timing.get_w4_ticks(self.midi_ticks) {
            Ok(at) => at,
            Err(e) => {
                return Err(timing_error(e));
            },
        };
        let ghost before = self@;
        let last = self.last_event_tick[ch as usize];
        let mut events: Vec<TrackEvent> = Vec::new();
        core::mem::swap(&mut events, &mut self.track_events[ch as usize]);
        if at > last {
            events.push(TrackEvent::Delta(at - last));
            self.last_event_tick[ch as usize] = at;
        }
        let mut i: usize = 0;
        let ghost waited = events@;
        while i < buffer.len()
            invariant
                i <= buffer@.len(),
                events@ == waited + buffer@.take(i as int),
            decreases buffer@.len() - i,
        {
            events.push(buffer[i]);
            assert(buffer@.take(i + 1) == buffer@.take(i as int).push(buffer@[i as int]));
            i += 1;
        }
        assert(buffer@.take(buffer@.len() as int) == buffer@);
        self.track_events[ch as usize] = events;
        proof {
            let want = emit(old(self)@, ch as int, buffer@).unwrap();
            assert(self@.events =~= want.events);
            assert(self@.last_tick =~= want.last_tick);
        }
        Ok(())
    }

    /// Handles an event of the note file.
    pub fn handle(&mut self, kind: &MidiEventKind) -> (r: Result<(), ConvertError>)
        requires
            old(self).wf(),
            kind.channel_ok(),
        ensures
            match handle(old(self)@, *kind) {
                Ok(p) => r.is_ok() && final(self)@ == p && final(self).wf(),
                Err(e) => r == Err::<(), ConvertError>(e),
            },
    {
        match kind {
            MidiEventKind::NoteOn { channel, key, vel } => {
                let mut buffer: Vec<TrackEvent> = Vec::new();
                self.mapper.note_on(&mut buffer, *channel, *key, *vel);
                assert(buffer@ =~= old(self)@.channels[*channel as int].note_on_events(*key, *vel));
                self.emit(*channel, &buffer)
            },
            MidiEventKind::NoteOff { channel, key } => {
                let mut buffer: Vec<TrackEvent> = Vec::new();
                self.mapper.note_off(&mut buffer, *channel, *key);
                assert(buffer@ =~= old(self)@.channels[*channel as int].note_off_events(*key));
                self.emit(*channel, &buffer)
            },
            MidiEventKind::Controller { channel, controller, value } => {
                if *controller == CONTROLLER_PAN {
                    self.mapper.pan(*channel, *value);
                }
                Ok(())
            },
            MidiEventKind::OtherMidi { .. } => Ok(()),
            MidiEventKind::Tempo(tempo) => match self.timing.set_tempo(*tempo) {
                Ok(()) => Ok(()),
                Err(e) => Err(timing_error(e)),
            },
            MidiEventKind::TimeSignature(a, b, c, d) => match self.timing.set_timesig(
                (*a, *b, *c, *d),
            ) {
                Ok(()) => Ok(()),
                Err(e) => Err(timing_error(e)),
            },
            MidiEventKind::TrackName(name) => {
                if self.track_named {
                    Err(ConvertError::DuplicateTrackName)
                } else if !is_utf8(name.as_slice()) {
                    Err(ConvertError::InvalidTrackName)
                } else {
                    self.track_named = true;
                    Ok(())
                }
            },
            MidiEventKind::EndOfTrack => Ok(()),
            MidiEventKind::Unhandled => Ok(()),
        }
    }

    /// Lets the ticks of an event pass and handles the event.
    pub fn step(&mut self, event: &MidiEvent) -> (r: Result<(), ConvertError>)
        requires
            old(self).wf(),
            event.kind.channel_ok(),
        ensures
            match step(old(self)@, *event) {
                Ok(p) => r.is_ok() && final(self)@ == p && final(self).wf(),
                Err(e) => r == Err::<(), ConvertError>(e),
            },
    {
        if event.delta as usize > usize::MAX - self.midi_ticks {
            return Err(ConvertError::TickOverflow);
        }
        self.midi_ticks = self.midi_ticks + event.delta as usize;
        self.handle(&event.kind)
    }
}


/// Maps the events of a note file to track events: one track for each
/// channel that has an event, with waits in ticks of the chip.
pub fn midi_to_track_events(def: &SongConfig, midi: &Vec<Vec<MidiEvent>>, stretch: bool) -> (r:
    Result<Vec<Vec<TrackEvent>>, ConvertError>)
    requires
        channels_ok(rows(midi@)),
    ensures
        match track_events_of(*def, rows(midi@), stretch) {
            Ok(tracks) => r.is_ok() && rows(r.unwrap()@) == tracks,
            Err(e) => r == Err::<Vec<Vec<TrackEvent>>, ConvertError>(e),
        },
{
    let ghost first = initial_progress(*def, stretch);
    let ghost all = rows(midi@);
    let mut conversion = Conversion::new(def, stretch);
    let mut t: usize = 0;
    assert(all.take(0) =~= Seq::<Seq<MidiEvent>>::empty());
    while t < midi.len()
        invariant
            first == initial_progress(*def, stretch),
            all == rows(midi@),
            channels_ok(all),
            t <= midi@.len(),
            conversion.wf(),
            run_tracks(first, all.take(t as int)) == Ok::<Progress, ConvertError>(conversion@),
        decreases midi@.len() - t,
    {
        let events = &midi[t];
        let ghost start = begin_track(conversion@);
        conversion.track_named = false;
        conversion.midi_ticks = 0;
        proof {
            assert(all.take(t + 1).drop_last() == all.take(t as int));
            assert(all.take(t + 1).last() == events@);
            assert(events@.take(0) =~= Seq::<MidiEvent>::empty());
        }
        let mut i: usize = 0;
        while i < events.len()
            invariant
                first == initial_progress(*def, stretch),
                all == rows(midi@),
                channels_ok(all),
                t < midi@.len(),
                *events == midi@[t as int],
                i <= events@.len(),
                conversion.wf(),
                run_events(start, events@.take(i as int)) == Ok::<Progress, ConvertError>(
                    conversion@,
                ),
                run_tracks(first, all.take(t as int)) is Ok,
                start == begin_track(run_tracks(first, all.take(t as int)).unwrap()),
            decreases events@.len() - i,
        {
            proof {
                assert(events@.take(i + 1).drop_last() == events@.take(i as int));
                assert(events@.take(i + 1).last() == events@[i as int]);
                assert(all[t as int][i as int].kind.channel_ok());
            }
            let ghost before = conversion@;
            match conversion.step(&events[i]) {
                Ok(()) => {},
                Err(e) => {
                    proof {
                        assert(step(before, events@[i as int]) == Err::<Progress, ConvertError>(e));
                        assert(run_events(start, events@.take(i + 1)) == Err::<
                            Progress,
                            ConvertError,
                        >(e));
                        lemma_run_events_fails(start, events@, i + 1);
                        assert(run_events(start, events@) == Err::<Progress, ConvertError>(e));
                        assert(all.take(t + 1).drop_last() == all.take(t as int));
                        assert(all.take(t + 1).last() == events@);
                        assert(run_tracks(first, all.take(t + 1)) == Err::<Progress, ConvertError>(
                            e,
                        ));
                        lemma_run_tracks_fails(first, all, t + 1);
                    }
                    return Err(e);
                },
            }
            i += 1;
        }
        proof {
            assert(events@.take(events@.len() as int) == events@);
        }
        t += 1;
    }
    proof {
        assert(all.take(midi@.len() as int) == all);
    }
    Ok(keep_nonempty(&conversion.track_events))
}

/// `clone` on a track event hands back the event.
pub proof fn lemma_track_event_clones()
    ensures
        clones_are_equal::<TrackEvent>(),
{
}

/// `==` on track events is equality.
pub proof fn lemma_track_event_eq()
    ensures
        obeys_concrete_eq::<TrackEvent>(),
{
    reveal(obeys_concrete_eq);
}

/// Copies the tracks that hold an event.
fn keep_nonempty(tracks: &Vec<Vec<TrackEvent>>) -> (out: Vec<Vec<TrackEvent>>)
    ensures
        rows(out@) == nonempty(rows(tracks@)),
{
    let ghost all = rows(tracks@);
    let mut out: Vec<Vec<TrackEvent>> = Vec::new();
    let mut t: usize = 0;
    assert(rows(out@) =~= nonempty(all.take(0)));
    while t < tracks.len()
        invariant
            all == rows(tracks@),
            t <= tracks@.len(),
            rows(out@) == nonempty(all.take(t as int)),
        decreases tracks@.len() - t,
    {
        proof {
            assert(all.take(t + 1).drop_last() == all.take(t as int));
            assert(all.take(t + 1).last() == tracks@[t as int]@);
        }
        let track = &tracks[t];
        if track.len() > 0 {
            proof {
                lemma_track_event_clones();
            }
            let copy = copy_range(track, 0, track.len());
            assert(copy@ == track@) by {
                assert(track@.subrange(0, track@.len() as int) == track@);
            }
            assert(rows(out@.push(copy)) =~= rows(out@).push(copy@));
            out.push(copy);
        }
        t += 1;
    }
    proof {
        assert(all.take(tracks@.len() as int) == all);
    }
    out
}

/// A track with every wait that the end of the notes follows turned, with
/// it, into one event.
pub open spec fn collapse_events(events: Seq<TrackEvent>) -> Seq<TrackEvent>
    decreases events.len(),
{
    if events.len() == 0 {
        Seq::empty()
    } else {
        let front = collapse_events(events.drop_last());
        if events.last() is NotesOff && front.len() > 0 && front.last() is Delta {
            front.drop_last().push(TrackEvent::DeltaNotesOff(front.last()->Delta_0))
        } else {
            front.push(events.last())
        }
    }
}

/// The tracks that hold an event, each collapsed.
pub open spec fn collapse_all(tracks: Seq<Seq<TrackEvent>>) -> Seq<Seq<TrackEvent>>
    decreases tracks.len(),
{
    if tracks.len() == 0 {
        Seq::empty()
    } else if tracks.last().len() > 0 {
        collapse_all(tracks.drop_last()).push(collapse_events(tracks.last()))
    } else {
        collapse_all(tracks.drop_last())
    }
}

/// Drops the tracks without events and, in the others, turns every wait
/// that the end of the notes follows, with it, into one event.
pub fn collapse_tracks(tracks: Vec<Vec<TrackEvent>>) -> (out: Vec<Vec<TrackEvent>>)
    ensures
        rows(out@) == collapse_all(rows(tracks@)),
{
    let ghost all = rows(tracks@);
    let mut out: Vec<Vec<TrackEvent>> = Vec::new();
    let mut t: usize = 0;
    assert(rows(out@) =~= collapse_all(all.take(0)));
    while t < tracks.len()
        invariant
            all == rows(tracks@),
            t <= tracks@.len(),
            rows(out@) == collapse_all(all.take(t as int)),
        decreases tracks@.len() - t,
    {
        proof {
            assert(all.take(t + 1).drop_last() == all.take(t as int));
            assert(all.take(t + 1).last() == tracks@[t as int]@);
        }
        let track = &tracks[t];
        if track.len() > 0 {
            let mut new_track: Vec<TrackEvent> = Vec::new();
            let mut i: usize = 0;
            while i < track.len()
                invariant
                    i <= track@.len(),
                    new_track@ == collapse_events(track@.take(i as int)),
                decreases track@.len() - i,
            {
                proof {
                    assert(track@.take(i + 1).drop_last() == track@.take(i as int));
                    assert(track@.take(i + 1).last() == track@[i as int]);
                }
                let e = track[i];
                let mut fused = false;
                if let TrackEvent::NotesOff = e {
                    let n = new_track.len();
                    if n > 0 {
                        if let TrackEvent::Delta(d) = new_track[n - 1] {
                            new_track.pop();
                            new_track.push(TrackEvent::DeltaNotesOff(d));
                            fused = true;
                        }
                    }
                }
                if !fused {
                    new_track.push(e);
                }
                i += 1;
            }
            proof {
                assert(track@.take(track@.len() as int) == track@);
                assert(rows(out@.push(new_track)) =~= rows(out@).push(new_track@));
            }
            out.push(new_track);
        }
        t += 1;
    }
    proof {
        assert(all.take(tracks@.len() as int) == all);
    }
    out
}

/// The patterns and the tracks of a song. With `crunch` the tracks are
/// compressed; without, every track is a pattern of its own.
pub open spec fn song_of(tracks: Seq<Seq<TrackEvent>>, crunch: bool) -> (
    Seq<Seq<TrackEvent>>,
    Seq<Seq<usize>>,
) {
    if crunch {
        crunch_result(tracks, DICT_MAX as int, PATTERN_CREATE_COST as int)
    } else {
        (tracks, Seq::new(tracks.len(), |i: int| seq![i as usize]))
    }
}

/// The song that the tracks of a note file compile to, or why they compile
/// to none.
pub open spec fn convert_result(
    conf: SongConfig,
    midi: Seq<Seq<MidiEvent>>,
    stretch: bool,
    crunch: bool,
) -> Result<Seq<u8>, ConvertError> {
    match track_events_of(conf, midi, stretch) {
        Err(e) => Err(e),
        Ok(raw) => {
            let tracks = collapse_all(raw);
            if crunch && total_items(tracks) > usize::MAX {
                Err(ConvertError::TooManyEvents)
            } else {
                let song = song_of(tracks, crunch);
                match format_error(song.0, song.1) {
                    Some(e) => Err(ConvertError::Format(e)),
                    None => Ok(song_bytes(song.0, song.1)),
                }
            }
        },
    }
}

/// The outcome `r` is the one that `want` tells.
pub open spec fn outcome_is(r: Result<Vec<u8>, ConvertError>, want: Result<Seq<u8>, ConvertError>) -> bool {
    match want {
        Ok(bytes) => r.is_ok() && r.unwrap()@ == bytes,
        Err(e) => r == Err::<Vec<u8>, ConvertError>(e),
    }
}

/// Compiles the tracks of a note file and the settings of its instruments
/// into a song.
pub fn convert_events(conf: &SongConfig, midi: &Vec<Vec<MidiEvent>>, stretch: bool, crunch: bool) -> (r:
    Result<Vec<u8>, ConvertError>)
    requires
        channels_ok(rows(midi@)),
    ensures
        outcome_is(r, convert_result(*conf, rows(midi@), stretch, crunch)),
{
    let raw = match midi_to_track_events(conf, midi, stretch) {
        Ok(raw) => raw,
        Err(e) => {
            return Err(e);
        },
    };
    let tracks = collapse_tracks(raw);
    let song = if crunch {
        if count_items(&tracks).is_none() {
            return Err(ConvertError::TooManyEvents);
        }
        proof {
            lemma_track_event_clones();
            lemma_track_event_eq();
        }
        let (dict, usages) = crate::crunch::crunch(tracks, DICT_MAX, PATTERN_CREATE_COST);
        W4PlayerSong { patterns: dict, tracks: usages }
    } else {
        let mut usages: Vec<Vec<usize>> = Vec::new();
        let mut i: usize = 0;
        while i < tracks.len()
            invariant
                i <= tracks@.len(),
                usages@.len() == i,
                forall|k: int| 0 <= k < i ==> (#[trigger] usages@[k])@ == seq![k as usize],
            decreases tracks@.len() - i,
        {
            let mut one: Vec<usize> = Vec::new();
            one.push(i);
            assert(one@ =~= seq![i]);
            usages.push(one);
            i += 1;
        }
        assert(rows(usages@) =~= Seq::new(rows(tracks@).len(), |i: int| seq![i as usize]));
        W4PlayerSong { patterns: tracks, tracks: usages }
    };
    match song.try_serialize() {
        Ok(bytes) => Ok(bytes),
        Err(e) => Err(ConvertError::Format(e)),
    }
}

/// Compiles a note file and the settings of its instruments into a song.
/// Bytes that hold no note file, or one that the parser cannot be given, are
/// `Malformed`.
pub fn convert(conf: &SongConfig, midi_bytes: &[u8], stretch: bool, crunch: bool) -> (r: Result<
    Vec<u8>,
    ConvertError,
>)
    ensures
        match note_file(midi_bytes@) {
            Some(midi) => outcome_is(r, convert_result(*conf, midi, stretch, crunch)),
            None => r == Err::<Vec<u8>, ConvertError>(ConvertError::Malformed),
        },
{
    match read_midi(midi_bytes) {
        Some(midi) => convert_events(conf, &midi, stretch, crunch),
        None => Err(ConvertError::Malformed),
    }
}


/// The patterns and the tracks of the song that the tracks of a note file
/// compile to.
pub open spec fn compiled_song(
    conf: SongConfig,
    midi: Seq<Seq<MidiEvent>>,
    stretch: bool,
    crunch: bool,
) -> (Seq<Seq<TrackEvent>>, Seq<Seq<usize>>) {
    song_of(collapse_all(track_events_of(conf, midi, stretch)->Ok_0), crunch)
}

/// A song that compiling gives is laid out as its head tells: the first
/// two bytes tell its length, and every offset of its table points into
/// it.
pub proof fn lemma_convert_output_layout(
    conf: SongConfig,
    midi: Seq<Seq<MidiEvent>>,
    stretch: bool,
    crunch: bool,
)
    requires
        convert_result(conf, midi, stretch, crunch) is Ok,
    ensures
        convert_result(conf, midi, stretch, crunch)->Ok_0 == song_bytes(
            compiled_song(conf, midi, stretch, crunch).0,
            compiled_song(conf, midi, stretch, crunch).1,
        ),
        header_consistent(
            convert_result(conf, midi, stretch, crunch)->Ok_0,
            compiled_song(conf, midi, stretch, crunch).0.len() as int,
            compiled_song(conf, midi, stretch, crunch).1.len() as int,
        ),
{
    let song = compiled_song(conf, midi, stretch, crunch);
    lemma_song_layout(song.0, song.1);
}


/// The event is no wait of no tick.
pub open spec fn no_empty_wait(e: TrackEvent) -> bool {
    match e {
        TrackEvent::Delta(d) => d >= 1,
        TrackEvent::DeltaNotesOff(d) => d >= 1,
        _ => true,
    }
}

/// No event of the run is a wait of no tick.
pub open spec fn waits_last(events: Seq<TrackEvent>) -> bool {
    forall|i: int| 0 <= i < events.len() ==> no_empty_wait(#[trigger] events[i])
}

/// No event of any track is a wait of no tick.
pub open spec fn all_waits_last(tracks: Seq<Seq<TrackEvent>>) -> bool {
    forall|t: int| 0 <= t < tracks.len() ==> waits_last(#[trigger] tracks[t])
}

proof fn lemma_waits_concat(a: Seq<TrackEvent>, b: Seq<TrackEvent>)
    requires
        waits_last(a),
        waits_last(b),
    ensures
        waits_last(a + b),
{
    assert forall|i: int| 0 <= i < (a + b).len() implies no_empty_wait(#[trigger] (a + b)[i]) by {
        if i < a.len() {
            assert((a + b)[i] == a[i]);
        } else {
            assert((a + b)[i] == b[i - a.len()]);
        }
    }
}

/// What the mapper puts before and after a note holds no wait.
proof fn lemma_mapper_events_wait(track: MidiEventMapperTrack, key: u8, vel: u8)
    ensures
        waits_last(track.init_events()),
        waits_last(track.note_on_events(key, vel)),
        waits_last(track.note_off_events(key)),
{
    let c = track.cur_conf;
    let w = track.want_conf;
    let flags = crate::mapper::when(
        c.channel != w.channel,
        TrackEvent::SetFlags(w.channel.spec_wasm4_flags()),
    );
    let volume = crate::mapper::when(c.volume != w.volume, TrackEvent::SetVolume(w.volume));
    let adsr = crate::mapper::when(c.adsr != w.adsr, TrackEvent::SetADSR(w.adsr));
    let arpeggio = crate::mapper::when(c.arpeggio != w.arpeggio, TrackEvent::SetArpeggio(w.arpeggio));
    let portamento = crate::mapper::when(
        c.portamento != w.portamento,
        TrackEvent::SetPortamento(w.portamento),
    );
    let pitch_env = crate::mapper::when(
        c.pitch_env != w.pitch_env,
        TrackEvent::SetPitchEnv(w.pitch_env),
    );
    let vibrato = crate::mapper::when(c.vibrato != w.vibrato, TrackEvent::SetVibrato(w.vibrato));
    lemma_waits_concat(flags, volume);
    lemma_waits_concat(flags + volume, adsr);
    lemma_waits_concat(flags + volume + adsr, arpeggio);
    lemma_waits_concat(flags + volume + adsr + arpeggio, portamento);
    lemma_waits_concat(flags + volume + adsr + arpeggio + portamento, pitch_env);
    lemma_waits_concat(flags + volume + adsr + arpeggio + portamento + pitch_env, vibrato);
    let init = track.init_events();
    let velocity = crate::mapper::when(track.cur_vel != vel, TrackEvent::SetVelocity(vel));
    let pan = crate::mapper::when(
        track.cur_pan != track.want_pan,
        TrackEvent::SetPan(track.want_pan),
    );
    lemma_waits_concat(init, velocity);
    lemma_waits_concat(init + velocity, pan);
    lemma_waits_concat(init + velocity + pan, seq![TrackEvent::NoteOn(key)]);
    lemma_waits_concat(init, crate::mapper::when(track.cur_key == key, TrackEvent::NotesOff));
}

proof fn lemma_emit_waits(p: Progress, ch: int, buffer: Seq<TrackEvent>)
    requires
        0 <= ch < p.events.len(),
        p.last_tick.len() == p.events.len(),
        all_waits_last(p.events),
        waits_last(buffer),
        emit(p, ch, buffer) is Ok,
    ensures
        all_waits_last(emit(p, ch, buffer)->Ok_0.events),
        emit(p, ch, buffer)->Ok_0.events.len() == p.events.len(),
        emit(p, ch, buffer)->Ok_0.last_tick.len() == p.events.len(),
        emit(p, ch, buffer)->Ok_0.channels == p.channels,
{
    if buffer.len() > 0 {
        let at = p.timing.ticks_result(p.ticks)->Ok_0;
        let q = emit(p, ch, buffer)->Ok_0;
        let waited = if at > p.last_tick[ch] {
            p.events[ch].push(TrackEvent::Delta((at - p.last_tick[ch]) as usize))
        } else {
            p.events[ch]
        };
        assert(waits_last(p.events[ch]));
        assert(waits_last(waited)) by {
            if at > p.last_tick[ch] {
                lemma_waits_concat(
                    p.events[ch],
                    seq![TrackEvent::Delta((at - p.last_tick[ch]) as usize)],
                );
                assert(waited =~= p.events[ch] + seq![
                    TrackEvent::Delta((at - p.last_tick[ch]) as usize),
                ]);
            }
        }
        lemma_waits_concat(waited, buffer);
        assert forall|t: int| 0 <= t < q.events.len() implies waits_last(#[trigger] q.events[t]) by {
            if t != ch {
                assert(q.events[t] == p.events[t]);
            }
        }
    }
}

/// The state of a mapping in which no wait lasts no tick.
pub open spec fn progress_ok(p: Progress) -> bool {
    p.events.len() == 16 && p.last_tick.len() == 16 && p.channels.len() == 16 && all_waits_last(
        p.events,
    )
}

proof fn lemma_step_waits(p: Progress, e: MidiEvent)
    requires
        progress_ok(p),
        e.kind.channel_ok(),
        step(p, e) is Ok,
    ensures
        progress_ok(step(p, e)->Ok_0),
{
    let q = Progress { ticks: (p.ticks + e.delta) as usize, ..p };
    match e.kind {
        MidiEventKind::NoteOn { channel, key, vel } => {
            lemma_mapper_events_wait(p.channels[channel as int], key, vel);
            lemma_emit_waits(
                with_channel(q, channel as int, q.channels[channel as int].after_note_on(key, vel)),
                channel as int,
                q.channels[channel as int].note_on_events(key, vel),
            );
        },
        MidiEventKind::NoteOff { channel, key } => {
            lemma_mapper_events_wait(p.channels[channel as int], key, 0);
            lemma_emit_waits(
                with_channel(q, channel as int, q.channels[channel as int].after_init()),
                channel as int,
                q.channels[channel as int].note_off_events(key),
            );
        },
        _ => {},
    }
}

proof fn lemma_run_events_waits(p: Progress, events: Seq<MidiEvent>)
    requires
        progress_ok(p),
        forall|i: int| 0 <= i < events.len() ==> (#[trigger] events[i]).kind.channel_ok(),
        run_events(p, events) is Ok,
    ensures
        progress_ok(run_events(p, events)->Ok_0),
    decreases events.len(),
{
    if events.len() > 0 {
        assert forall|i: int| 0 <= i < events.drop_last().len() implies (
        #[trigger] events.drop_last()[i]).kind.channel_ok() by {
            assert(events.drop_last()[i] == events[i]);
        }
        lemma_run_events_waits(p, events.drop_last());
        assert(events[events.len() - 1].kind.channel_ok());
        lemma_step_waits(run_events(p, events.drop_last())->Ok_0, events.last());
    }
}

proof fn lemma_run_tracks_waits(p: Progress, tracks: Seq<Seq<MidiEvent>>)
    requires
        progress_ok(p),
        channels_ok(tracks),
        run_tracks(p, tracks) is Ok,
    ensures
        progress_ok(run_tracks(p, tracks)->Ok_0),
    decreases tracks.len(),
{
    if tracks.len() > 0 {
        let front = tracks.drop_last();
        assert forall|t: int, i: int| 0 <= t < front.len() && 0 <= i < front[t].len() implies (
        #[trigger] front[t][i]).kind.channel_ok() by {
            assert(front[t] == tracks[t]);
        }
        lemma_run_tracks_waits(p, front);
        let last = tracks[tracks.len() - 1];
        assert forall|i: int| 0 <= i < last.len() implies (#[trigger] last[i]).kind.channel_ok() by {
            assert(tracks[tracks.len() - 1][i].kind.channel_ok());
        }
        lemma_run_events_waits(begin_track(run_tracks(p, front)->Ok_0), tracks.last());
    }
}

proof fn lemma_nonempty_waits(tracks: Seq<Seq<TrackEvent>>)
    requires
        all_waits_last(tracks),
    ensures
        all_waits_last(nonempty(tracks)),
    decreases tracks.len(),
{
    if tracks.len() > 0 {
        assert forall|t: int| 0 <= t < tracks.drop_last().len() implies waits_last(
            #[trigger] tracks.drop_last()[t],
        ) by {
            assert(tracks.drop_last()[t] == tracks[t]);
        }
        lemma_nonempty_waits(tracks.drop_last());
        assert(waits_last(tracks[tracks.len() - 1]));
    }
}

proof fn lemma_collapse_events_waits(events: Seq<TrackEvent>)
    requires
        waits_last(events),
    ensures
        waits_last(collapse_events(events)),
    decreases events.len(),
{
    if events.len() > 0 {
        assert forall|i: int| 0 <= i < events.drop_last().len() implies no_empty_wait(
            #[trigger] events.drop_last()[i],
        ) by {
            assert(events.drop_last()[i] == events[i]);
        }
        lemma_collapse_events_waits(events.drop_last());
        let front = collapse_events(events.drop_last());
        assert(no_empty_wait(events[events.len() - 1]));
        if events.last() is NotesOff && front.len() > 0 && front.last() is Delta {
            assert(no_empty_wait(front[front.len() - 1]));
            assert forall|i: int| 0 <= i < front.drop_last().len() implies no_empty_wait(
                #[trigger] front.drop_last()[i],
            ) by {
                assert(front.drop_last()[i] == front[i]);
            }
        }
    }
}

proof fn lemma_collapse_all_waits(tracks: Seq<Seq<TrackEvent>>)
    requires
        all_waits_last(tracks),
    ensures
        all_waits_last(collapse_all(tracks)),
    decreases tracks.len(),
{
    if tracks.len() > 0 {
        assert forall|t: int| 0 <= t < tracks.drop_last().len() implies waits_last(
            #[trigger] tracks.drop_last()[t],
        ) by {
            assert(tracks.drop_last()[t] == tracks[t]);
        }
        lemma_collapse_all_waits(tracks.drop_last());
        assert(waits_last(tracks[tracks.len() - 1]));
        lemma_collapse_events_waits(tracks.last());
    }
}

/// Every track holds an event.
pub open spec fn all_full<T>(tracks: Seq<Seq<T>>) -> bool {
    forall|t: int| 0 <= t < tracks.len() ==> (#[trigger] tracks[t]).len() > 0
}

proof fn lemma_nonempty_full<T>(tracks: Seq<Seq<T>>)
    ensures
        all_full(nonempty(tracks)),
        nonempty(tracks).len() <= tracks.len(),
    decreases tracks.len(),
{
    if tracks.len() > 0 {
        lemma_nonempty_full(tracks.drop_last());
    }
}

proof fn lemma_collapse_events_full(events: Seq<TrackEvent>)
    requires
        events.len() > 0,
    ensures
        collapse_events(events).len() > 0,
{
}

proof fn lemma_collapse_all_full(tracks: Seq<Seq<TrackEvent>>)
    ensures
        all_full(collapse_all(tracks)),
        collapse_all(tracks).len() <= tracks.len(),
    decreases tracks.len(),
{
    if tracks.len() > 0 {
        lemma_collapse_all_full(tracks.drop_last());
        if tracks.last().len() > 0 {
            lemma_collapse_events_full(tracks.last());
        }
    }
}

/// The tracks that a note file is mapped to are sixteen at most, each
/// holds an event, and none holds a wait of no tick. The same is true once
/// a wait and the end of the notes have become one event.
pub proof fn lemma_waits_are_never_empty(conf: SongConfig, midi: Seq<Seq<MidiEvent>>, stretch: bool)
    requires
        channels_ok(midi),
        track_events_of(conf, midi, stretch) is Ok,
    ensures
        track_events_of(conf, midi, stretch)->Ok_0.len() <= 16,
        all_full(track_events_of(conf, midi, stretch)->Ok_0),
        all_waits_last(track_events_of(conf, midi, stretch)->Ok_0),
        collapse_all(track_events_of(conf, midi, stretch)->Ok_0).len() <= 16,
        all_full(collapse_all(track_events_of(conf, midi, stretch)->Ok_0)),
        all_waits_last(collapse_all(track_events_of(conf, midi, stretch)->Ok_0)),
{
    let first = initial_progress(conf, stretch);
    lemma_run_tracks_waits(first, midi);
    let last = run_tracks(first, midi)->Ok_0;
    lemma_nonempty_waits(last.events);
    lemma_nonempty_full(last.events);
    lemma_collapse_all_waits(nonempty(last.events));
    lemma_collapse_all_full(nonempty(last.events));
}

} // verus!
