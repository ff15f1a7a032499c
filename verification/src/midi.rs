//! Reads a note file. The file format is the work of the `midly` crate;
//! this module hands its events on as plain values.

use vstd::prelude::*;
use vstd::utf8::valid_utf8;
use midly::{MetaMessage, MidiMessage, Smf, TrackEventKind};
use crate::chunks::{spec_timing_overflows, timing_overflows};

verus! {

/// What an event of a note file says.
#[derive(Clone, Debug, PartialEq, Eq)]
pub enum MidiEventKind {
    NoteOn { channel: u8, key: u8, vel: u8 },
    NoteOff { channel: u8, key: u8 },
    Controller { channel: u8, controller: u8, value: u8 },
    /// Any other message to a channel.
    OtherMidi { channel: u8 },
    /// The tempo, in microseconds for a quarter note.
    Tempo(u32),
    /// The time signature: numerator, denominator, ticks in a beat, and
    /// the number of 32nd notes in a quarter note.
    TimeSignature(u8, u8, u8, u8),
    TrackName(Vec<u8>),
    EndOfTrack,
    /// Anything else.
    Unhandled,
}

/// An event of a note file: what it says, and the ticks that pass between
/// the event before it and this one.
#[derive(Clone, Debug, PartialEq, Eq)]
pub struct MidiEvent {
    pub delta: u32,
    pub kind: MidiEventKind,
}

impl MidiEventKind {
    /// The event is a message to a channel.
    pub open spec fn is_midi(&self) -> bool {
        self is NoteOn || self is NoteOff || self is Controller || self is OtherMidi
    }

    /// The channel of a message to a channel is one of the sixteen.
    pub open spec fn channel_ok(&self) -> bool {
        match self {
            MidiEventKind::NoteOn { channel, .. } => *channel < 16,
            MidiEventKind::NoteOff { channel, .. } => *channel < 16,
            MidiEventKind::Controller { channel, .. } => *channel < 16,
            MidiEventKind::OtherMidi { channel } => *channel < 16,
            _ => true,
        }
    }
}

/// Every message to a channel in `tracks` names one of the sixteen
/// channels.
pub open spec fn channels_ok(tracks: Seq<Seq<MidiEvent>>) -> bool {
    forall|t: int, i: int|
        0 <= t < tracks.len() && 0 <= i < tracks[t].len() ==> (#[trigger] tracks[t][i]).kind.channel_ok()
}

/// `midly::Smf`: a parsed note file. What is inside is known through
/// `smf_tracks` alone.
#[verifier::external_type_specification]
#[verifier::external_body]
pub struct ExSmf<'a>(Smf<'a>);

/// The tracks of a parsed note file, each with its events in order.
pub uninterp spec fn smf_tracks(smf: Smf) -> Seq<Seq<MidiEvent>>;

/// The tracks of the note file that `bytes` hold, if they hold one.
pub uninterp spec fn midi_file(bytes: Seq<u8>) -> Option<Seq<Seq<MidiEvent>>>;

/// The tracks of the note file that `bytes` hold, if they hold one that the
/// parser can be given.
pub open spec fn note_file(bytes: Seq<u8>) -> Option<Seq<Seq<MidiEvent>>> {
    if spec_timing_overflows(bytes) {
        None
    } else {
        midi_file(bytes)
    }
}

/// `midly::Smf::parse`: parses a note file. Its result depends on the
/// bytes alone, so it has a name, `midi_file`. Which bytes are a note file,
/// and what the file holds, is not said here. Why the bytes are refused is
/// dropped.
///
/// The parser reads every chunk named `MThd` that it comes to with
/// `Header::read`, and the timing of the header with `Timing::read`. There
/// it negates the high byte of a timing in frames as a signed byte, which
/// panics on the byte `0x80` where overflow is checked. The precondition
/// leaves out the bytes on which the parser comes to such a header; no
/// other step of the parser panics.
#[verifier::external_body]
fn parse_smf(bytes: &[u8]) -> (r: Option<Smf>)
    requires
        !spec_timing_overflows(bytes@),
    ensures
        match r {
            Some(smf) => midi_file(bytes@) == Some(smf_tracks(smf)),
            None => midi_file(bytes@).is_none(),
        },
{
    Smf::parse(bytes).ok()
}

/// The field `tracks` of `midly::Smf`, a vector: the number of tracks.
#[verifier::external_body]
fn track_count(smf: &Smf) -> (r: usize)
    ensures
        r == smf_tracks(*smf).len(),
{
    smf.tracks.len()
}

/// The field `tracks` of `midly::Smf`, a vector of vectors: the number of
/// events of track `t`. The index is in range by the precondition, so the
/// call does not panic.
#[verifier::external_body]
fn track_len(smf: &Smf, t: usize) -> (r: usize)
    requires
        t < smf_tracks(*smf).len(),
    ensures
        r == smf_tracks(*smf)[t as int].len(),
{
    smf.tracks[t].len()
}

/// The field `delta` of event `i` of track `t`, a `midly::TrackEvent`, read
/// with `u28::as_int`.
#[verifier::external_body]
fn event_delta(smf: &Smf, t: usize, i: usize) -> (r: u32)
    requires
        t < smf_tracks(*smf).len(),
        i < smf_tracks(*smf)[t as int].len(),
    ensures
        r == smf_tracks(*smf)[t as int][i as int].delta,
{
    smf.tracks[t][i].delta.as_int()
}

/// The field `kind` of event `i` of track `t`, a `midly::TrackEventKind`,
/// where it is a message to a channel (`Midi`), and `Unhandled` where it is
/// not. Of the messages, `NoteOn`, `NoteOff` and `Controller` keep their
/// numbers, read with `as_int`; the others keep their channel. The channel
/// is a `midly::num::u4`, whose `as_int` gives a number under 16.
#[verifier::external_body]
fn event_midi(smf: &Smf, t: usize, i: usize) -> (r: MidiEventKind)
    requires
        t < smf_tracks(*smf).len(),
        i < smf_tracks(*smf)[t as int].len(),
    ensures
        smf_tracks(*smf)[t as int][i as int].kind.is_midi() ==> r == smf_tracks(
            *smf,
        )[t as int][i as int].kind,
        !smf_tracks(*smf)[t as int][i as int].kind.is_midi() ==> r is Unhandled,
        r.channel_ok(),
{
    match smf.tracks[t][i].kind {
        TrackEventKind::Midi { channel: c, message: MidiMessage::NoteOn { key, vel } } =>
            MidiEventKind::NoteOn { channel: c.as_int(), key: key.as_int(), vel: vel.as_int() },
        TrackEventKind::Midi { channel: c, message: MidiMessage::NoteOff { key, .. } } =>
            MidiEventKind::NoteOff { channel: c.as_int(), key: key.as_int() },
        TrackEventKind::Midi { channel: c, message: MidiMessage::Controller { controller: n, value: v } } =>
            MidiEventKind::Controller { channel: c.as_int(), controller: n.as_int(), value: v.as_int() },
        TrackEventKind::Midi { channel: c, .. } => MidiEventKind::OtherMidi { channel: c.as_int() },
        _ => MidiEventKind::Unhandled,
    }
}

/// The field `kind` of event `i` of track `t`, a `midly::TrackEventKind`,
/// where it is no message to a channel. Of the meta messages, `Tempo`,
/// `TimeSignature`, `TrackName` and `EndOfTrack` keep what they hold; all
/// else is `Unhandled`.
#[verifier::external_body]
fn event_meta(smf: &Smf, t: usize, i: usize) -> (r: MidiEventKind)
    requires
        t < smf_tracks(*smf).len(),
        i < smf_tracks(*smf)[t as int].len(),
        !smf_tracks(*smf)[t as int][i as int].kind.is_midi(),
    ensures
        r == smf_tracks(*smf)[t as int][i as int].kind,
{
    match smf.tracks[t][i].kind {
        TrackEventKind::Meta(MetaMessage::Tempo(tempo)) => MidiEventKind::Tempo(tempo.as_int()),
        TrackEventKind::Meta(MetaMessage::TimeSignature(a, b, c, d)) =>
            MidiEventKind::TimeSignature(a, b, c, d),
        TrackEventKind::Meta(MetaMessage::TrackName(name)) => MidiEventKind::TrackName(name.to_vec()),
        TrackEventKind::Meta(MetaMessage::EndOfTrack) => MidiEventKind::EndOfTrack,
        _ => MidiEventKind::Unhandled,
    }
}

/// `core::str::from_utf8`: succeeds where `bytes` are text in UTF-8, and
/// there only.
#[verifier::external_body]
pub(crate) fn is_utf8(bytes: &[u8]) -> (r: bool)
    ensures
        r == valid_utf8(bytes@),
{
    core::str::from_utf8(bytes).is_ok()
}

/// Reads the note file that `bytes` hold: its tracks, each with its events
/// in order. `None` where the bytes hold no note file, or one with a header
/// on whose timing the parser fails.
pub fn read_midi(bytes: &[u8]) -> (r: Option<Vec<Vec<MidiEvent>>>)
    ensures
        match r {
            Some(tracks) => note_file(bytes@) == Some(crate::crunch::rows(tracks@)) && channels_ok(
                crate::crunch::rows(tracks@),
            ),
            None => note_file(bytes@).is_none(),
        },
{
    if timing_overflows(bytes) {
        return None;
    }
    let smf = match parse_smf(bytes) {
        Some(smf) => smf,
        None => {
            return None;
        },
    };
    let ghost all = smf_tracks(smf);
    let mut tracks: Vec<Vec<MidiEvent>> = Vec::new();
    let count = track_count(&smf);
    let mut t: usize = 0;
    while t < count
        invariant
            all == smf_tracks(smf),
            count == all.len(),
            t <= count,
            tracks@.len() == t,
            forall|a: int| 0 <= a < t ==> (#[trigger] tracks@[a])@ == all[a],
            forall|a: int, b: int|
                0 <= a < t && 0 <= b < all[a].len() ==> (#[trigger] all[a][b]).kind.channel_ok(),
        decreases count - t,
    {
        let len = track_len(&smf, t);
        let mut events: Vec<MidiEvent> = Vec::new();
        let mut i: usize = 0;
        while i < len
            invariant
                all == smf_tracks(smf),
                t < all.len(),
                len == all[t as int].len(),
                i <= len,
                events@ == all[t as int].take(i as int),
                forall|b: int| 0 <= b < i ==> (#[trigger] all[t as int][b]).kind.channel_ok(),
            decreases len - i,
        {
            let delta = event_delta(&smf, t, i);
            let midi = event_midi(&smf, t, i);
            let kind = match midi {
                MidiEventKind::Unhandled => event_meta(&smf, t, i),
                _ => midi,
            };
            let event = MidiEvent { delta, kind };
            assert(event == all[t as int][i as int]);
            events.push(event);
            assert(all[t as int].take(i + 1) == all[t as int].take(i as int).push(
                all[t as int][i as int],
            ));
            i += 1;
        }
        assert(all[t as int].take(len as int) == all[t as int]);
        tracks.push(events);
        t += 1;
    }
    assert(crate::crunch::rows(tracks@) =~= all);
    Some(tracks)
}

} // verus!
