//! Turns notes into track events, and puts in front of a note the events
//! that bring the chip's settings to those of the instrument.

use vstd::prelude::*;
use crate::model::{Instrument, Pan, SongTrackConfig, TrackEvent, VELOCITY_MAX};

verus! {

/// What the mapper knows of one channel: the settings that the chip has
/// (`cur`) and those that the instrument asks for (`want`).
#[derive(Clone, Copy, Debug, PartialEq, Eq, Structural)]
pub struct MidiEventMapperTrack {
    pub cur_conf: Instrument,
    pub want_conf: Instrument,
    pub cur_vel: u8,
    pub cur_key: u8,
    pub cur_pan: Pan,
    pub want_pan: Pan,
}

/// One event if `differs`, none if not.
pub open spec fn when(differs: bool, event: TrackEvent) -> Seq<TrackEvent> {
    if differs {
        seq![event]
    } else {
        Seq::empty()
    }
}

/// The side that a pan value stands for.
pub open spec fn pan_zone(pan: u8) -> Pan {
    if pan < 43 {
        Pan::Left
    } else if pan > 84 {
        Pan::Right
    } else {
        Pan::Stereo
    }
}

proof fn lemma_concat_assoc<T>(a: Seq<T>, b: Seq<T>, c: Seq<T>)
    ensures
        (a + b) + c == a + (b + c),
{
    assert((a + b) + c =~= a + (b + c));
}

/// Appends `event` to `into` if `differs`.
fn push_when(into: &mut Vec<TrackEvent>, differs: bool, event: TrackEvent)
    ensures
        final(into)@ == old(into)@ + when(differs, event),
{
    if differs {
        into.push(event);
        assert(into@ =~= old(into)@ + when(differs, event));
    } else {
        assert(into@ =~= old(into)@ + when(differs, event));
    }
}

impl MidiEventMapperTrack {
    /// A channel that nothing has been played on: the chip's first
    /// settings, asked for and in place.
    pub open spec fn initial() -> MidiEventMapperTrack {
        MidiEventMapperTrack {
            cur_conf: Instrument::initial(),
            want_conf: Instrument::initial(),
            cur_vel: VELOCITY_MAX,
            cur_key: 0,
            cur_pan: Pan::Stereo,
            want_pan: Pan::Stereo,
        }
    }

    /// The events that bring the chip's settings to those asked for: one
    /// for each setting that differs, and no other.
    pub open spec fn init_events(self) -> Seq<TrackEvent> {
        let c = self.cur_conf;
        let w = self.want_conf;
        when(c.channel != w.channel, TrackEvent::SetFlags(w.channel.spec_wasm4_flags())) + when(
            c.volume != w.volume,
            TrackEvent::SetVolume(w.volume),
        ) + when(c.adsr != w.adsr, TrackEvent::SetADSR(w.adsr)) + when(
            c.arpeggio != w.arpeggio,
            TrackEvent::SetArpeggio(w.arpeggio),
        ) + when(c.portamento != w.portamento, TrackEvent::SetPortamento(w.portamento)) + when(
            c.pitch_env != w.pitch_env,
            TrackEvent::SetPitchEnv(w.pitch_env),
        ) + when(c.vibrato != w.vibrato, TrackEvent::SetVibrato(w.vibrato))
    }

    /// The channel once the chip's settings are those asked for.
    pub open spec fn after_init(self) -> MidiEventMapperTrack {
        MidiEventMapperTrack { cur_conf: self.want_conf, ..self }
    }

    /// The events of a note that starts: the settings that differ, the
    /// velocity if it is new, the pan if it is new, and the note.
    pub open spec fn note_on_events(self, key: u8, vel: u8) -> Seq<TrackEvent> {
        self.init_events() + when(self.cur_vel != vel, TrackEvent::SetVelocity(vel)) + when(
            self.cur_pan != self.want_pan,
            TrackEvent::SetPan(self.want_pan),
        ) + seq![TrackEvent::NoteOn(key)]
    }

    /// The channel after a note has started.
    pub open spec fn after_note_on(self, key: u8, vel: u8) -> MidiEventMapperTrack {
        MidiEventMapperTrack {
            cur_conf: self.want_conf,
            cur_vel: vel,
            cur_key: key,
            cur_pan: self.want_pan,
            ..self
        }
    }

    /// The events of a note that ends: the settings that differ and, if
    /// the note is the one that sounds, the end of the notes.
    pub open spec fn note_off_events(self, key: u8) -> Seq<TrackEvent> {
        self.init_events() + when(self.cur_key == key, TrackEvent::NotesOff)
    }

    /// The channel after a pan value has come in.
    pub open spec fn after_pan(self, pan: u8) -> MidiEventMapperTrack {
        MidiEventMapperTrack { want_pan: pan_zone(pan), ..self }
    }

    /// The channel once the instrument `conf` is asked for.
    pub open spec fn with_instrument(self, conf: Instrument) -> MidiEventMapperTrack {
        MidiEventMapperTrack { want_conf: conf, ..self }
    }

    /// A channel that nothing has been played on.
    pub fn new() -> (r: MidiEventMapperTrack)
        ensures
            r == MidiEventMapperTrack::initial(),
    {
        let first = SongTrackConfig::default().instrument();
        MidiEventMapperTrack {
            cur_conf: first,
            want_conf: first,
            cur_vel: VELOCITY_MAX,
            cur_key: 0,
            cur_pan: Pan::Stereo,
            want_pan: Pan::Stereo,
        }
    }

    /// Appends the events that bring the chip's settings to those asked
    /// for, and gives the channel with these settings in place.
    pub fn maybe_init(self, into: &mut Vec<TrackEvent>) -> (r: MidiEventMapperTrack)
        ensures
            final(into)@ == old(into)@ + self.init_events(),
            r == self.after_init(),
    {
        let ghost before = into@;
        let c = self.cur_conf;
        let w = self.want_conf;
        let ghost flags = when(
            c.channel != w.channel,
            TrackEvent::SetFlags(w.channel.spec_wasm4_flags()),
        );
        let ghost volume = when(c.volume != w.volume, TrackEvent::SetVolume(w.volume));
        let ghost adsr = when(c.adsr != w.adsr, TrackEvent::SetADSR(w.adsr));
        let ghost arpeggio = when(c.arpeggio != w.arpeggio, TrackEvent::SetArpeggio(w.arpeggio));
        let ghost portamento = when(
            c.portamento != w.portamento,
            TrackEvent::SetPortamento(w.portamento),
        );
        let ghost pitch_env = when(
            c.pitch_env != w.pitch_env,
            TrackEvent::SetPitchEnv(w.pitch_env),
        );
        let ghost vibrato = when(c.vibrato != w.vibrato, TrackEvent::SetVibrato(w.vibrato));
        push_when(into, c.channel != w.channel, TrackEvent::SetFlags(w.channel.to_wasm4_flags()));
        push_when(into, c.volume != w.volume, TrackEvent::SetVolume(w.volume));
        push_when(into, c.adsr != w.adsr, TrackEvent::SetADSR(w.adsr));
        push_when(into, c.arpeggio != w.arpeggio, TrackEvent::SetArpeggio(w.arpeggio));
        push_when(into, c.portamento != w.portamento, TrackEvent::SetPortamento(w.portamento));
        push_when(into, c.pitch_env != w.pitch_env, TrackEvent::SetPitchEnv(w.pitch_env));
        push_when(into, c.vibrato != w.vibrato, TrackEvent::SetVibrato(w.vibrato));
        proof {
            lemma_concat_assoc(before, flags, volume);
            lemma_concat_assoc(before, flags + volume, adsr);
            lemma_concat_assoc(before, flags + volume + adsr, arpeggio);
            lemma_concat_assoc(before, flags + volume + adsr + arpeggio, portamento);
            lemma_concat_assoc(before, flags + volume + adsr + arpeggio + portamento, pitch_env);
            lemma_concat_assoc(
                before,
                flags + volume + adsr + arpeggio + portamento + pitch_env,
                vibrato,
            );
        }
        MidiEventMapperTrack { cur_conf: w, ..self }
    }

    /// Appends the events of a note that starts.
    pub fn note_on(self, into: &mut Vec<TrackEvent>, key: u8, vel: u8) -> (r: MidiEventMapperTrack)
        ensures
            final(into)@ == old(into)@ + self.note_on_events(key, vel),
            r == self.after_note_on(key, vel),
    {
        let ghost before = into@;
        let mut track = self.maybe_init(into);
        track.cur_key = key;
        push_when(into, track.cur_vel != vel, TrackEvent::SetVelocity(vel));
        track.cur_vel = vel;
        push_when(into, track.cur_pan != track.want_pan, TrackEvent::SetPan(track.want_pan));
        track.cur_pan = track.want_pan;
        into.push(TrackEvent::NoteOn(key));
        proof {
            let velocity = when(self.cur_vel != vel, TrackEvent::SetVelocity(vel));
            let pan = when(self.cur_pan != self.want_pan, TrackEvent::SetPan(self.want_pan));
            let note = seq![TrackEvent::NoteOn(key)];
            assert(into@ == before + self.init_events() + velocity + pan + note);
            lemma_concat_assoc(before, self.init_events(), velocity);
            lemma_concat_assoc(before, self.init_events() + velocity, pan);
            lemma_concat_assoc(before, self.init_events() + velocity + pan, note);
        }
        track
    }

    /// Appends the events of a note that ends.
    pub fn note_off(self, into: &mut Vec<TrackEvent>, key: u8) -> (r: MidiEventMapperTrack)
        ensures
            final(into)@ == old(into)@ + self.note_off_events(key),
            r == self.after_init(),
    {
        let ghost before = into@;
        let track = self.maybe_init(into);
        push_when(into, track.cur_key == key, TrackEvent::NotesOff);
        proof {
            lemma_concat_assoc(
                before,
                self.init_events(),
                when(self.cur_key == key, TrackEvent::NotesOff),
            );
        }
        track
    }
}

/// Sends the instruments' settings when they are needed, and keeps track
/// of the notes that sound.
#[derive(Clone, Copy, Debug)]
pub struct MidiEventMapper {
    pub tracks: [MidiEventMapperTrack; 16],
}

impl Default for MidiEventMapper {
    fn default() -> (r: MidiEventMapper)
        ensures
            forall|ch: int| 0 <= ch < 16 ==> #[trigger] r.tracks@[ch] == MidiEventMapperTrack::initial(),
    {
        MidiEventMapper::new()
    }
}

impl MidiEventMapper {
    /// A mapper that nothing has been played on.
    pub fn new() -> (r: MidiEventMapper)
        ensures
            forall|ch: int| 0 <= ch < 16 ==> #[trigger] r.tracks@[ch] == MidiEventMapperTrack::initial(),
    {
        MidiEventMapper { tracks: [MidiEventMapperTrack::new(); 16] }
    }

    /// Asks for the instruments of `tracks`, one for each channel. What the
    /// chip has is left as it is.
    pub fn set_tracks(&mut self, tracks: &[SongTrackConfig; 16])
        ensures
            forall|ch: int|
                0 <= ch < 16 ==> #[trigger] final(self).tracks@[ch] == old(
                    self,
                ).tracks@[ch].with_instrument(tracks@[ch].spec_instrument()),
    {
        let mut i: usize = 0;
        while i < 16
            invariant
                i <= 16,
                forall|ch: int|
                    0 <= ch < i ==> #[trigger] self.tracks@[ch] == old(
                        self,
                    ).tracks@[ch].with_instrument(tracks@[ch].spec_instrument()),
                forall|ch: int| i <= ch < 16 ==> #[trigger] self.tracks@[ch] == old(self).tracks@[ch],
            decreases 16 - i,
        {
            let mut track = self.tracks[i];
            track.want_conf = tracks[i].instrument();
            self.tracks[i] = track;
            i += 1;
        }
    }

    /// Appends to `into` the events of a note that starts on channel
    /// `midi_ch`.
    pub fn note_on(&mut self, into: &mut Vec<TrackEvent>, midi_ch: u8, midi_key: u8, vel: u8)
        requires
            midi_ch < 16,
        ensures
            final(into)@ == old(into)@ + old(self).tracks@[midi_ch as int].note_on_events(
                midi_key,
                vel,
            ),
            final(self).tracks@ == old(self).tracks@.update(
                midi_ch as int,
                old(self).tracks@[midi_ch as int].after_note_on(midi_key, vel),
            ),
    {
        let track = self.tracks[midi_ch as usize].note_on(into, midi_key, vel);
        self.tracks[midi_ch as usize] = track;
    }

    /// Appends to `into` the events of a note that ends on channel
    /// `midi_ch`. A note that is not the one that sounds ends nothing.
    pub fn note_off(&mut self, into: &mut Vec<TrackEvent>, midi_ch: u8, midi_key: u8)
        requires
            midi_ch < 16,
        ensures
            final(into)@ == old(into)@ + old(self).tracks@[midi_ch as int].note_off_events(midi_key),
            final(self).tracks@ == old(self).tracks@.update(
                midi_ch as int,
                old(self).tracks@[midi_ch as int].after_init(),
            ),
    {
        let track = self.tracks[midi_ch as usize].note_off(into, midi_key);
        self.tracks[midi_ch as usize] = track;
    }

    /// Takes a pan value for channel `midi_ch`: under 43 is left, over 84
    /// is right. The next note that starts on the channel brings it to the
    /// chip.
    pub fn pan(&mut self, midi_ch: u8, pan: u8)
        requires
            midi_ch < 16,
        ensures
            final(self).tracks@ == old(self).tracks@.update(
                midi_ch as int,
                old(self).tracks@[midi_ch as int].after_pan(pan),
            ),
    {
        let mut track = self.tracks[midi_ch as usize];
        track.want_pan = if pan < 43 {
            Pan::Left
        } else if pan > 84 {
            Pan::Right
        } else {
            Pan::Stereo
        };
        self.tracks[midi_ch as usize] = track;
    }
}

/// A note that starts right after another on the same channel, with the
/// same instrument, velocity and pan asked for, brings no setting with it:
/// its only event is the note.
pub proof fn lemma_second_note_is_bare(track: MidiEventMapperTrack, first: u8, second: u8, vel: u8)
    ensures
        track.after_note_on(first, vel).note_on_events(second, vel) == seq![
            TrackEvent::NoteOn(second),
        ],
{
    let then = track.after_note_on(first, vel);
    assert(then.init_events() =~= Seq::<TrackEvent>::empty());
    assert(then.note_on_events(second, vel) =~= seq![TrackEvent::NoteOn(second)]);
}

/// Once the chip's settings are those asked for, no setting differs.
pub proof fn lemma_init_is_idempotent(track: MidiEventMapperTrack)
    ensures
        track.after_init().init_events() == Seq::<TrackEvent>::empty(),
        track.after_init().after_init() == track.after_init(),
{
    assert(track.after_init().init_events() =~= Seq::<TrackEvent>::empty());
}

} // verus!
