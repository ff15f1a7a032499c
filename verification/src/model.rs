//! The instrument settings of a song and the events of a track.

use vstd::prelude::*;
use vstd::std_specs::cmp::PartialEqSpecImpl;

verus! {

/// The greatest volume of an instrument.
pub const VOLUME_MAX: u8 = 100;

/// The greatest sustain level of an envelope.
pub const SUSTAIN_MAX: u8 = 100;

/// The greatest velocity of a note.
pub const VELOCITY_MAX: u8 = 127;

/// The greatest number of patterns of a song: the number is written in one
/// byte.
pub const MAX_PATTERNS: usize = 255;

/// The number of tracks that a song can hold, one for each input channel.
pub const TRACK_COUNT: usize = 16;

/// The share of a pulse wave's period that is spent high.
#[derive(Clone, Copy, Debug, PartialEq, Eq, Structural)]
pub enum PulseDuty {
    D12_5,
    D25,
    D50,
    D75,
}

impl PulseDuty {
    /// The number of the duty in the chip's flags.
    pub open spec fn spec_code(self) -> u8 {
        match self {
            PulseDuty::D12_5 => 0,
            PulseDuty::D25 => 1,
            PulseDuty::D50 => 2,
            PulseDuty::D75 => 3,
        }
    }

    /// The number of the duty in the chip's flags.
    #[verifier::when_used_as_spec(spec_code)]
    pub fn code(self) -> (r: u8)
        ensures
            r == self.spec_code(),
    {
        match self {
            PulseDuty::D12_5 => 0,
            PulseDuty::D25 => 1,
            PulseDuty::D50 => 2,
            PulseDuty::D75 => 3,
        }
    }

    /// All duties, in the order of their numbers.
    pub fn types() -> (r: [PulseDuty; 4])
        ensures
            r@ == seq![PulseDuty::D12_5, PulseDuty::D25, PulseDuty::D50, PulseDuty::D75],
    {
        let r = [PulseDuty::D12_5, PulseDuty::D25, PulseDuty::D50, PulseDuty::D75];
        assert(r@ =~= seq![PulseDuty::D12_5, PulseDuty::D25, PulseDuty::D50, PulseDuty::D75]);
        r
    }

    /// The duty as it is shown to a user.
    pub fn to_string(&self) -> (r: String)
        ensures
            r@ == match self {
                PulseDuty::D12_5 => "12.5%"@,
                PulseDuty::D25 => "25%"@,
                PulseDuty::D50 => "50%"@,
                PulseDuty::D75 => "75%"@,
            },
    {
        match self {
            PulseDuty::D12_5 => "12.5%".to_owned(),
            PulseDuty::D25 => "25%".to_owned(),
            PulseDuty::D50 => "50%".to_owned(),
            PulseDuty::D75 => "75%".to_owned(),
        }
    }
}

/// The voice of the chip that an instrument plays on.
#[derive(Clone, Copy, Debug, PartialEq, Eq, Structural)]
pub enum Channel {
    Pulse1(PulseDuty),
    Pulse2(PulseDuty),
    Triangle,
    Noise,
}

impl Channel {
    /// The chip's flags for the voice: its number in the two low bits and,
    /// for a pulse voice, the duty in the two bits above.
    pub open spec fn spec_wasm4_flags(&self) -> u8 {
        match self {
            Channel::Pulse1(d) => (d.spec_code() * 4) as u8,
            Channel::Pulse2(d) => (1 + d.spec_code() * 4) as u8,
            Channel::Triangle => 2,
            Channel::Noise => 3,
        }
    }

    /// The chip's flags for the voice.
    #[verifier::when_used_as_spec(spec_wasm4_flags)]
    pub fn to_wasm4_flags(&self) -> (r: u8)
        ensures
            r == self.spec_wasm4_flags(),
            r < 16,
            r % 4 == match self {
                Channel::Pulse1(_) => 0int,
                Channel::Pulse2(_) => 1int,
                Channel::Triangle => 2int,
                Channel::Noise => 3int,
            },
    {
        match self {
            Channel::Pulse1(d) => d.code() * 4,
            Channel::Pulse2(d) => 1 + d.code() * 4,
            Channel::Triangle => 2,
            Channel::Noise => 3,
        }
    }

    /// One voice of each kind; the pulse voices at the lowest duty.
    pub fn types() -> (r: [Channel; 4])
        ensures
            r@ == seq![
                Channel::Pulse1(PulseDuty::D12_5),
                Channel::Pulse2(PulseDuty::D12_5),
                Channel::Triangle,
                Channel::Noise,
            ],
    {
        let r = [
            Channel::Pulse1(PulseDuty::D12_5),
            Channel::Pulse2(PulseDuty::D12_5),
            Channel::Triangle,
            Channel::Noise,
        ];
        assert(r@ =~= seq![
            Channel::Pulse1(PulseDuty::D12_5),
            Channel::Pulse2(PulseDuty::D12_5),
            Channel::Triangle,
            Channel::Noise,
        ]);
        r
    }

    /// The voice as it is shown to a user.
    pub fn to_string(&self) -> (r: String)
        ensures
            r@ == match self {
                Channel::Pulse1(_) => "PULSE_1"@,
                Channel::Pulse2(_) => "PULSE_2"@,
                Channel::Triangle => "TRIANGLE"@,
                Channel::Noise => "NOISE"@,
            },
    {
        match self {
            Channel::Pulse1(_) => "PULSE_1".to_owned(),
            Channel::Pulse2(_) => "PULSE_2".to_owned(),
            Channel::Triangle => "TRIANGLE".to_owned(),
            Channel::Noise => "NOISE".to_owned(),
        }
    }
}

/// Where a voice is heard.
#[derive(Clone, Copy, Debug, PartialEq, Eq, Structural)]
pub enum Pan {
    Stereo,
    Left,
    Right,
}

impl Pan {
    /// The number of the side in the song format.
    pub open spec fn spec_code(self) -> u8 {
        match self {
            Pan::Stereo => 0,
            Pan::Left => 1,
            Pan::Right => 2,
        }
    }

    /// The number of the side in the song format.
    #[verifier::when_used_as_spec(spec_code)]
    pub fn code(self) -> (r: u8)
        ensures
            r == self.spec_code(),
    {
        match self {
            Pan::Stereo => 0,
            Pan::Left => 1,
            Pan::Right => 2,
        }
    }
}

/// A volume envelope: attack, decay, sustain level, release.
#[derive(Clone, Copy, Debug, PartialEq, Eq, Structural)]
pub struct ADSR(pub u8, pub u8, pub u8, pub u8);

/// A pitch envelope: a note starts `note_offset` notes off and reaches its
/// pitch after `duration` ticks.
#[derive(Clone, Copy, Debug, PartialEq, Eq, Structural)]
pub struct PitchEnv {
    pub note_offset: i8,
    pub duration: u8,
}

/// The side that the first echo of a delay is heard on.
#[derive(Clone, Copy, Debug, PartialEq, Eq, Structural)]
pub enum DelayPingPong {
    No,
    Left,
    Right,
}

/// An echo.
#[derive(Clone, Copy, Debug, PartialEq, Eq, Structural)]
pub struct Delay {
    pub ticks: u8,
    pub ramp: u8,
    pub wet: u8,
    pub ping_pong: DelayPingPong,
}

impl Default for PitchEnv {
    fn default() -> (r: PitchEnv)
        ensures
            r == (PitchEnv { note_offset: 0, duration: 0 }),
    {
        PitchEnv { note_offset: 0, duration: 0 }
    }
}

impl Default for DelayPingPong {
    fn default() -> (r: DelayPingPong)
        ensures
            r == DelayPingPong::No,
    {
        DelayPingPong::No
    }
}

/// The rate at which the notes of a chord are cycled through.
#[derive(Clone, Copy, Debug, PartialEq, Eq, Structural)]
pub struct Arpeggio {
    pub rate: u8,
}

/// A periodic change of pitch.
#[derive(Clone, Copy, Debug, PartialEq, Eq, Structural)]
pub struct Vibrato {
    pub speed: u8,
    pub depth: u8,
}

impl Default for Arpeggio {
    fn default() -> (r: Arpeggio)
        ensures
            r == (Arpeggio { rate: 0 }),
    {
        Arpeggio { rate: 0 }
    }
}

impl Default for Vibrato {
    fn default() -> (r: Vibrato)
        ensures
            r == (Vibrato { speed: 0, depth: 0 }),
    {
        Vibrato { speed: 0, depth: 0 }
    }
}

/// The settings of one instrument.
#[derive(Clone, Debug)]
pub struct SongTrackConfig {
    pub nickname: String,
    pub channel: Channel,
    pub volume: u8,
    pub adsr: ADSR,
    pub pitch_env: PitchEnv,
    pub portamento: u8,
    pub arpeggio: Arpeggio,
    pub vibrato: Vibrato,
}

/// The settings of an instrument that the chip knows of: all but its name.
#[derive(Clone, Copy, Debug, PartialEq, Eq, Structural)]
pub struct Instrument {
    pub channel: Channel,
    pub volume: u8,
    pub adsr: ADSR,
    pub pitch_env: PitchEnv,
    pub portamento: u8,
    pub arpeggio: Arpeggio,
    pub vibrato: Vibrato,
}

impl Instrument {
    /// The settings of the chip before any event has reached it.
    pub open spec fn initial() -> Instrument {
        Instrument {
            channel: Channel::Pulse1(PulseDuty::D12_5),
            volume: VOLUME_MAX,
            adsr: ADSR(0, 0, SUSTAIN_MAX, 0),
            pitch_env: PitchEnv { note_offset: 0, duration: 0 },
            portamento: 0,
            arpeggio: Arpeggio { rate: 0 },
            vibrato: Vibrato { speed: 0, depth: 0 },
        }
    }
}

impl SongTrackConfig {
    /// The settings without the name.
    pub open spec fn spec_instrument(&self) -> Instrument {
        Instrument {
            channel: self.channel,
            volume: self.volume,
            adsr: self.adsr,
            pitch_env: self.pitch_env,
            portamento: self.portamento,
            arpeggio: self.arpeggio,
            vibrato: self.vibrato,
        }
    }

    /// The settings without the name.
    #[verifier::when_used_as_spec(spec_instrument)]
    pub fn instrument(&self) -> (r: Instrument)
        ensures
            r == self.spec_instrument(),
    {
        Instrument {
            channel: self.channel,
            volume: self.volume,
            adsr: self.adsr,
            pitch_env: self.pitch_env,
            portamento: self.portamento,
            arpeggio: self.arpeggio,
            vibrato: self.vibrato,
        }
    }
}

impl Default for SongTrackConfig {
    /// An instrument without a name, with the settings that the chip starts
    /// with.
    fn default() -> (r: SongTrackConfig)
        ensures
            r.nickname@ == Seq::<char>::empty(),
            r.spec_instrument() == Instrument::initial(),
    {
        SongTrackConfig {
            nickname: String::new(),
            channel: Channel::Pulse1(PulseDuty::D12_5),
            volume: VOLUME_MAX,
            adsr: ADSR(0, 0, SUSTAIN_MAX, 0),
            pitch_env: PitchEnv { note_offset: 0, duration: 0 },
            portamento: 0,
            arpeggio: Arpeggio { rate: 0 },
            vibrato: Vibrato { speed: 0, depth: 0 },
        }
    }
}

/// The instruments of a song, one for each input channel.
#[derive(Clone, Debug)]
pub struct SongConfig {
    pub channels: [SongTrackConfig; 16],
}

impl Default for SongConfig {
    /// Sixteen instruments without a name, with the settings that the chip
    /// starts with.
    fn default() -> (r: SongConfig)
        ensures
            forall|ch: int|
                0 <= ch < 16 ==> (#[trigger] r.channels@[ch]).spec_instrument()
                    == Instrument::initial(),
            forall|ch: int|
                0 <= ch < 16 ==> (#[trigger] r.channels@[ch]).nickname@ == Seq::<char>::empty(),
    {
        SongConfig {
            channels: [
                SongTrackConfig::default(),
                SongTrackConfig::default(),
                SongTrackConfig::default(),
                SongTrackConfig::default(),
                SongTrackConfig::default(),
                SongTrackConfig::default(),
                SongTrackConfig::default(),
                SongTrackConfig::default(),
                SongTrackConfig::default(),
                SongTrackConfig::default(),
                SongTrackConfig::default(),
                SongTrackConfig::default(),
                SongTrackConfig::default(),
                SongTrackConfig::default(),
                SongTrackConfig::default(),
                SongTrackConfig::default(),
            ],
        }
    }
}

/// One step of a track.
#[derive(Clone, Copy, Debug)]
pub enum TrackEvent {
    /// Wait for some ticks.
    Delta(usize),
    /// Wait for some ticks, then end the notes of the track.
    DeltaNotesOff(usize),
    /// Start a note.
    NoteOn(u8),
    /// End the notes of the track.
    NotesOff,
    /// Choose the voice and, for a pulse voice, its duty.
    SetFlags(u8),
    SetVolume(u8),
    SetPan(Pan),
    SetVelocity(u8),
    SetADSR(ADSR),
    /// Set the attack alone.
    SetA(u8),
    /// Set the decay alone.
    SetD(u8),
    /// Set the sustain level alone.
    SetS(u8),
    /// Set the release alone.
    SetR(u8),
    SetPitchEnv(PitchEnv),
    SetArpeggio(Arpeggio),
    SetPortamento(u8),
    SetVibrato(Vibrato),
}

impl PartialEq for TrackEvent {
    fn eq(&self, other: &TrackEvent) -> (r: bool) {
        match (*self, *other) {
            (TrackEvent::Delta(a), TrackEvent::Delta(b)) => a == b,
            (TrackEvent::DeltaNotesOff(a), TrackEvent::DeltaNotesOff(b)) => a == b,
            (TrackEvent::NoteOn(a), TrackEvent::NoteOn(b)) => a == b,
            (TrackEvent::NotesOff, TrackEvent::NotesOff) => true,
            (TrackEvent::SetFlags(a), TrackEvent::SetFlags(b)) => a == b,
            (TrackEvent::SetVolume(a), TrackEvent::SetVolume(b)) => a == b,
            (TrackEvent::SetPan(a), TrackEvent::SetPan(b)) => a == b,
            (TrackEvent::SetVelocity(a), TrackEvent::SetVelocity(b)) => a == b,
            (TrackEvent::SetADSR(a), TrackEvent::SetADSR(b)) => a == b,
            (TrackEvent::SetA(a), TrackEvent::SetA(b)) => a == b,
            (TrackEvent::SetD(a), TrackEvent::SetD(b)) => a == b,
            (TrackEvent::SetS(a), TrackEvent::SetS(b)) => a == b,
            (TrackEvent::SetR(a), TrackEvent::SetR(b)) => a == b,
            (TrackEvent::SetPitchEnv(a), TrackEvent::SetPitchEnv(b)) => a == b,
            (TrackEvent::SetArpeggio(a), TrackEvent::SetArpeggio(b)) => a == b,
            (TrackEvent::SetPortamento(a), TrackEvent::SetPortamento(b)) => a == b,
            (TrackEvent::SetVibrato(a), TrackEvent::SetVibrato(b)) => a == b,
            _ => false,
        }
    }
}

impl PartialEqSpecImpl for TrackEvent {
    open spec fn obeys_eq_spec() -> bool {
        true
    }

    open spec fn eq_spec(&self, other: &TrackEvent) -> bool {
        *self == *other
    }
}

/// A song as it is written out: the patterns, and each track as a list of
/// pattern numbers.
#[derive(Clone, Debug)]
pub struct W4PlayerSong {
    pub patterns: Vec<Vec<TrackEvent>>,
    pub tracks: Vec<Vec<usize>>,
}

} // verus!
