//! Compiler from note events to the compact song format of a four-channel
//! sound chip: event encoding, pattern compression and the chip's envelopes.

pub mod bounce;
pub mod chunks;
pub mod convert;
pub mod crunch;
pub mod format;
pub mod mapper;
pub mod midi;
pub mod model;
pub mod timing;
pub mod wasm4_apu;

pub use crate::mapper::MidiEventMapper;
pub use crate::model::{
    Arpeggio, Channel, Delay, DelayPingPong, Instrument, Pan, PitchEnv, PulseDuty, SongConfig,
    SongTrackConfig, TrackEvent, Vibrato, W4PlayerSong, ADSR,
};
pub use crate::timing::optimal_bpm;
