//! The plan by which a song is rendered to samples: some ticks of silence,
//! the song, and some ticks of silence again, so that no envelope is cut.
//!
//! The player of a song is not part of this library. Whoever renders asks
//! the plan, tick by tick, what to do, and tells it when the player is
//! through.

use vstd::prelude::*;

verus! {

/// The sample rate of the chip.
pub const WASM4_SAMPLE_RATE: u32 = 44100;

/// The samples of one tick at the chip's sample rate.
pub const SAMPLES_PER_TICK: u32 = 735;

/// The ticks of silence before and after the song.
pub const PADDING_TICKS: usize = 5;

/// Where a rendering stands.
#[derive(Clone, Copy, Debug, PartialEq, Eq, Structural)]
pub enum BouncePhase {
    /// So many ticks of silence are still to come before the song, one at
    /// least.
    LeadIn(usize),
    /// The song plays.
    Playing,
    /// So many ticks of silence are still to come after the song, one at
    /// least.
    LeadOut(usize),
    /// Nothing is left to render.
    Done,
}

impl BouncePhase {
    /// The phase in which a rendering begins.
    pub open spec fn spec_start() -> BouncePhase {
        BouncePhase::LeadIn(PADDING_TICKS)
    }

    /// A tick is rendered in this phase.
    pub open spec fn spec_renders(&self) -> bool {
        !(self is Done)
    }

    /// The player is asked for a tick in this phase, after the tick has
    /// been rendered.
    pub open spec fn spec_plays(&self) -> bool {
        self is Playing
    }

    /// The phase after a tick. `ended` tells whether the player, if it was
    /// asked, is through.
    pub open spec fn spec_next(self, ended: bool) -> BouncePhase {
        match self {
            BouncePhase::LeadIn(n) => if n <= 1 {
                BouncePhase::Playing
            } else {
                BouncePhase::LeadIn((n - 1) as usize)
            },
            BouncePhase::Playing => if ended {
                BouncePhase::LeadOut(PADDING_TICKS)
            } else {
                BouncePhase::Playing
            },
            BouncePhase::LeadOut(n) => if n <= 1 {
                BouncePhase::Done
            } else {
                BouncePhase::LeadOut((n - 1) as usize)
            },
            BouncePhase::Done => BouncePhase::Done,
        }
    }

    /// The ticks that are still rendered from this phase on if the player
    /// is through after `playing` more ticks.
    pub open spec fn ticks_left(self, playing: int) -> int {
        match self {
            BouncePhase::LeadIn(n) => if n <= 1 {
                1 + playing + PADDING_TICKS
            } else {
                n + playing + PADDING_TICKS
            },
            BouncePhase::Playing => playing + PADDING_TICKS,
            BouncePhase::LeadOut(n) => if n <= 1 {
                1
            } else {
                n as int
            },
            BouncePhase::Done => 0,
        }
    }

    /// The phase in which a rendering begins.
    #[verifier::when_used_as_spec(spec_start)]
    pub fn start() -> (r: BouncePhase)
        ensures
            r == BouncePhase::spec_start(),
    {
        BouncePhase::LeadIn(PADDING_TICKS)
    }

    /// Tells whether a tick is rendered in this phase.
    #[verifier::when_used_as_spec(spec_renders)]
    pub fn renders(&self) -> (r: bool)
        ensures
            r == self.spec_renders(),
    {
        match self {
            BouncePhase::Done => false,
            _ => true,
        }
    }

    /// Tells whether the player is asked for a tick in this phase.
    #[verifier::when_used_as_spec(spec_plays)]
    pub fn plays(&self) -> (r: bool)
        ensures
            r == self.spec_plays(),
    {
        match self {
            BouncePhase::Playing => true,
            _ => false,
        }
    }

    /// The phase after a tick.
    #[verifier::when_used_as_spec(spec_next)]
    pub fn next(self, ended: bool) -> (r: BouncePhase)
        ensures
            r == self.spec_next(ended),
    {
        match self {
            BouncePhase::LeadIn(n) => {
                if n <= 1 {
                    BouncePhase::Playing
                } else {
                    BouncePhase::LeadIn(n - 1)
                }
            },
            BouncePhase::Playing => {
                if ended {
                    BouncePhase::LeadOut(PADDING_TICKS)
                } else {
                    BouncePhase::Playing
                }
            },
            BouncePhase::LeadOut(n) => {
                if n <= 1 {
                    BouncePhase::Done
                } else {
                    BouncePhase::LeadOut(n - 1)
                }
            },
            BouncePhase::Done => BouncePhase::Done,
        }
    }
}

/// Every tick that is rendered brings the end one tick nearer, so a
/// rendering of a song that the player is through with after `playing`
/// ticks, one at least, lasts that many ticks and the silence before and
/// after.
pub proof fn lemma_bounce_counts_down(phase: BouncePhase, playing: int)
    requires
        phase.spec_renders(),
        playing >= 1,
    ensures
        phase.spec_next(phase is Playing && playing == 1).ticks_left(
            if phase is Playing {
                playing - 1
            } else {
                playing
            },
        ) + 1 == phase.ticks_left(playing),
        BouncePhase::spec_start().ticks_left(playing) == PADDING_TICKS + playing + PADDING_TICKS,
{
}

} // verus!
