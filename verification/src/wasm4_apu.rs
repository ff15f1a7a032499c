//! The sound chip's four voices, as far as whole numbers go: how a tone is
//! told to the chip, the envelope of each voice and its volume at every
//! sample, the noise generator and the mix.
//!
//! Voices 0 and 1 are pulse waves, voice 2 is a triangle wave and voice 3
//! is noise. Time is counted in samples, and a tick is one sixtieth of a
//! second.

use vstd::prelude::*;

verus! {

/// The number of the triangle voice.
pub const TRIANGLE: u8 = 2;

/// The number of the noise voice.
pub const NOISE: u8 = 3;

/// The volume of the triangle voice at its loudest.
pub const MAX_VOLUME_TRIANGLE: i16 = 0x2000;

/// The volume of the other voices at their loudest.
pub const MAX_VOLUME: i16 = 0x1333;

/// The pan of a voice that is heard on the left only.
pub const PAN_LEFT: u8 = 1;

/// The pan of a voice that is heard on the right only.
pub const PAN_RIGHT: u8 = 2;

/// The four numbers of a tone, taken apart.
#[derive(Clone, Copy, Debug, PartialEq, Eq, Structural)]
pub struct ToneRequest {
    /// The frequency at the start.
    pub freq1: u16,
    /// The frequency at the end, or 0 for a steady tone.
    pub freq2: u16,
    /// The four durations, in ticks.
    pub attack: u8,
    pub decay: u8,
    pub sustain: u8,
    pub release: u8,
    /// The volumes, in hundredths.
    pub sustain_volume: u8,
    pub peak_volume: u8,
    /// The voice.
    pub channel: u8,
    /// The duty of a pulse voice.
    pub mode: u8,
    pub pan: u8,
    /// The frequencies are a note in the low byte and a bend in the high
    /// byte.
    pub note_mode: bool,
}

/// The smaller of two numbers.
pub open spec fn at_most(x: int, cap: int) -> int {
    if x > cap {
        cap
    } else {
        x
    }
}

/// The tone that four numbers stand for.
pub open spec fn spec_decode_tone(frequency: u32, duration: u32, volume: u32, flags: u32) -> ToneRequest {
    ToneRequest {
        freq1: (frequency % 0x1_0000) as u16,
        freq2: (frequency / 0x1_0000) as u16,
        sustain: (duration % 0x100) as u8,
        release: (duration / 0x100 % 0x100) as u8,
        decay: (duration / 0x1_0000 % 0x100) as u8,
        attack: (duration / 0x100_0000) as u8,
        sustain_volume: at_most((volume % 0x100) as int, 100) as u8,
        peak_volume: at_most((volume / 0x100) as int, 100) as u8,
        channel: (flags % 4) as u8,
        mode: (flags / 4 % 4) as u8,
        pan: (flags / 16 % 4) as u8,
        note_mode: flags / 64 % 2 == 1,
    }
}

/// Takes the four numbers of a tone apart.
#[verifier::when_used_as_spec(spec_decode_tone)]
pub fn decode_tone(frequency: u32, duration: u32, volume: u32, flags: u32) -> (r: ToneRequest)
    ensures
        r == spec_decode_tone(frequency, duration, volume, flags),
        r.channel < 4,
        r.sustain_volume <= 100,
        r.peak_volume <= 100,
{
    let low = volume % 0x100;
    let high = volume / 0x100;
    ToneRequest {
        freq1: (frequency % 0x1_0000) as u16,
        freq2: (frequency / 0x1_0000) as u16,
        sustain: (duration % 0x100) as u8,
        release: (duration / 0x100 % 0x100) as u8,
        decay: (duration / 0x1_0000 % 0x100) as u8,
        attack: (duration / 0x100_0000) as u8,
        sustain_volume: if low > 100 {
            100
        } else {
            low as u8
        },
        peak_volume: if high > 100 {
            100
        } else {
            high as u8
        },
        channel: (flags % 4) as u8,
        mode: (flags / 4 % 4) as u8,
        pan: (flags / 16 % 4) as u8,
        note_mode: flags / 64 % 2 == 1,
    }
}

/// A sum that starts again at 0 after the greatest number.
pub open spec fn spec_add_wrap(a: u64, b: u64) -> u64 {
    if a + b > u64::MAX {
        (a + b - u64::MAX - 1) as u64
    } else {
        (a + b) as u64
    }
}

/// A sum that starts again at 0 after the greatest number.
#[verifier::when_used_as_spec(spec_add_wrap)]
pub fn add_wrap(a: u64, b: u64) -> (r: u64)
    ensures
        r == spec_add_wrap(a, b),
{
    if b > u64::MAX - a {
        b - (u64::MAX - a) - 1
    } else {
        a + b
    }
}

/// The value at `time` of a line that leaves `value1` at `time1` and
/// reaches `value2` at `time2`: `value1` before, `value2` after, and in
/// between the point of the line, rounded towards 0.
pub open spec fn spec_ramp(time: u64, value1: i32, value2: i32, time1: u64, time2: u64) -> int {
    if time >= time2 {
        value2 as int
    } else if time <= time1 {
        value1 as int
    } else {
        let den = time2 - time1;
        let num = time - time1;
        let n = value1 * (den - num) + value2 * num;
        if n >= 0 {
            n / den
        } else {
            -((-n) / den)
        }
    }
}

/// The result of `spec_ramp` lies between the two values.
pub proof fn lemma_ramp_between(time: u64, value1: i32, value2: i32, time1: u64, time2: u64)
    ensures
        value1 <= spec_ramp(time, value1, value2, time1, time2) <= value2 || value2 <= spec_ramp(
            time,
            value1,
            value2,
            time1,
            time2,
        ) <= value1,
{
    if time < time2 && time > time1 {
        let den = time2 - time1;
        let num = time - time1;
        let n = value1 * (den - num) + value2 * num;
        let lo = if value1 <= value2 {
            value1 as int
        } else {
            value2 as int
        };
        let hi = if value1 <= value2 {
            value2 as int
        } else {
            value1 as int
        };
        assert(lo * den <= n <= hi * den) by (nonlinear_arith)
            requires
                n == value1 * (den - num) + value2 * num,
                0 < num < den,
                lo <= value1 <= hi,
                lo <= value2 <= hi,
        ;
        if n >= 0 {
            assert(hi >= 0) by (nonlinear_arith)
                requires
                    n <= hi * den,
                    den > 0,
                    n >= 0,
            ;
            assert(lo <= n / den <= hi) by (nonlinear_arith)
                requires
                    lo * den <= n <= hi * den,
                    den > 0,
                    n >= 0,
                    hi >= 0,
            ;
        } else {
            assert(lo < 0) by (nonlinear_arith)
                requires
                    lo * den <= n,
                    den > 0,
                    n < 0,
            ;
            assert(lo <= -((-n) / den) <= hi) by (nonlinear_arith)
                requires
                    lo * den <= n <= hi * den,
                    den > 0,
                    n < 0,
                    lo < 0,
            ;
        }
    }
}

/// The value at `time` of a line that leaves `value1` at `time1` and
/// reaches `value2` at `time2`.
pub fn ramp(time: u64, value1: i32, value2: i32, time1: u64, time2: u64) -> (r: i32)
    ensures
        r == spec_ramp(time, value1, value2, time1, time2),
        value1 <= r <= value2 || value2 <= r <= value1,
{
    proof {
        lemma_ramp_between(time, value1, value2, time1, time2);
    }
    if time >= time2 {
        value2
    } else if time <= time1 {
        value1
    } else {
        let den: u64 = time2 - time1;
        let num: u64 = time - time1;
        let rest: u64 = den - num;
        assert(-0x8000_0000 * 0x1_0000_0000_0000_0000 <= value1 * rest <= 0x8000_0000
            * 0x1_0000_0000_0000_0000) by (nonlinear_arith)
            requires
                -0x8000_0000 <= value1 <= 0x8000_0000,
                0 <= rest <= 0x1_0000_0000_0000_0000,
        ;
        assert(-0x8000_0000 * 0x1_0000_0000_0000_0000 <= value2 * num <= 0x8000_0000
            * 0x1_0000_0000_0000_0000) by (nonlinear_arith)
            requires
                -0x8000_0000 <= value2 <= 0x8000_0000,
                0 <= num <= 0x1_0000_0000_0000_0000,
        ;
        let n: i128 = (value1 as i128) * (rest as i128) + (value2 as i128) * (num as i128);
        if n >= 0 {
            ((n as u128) / (den as u128)) as i32
        } else {
            let whole: u128 = ((-n) as u128) / (den as u128);
            -(whole as i64) as i32
        }
    }
}


/// The envelope of one voice: the times, in samples, at which its four
/// phases end, and the volumes that it moves between.
#[derive(Clone, Copy, Debug, PartialEq, Eq, Structural)]
pub struct Envelope {
    pub start_time: u64,
    pub attack_time: u64,
    pub decay_time: u64,
    pub sustain_time: u64,
    pub release_time: u64,
    /// The tick at which the tone ends.
    pub end_tick: u64,
    pub sustain_volume: i16,
    pub peak_volume: i16,
    pub pan: u8,
}

/// The number of samples that `ticks` ticks last at `sample_rate` samples
/// a second.
pub open spec fn spec_tick_samples(sample_rate: u32, ticks: u8) -> u64 {
    (sample_rate * ticks / 60) as u64
}

/// The number of samples that `ticks` ticks last.
#[verifier::when_used_as_spec(spec_tick_samples)]
pub fn tick_samples(sample_rate: u32, ticks: u8) -> (r: u64)
    ensures
        r == spec_tick_samples(sample_rate, ticks),
{
    assert(sample_rate * ticks <= 0xffff_ffff * 0xff) by (nonlinear_arith)
        requires
            0 <= sample_rate <= 0xffff_ffff,
            0 <= ticks <= 0xff,
    ;
    (sample_rate as u64) * (ticks as u64) / 60
}

/// The volume of voice `channel` at its loudest.
pub open spec fn max_volume(channel: u8) -> int {
    if channel == TRIANGLE {
        MAX_VOLUME_TRIANGLE as int
    } else {
        MAX_VOLUME as int
    }
}

/// The envelope of a tone that starts at sample `time` and tick `ticks`.
/// The phases follow one another, each for its ticks. The volumes are
/// hundredths of the loudest; a peak of 0 stands for the loudest. A noise
/// tone without release gets one of a thousandth of a second.
pub open spec fn envelope_of(tone: ToneRequest, time: u64, ticks: u64, sample_rate: u32) -> Envelope {
    let attack_time = spec_add_wrap(time, spec_tick_samples(sample_rate, tone.attack));
    let decay_time = spec_add_wrap(attack_time, spec_tick_samples(sample_rate, tone.decay));
    let sustain_time = spec_add_wrap(decay_time, spec_tick_samples(sample_rate, tone.sustain));
    let release_time = spec_add_wrap(sustain_time, spec_tick_samples(sample_rate, tone.release));
    Envelope {
        start_time: time,
        attack_time,
        decay_time,
        sustain_time,
        release_time: if tone.channel == NOISE && tone.release == 0 {
            spec_add_wrap(release_time, (sample_rate / 1000) as u64)
        } else {
            release_time
        },
        end_tick: spec_add_wrap(
            ticks,
            (tone.attack + tone.decay + tone.sustain + tone.release) as u64,
        ),
        sustain_volume: (max_volume(tone.channel) * tone.sustain_volume / 100) as i16,
        peak_volume: if tone.peak_volume != 0 {
            (max_volume(tone.channel) * tone.peak_volume / 100) as i16
        } else {
            max_volume(tone.channel) as i16
        },
        pan: tone.pan,
    }
}

impl Envelope {
    /// An envelope that is over.
    pub open spec fn silent() -> Envelope {
        Envelope {
            start_time: 0,
            attack_time: 0,
            decay_time: 0,
            sustain_time: 0,
            release_time: 0,
            end_tick: 0,
            sustain_volume: 0,
            peak_volume: 0,
            pan: 0,
        }
    }

    /// The voice sounds: its release has not ended, or the tick is the one
    /// at which the tone ends.
    pub open spec fn spec_is_active(&self, time: u64, ticks: u64) -> bool {
        time < self.release_time || ticks == self.end_tick
    }

    /// The release lasts longer than a thousandth of a second.
    pub open spec fn has_release(&self, sample_rate: u32) -> bool {
        self.release_time >= self.sustain_time && self.release_time - self.sustain_time
            > sample_rate / 1000
    }

    /// The volume at sample `time`: from 0 up to the peak in the attack,
    /// down to the sustain volume in the decay, held in the sustain, and
    /// down to 0 in the release. A release of a thousandth of a second or
    /// less holds the sustain volume.
    pub open spec fn spec_volume_at(&self, time: u64, sample_rate: u32) -> int {
        if time >= self.sustain_time && self.has_release(sample_rate) {
            spec_ramp(time, self.sustain_volume as i32, 0, self.sustain_time, self.release_time)
        } else if time >= self.decay_time {
            self.sustain_volume as int
        } else if time >= self.attack_time {
            spec_ramp(
                time,
                self.peak_volume as i32,
                self.sustain_volume as i32,
                self.attack_time,
                self.decay_time,
            )
        } else {
            spec_ramp(time, 0, self.peak_volume as i32, self.start_time, self.attack_time)
        }
    }

    /// Tells whether the voice sounds.
    #[verifier::when_used_as_spec(spec_is_active)]
    pub fn is_active(&self, time: u64, ticks: u64) -> (r: bool)
        ensures
            r == self.spec_is_active(time, ticks),
    {
        time < self.release_time || ticks == self.end_tick
    }

    /// The volume at sample `time`.
    pub fn volume_at(&self, time: u64, sample_rate: u32) -> (r: i16)
        ensures
            r == self.spec_volume_at(time, sample_rate),
    {
        if time >= self.sustain_time && self.release_time >= self.sustain_time && self.release_time
            - self.sustain_time > (sample_rate / 1000) as u64 {
            ramp(time, self.sustain_volume as i32, 0, self.sustain_time, self.release_time) as i16
        } else if time >= self.decay_time {
            self.sustain_volume
        } else if time >= self.attack_time {
            ramp(
                time,
                self.peak_volume as i32,
                self.sustain_volume as i32,
                self.attack_time,
                self.decay_time,
            ) as i16
        } else {
            ramp(time, 0, self.peak_volume as i32, self.start_time, self.attack_time) as i16
        }
    }
}

/// A tone without attack, decay and release, on a voice other than noise,
/// sounds at its sustain volume for the samples of its sustain. After them
/// it sounds no more, but for the tick at which it ends.
pub proof fn lemma_held_tone(
    tone: ToneRequest,
    time: u64,
    ticks: u64,
    sample_rate: u32,
    at: u64,
    tick: u64,
)
    requires
        tone.attack == 0,
        tone.decay == 0,
        tone.release == 0,
        tone.channel != NOISE,
        time + spec_tick_samples(sample_rate, tone.sustain) <= u64::MAX,
    ensures
        time <= at < time + spec_tick_samples(sample_rate, tone.sustain) ==> {
            &&& envelope_of(tone, time, ticks, sample_rate).spec_is_active(at, tick)
            &&& envelope_of(tone, time, ticks, sample_rate).spec_volume_at(at, sample_rate)
                == envelope_of(tone, time, ticks, sample_rate).sustain_volume
        },
        at >= time + spec_tick_samples(sample_rate, tone.sustain) && tick != envelope_of(
            tone,
            time,
            ticks,
            sample_rate,
        ).end_tick ==> !envelope_of(tone, time, ticks, sample_rate).spec_is_active(at, tick),
{
    assert(spec_tick_samples(sample_rate, 0) == 0) by (nonlinear_arith);
}

/// The next state of the noise generator.
pub open spec fn spec_noise_next(seed: u16) -> u16 {
    let a = seed ^ (seed >> 7);
    let b = a ^ (a << 9);
    b ^ (b << 13)
}

/// The next state of the noise generator.
#[verifier::when_used_as_spec(spec_noise_next)]
pub fn noise_next(seed: u16) -> (r: u16)
    ensures
        r == spec_noise_next(seed),
{
    let a = seed ^ (seed >> 7);
    let b = a ^ (a << 9);
    b ^ (b << 13)
}

/// The sample of the noise generator in state `seed`: 1 or -1.
pub open spec fn spec_noise_sample(seed: u16) -> i16 {
    if seed % 2 == 1 {
        1i16
    } else {
        (-1) as i16
    }
}

/// The sample of the noise generator in state `seed`.
#[verifier::when_used_as_spec(spec_noise_sample)]
pub fn noise_sample(seed: u16) -> (r: i16)
    ensures
        r == spec_noise_sample(seed),
{
    if seed % 2 == 1 {
        1
    } else {
        -1
    }
}

/// A sum of samples that starts again at the other end of its range when
/// it leaves it.
pub open spec fn spec_add_samples(a: i16, b: i16) -> i16 {
    if a + b > i16::MAX {
        (a + b - 0x1_0000) as i16
    } else if a + b < i16::MIN {
        (a + b + 0x1_0000) as i16
    } else {
        (a + b) as i16
    }
}

/// A sum of samples.
#[verifier::when_used_as_spec(spec_add_samples)]
pub fn add_samples(a: i16, b: i16) -> (r: i16)
    ensures
        r == spec_add_samples(a, b),
{
    let sum: i32 = a as i32 + b as i32;
    if sum > i16::MAX as i32 {
        (sum - 0x1_0000) as i16
    } else if sum < i16::MIN as i32 {
        (sum + 0x1_0000) as i16
    } else {
        sum as i16
    }
}

/// The left and the right of a mix with the sample of a voice added: to
/// the right unless the voice is heard on the left only, to the left unless
/// it is heard on the right only.
pub open spec fn spec_mix_sample(mix: (i16, i16), sample: i16, pan: u8) -> (i16, i16) {
    (
        if pan != PAN_RIGHT {
            spec_add_samples(mix.0, sample)
        } else {
            mix.0
        },
        if pan != PAN_LEFT {
            spec_add_samples(mix.1, sample)
        } else {
            mix.1
        },
    )
}

/// Adds the sample of a voice to the left and the right of a mix.
#[verifier::when_used_as_spec(spec_mix_sample)]
pub fn mix_sample(mix: (i16, i16), sample: i16, pan: u8) -> (r: (i16, i16))
    ensures
        r == spec_mix_sample(mix, sample, pan),
{
    let left = if pan != PAN_RIGHT {
        add_samples(mix.0, sample)
    } else {
        mix.0
    };
    let right = if pan != PAN_LEFT {
        add_samples(mix.1, sample)
    } else {
        mix.1
    };
    (left, right)
}

/// What a tone asks of the wave of its voice.
#[derive(Clone, Copy, Debug, PartialEq, Eq, Structural)]
pub struct ToneStart {
    pub request: ToneRequest,
    /// The wave starts over: the tone before had ended.
    pub reset_phase: bool,
}

/// The chip: the sample and the tick that it has come to, and the
/// envelopes of its four voices.
#[derive(Clone, Copy, Debug)]
pub struct APU {
    pub time: u64,
    pub ticks: u64,
    pub sample_rate: u32,
    pub channels: [Envelope; 4],
    /// The state of the noise generator.
    pub seed: u16,
}

impl APU {
    /// A chip at sample 0 and tick 0, with all voices silent.
    pub fn new(sample_rate: u32) -> (r: APU)
        ensures
            r.time == 0,
            r.ticks == 0,
            r.sample_rate == sample_rate,
            r.seed == 1,
            forall|ch: int| 0 <= ch < 4 ==> #[trigger] r.channels@[ch] == Envelope::silent(),
    {
        let silent = Envelope {
            start_time: 0,
            attack_time: 0,
            decay_time: 0,
            sustain_time: 0,
            release_time: 0,
            end_tick: 0,
            sustain_volume: 0,
            peak_volume: 0,
            pan: 0,
        };
        APU { time: 0, ticks: 0, sample_rate, channels: [silent;4], seed: 1 }
    }

    /// Goes on to the next tick.
    pub fn tick(&mut self)
        requires
            old(self).ticks < u64::MAX,
        ensures
            *final(self) == (APU { ticks: (old(self).ticks + 1) as u64, ..*old(self) }),
    {
        self.ticks += 1;
    }

    /// Goes on to the next sample.
    pub fn advance(&mut self)
        requires
            old(self).time < u64::MAX,
        ensures
            *final(self) == (APU { time: (old(self).time + 1) as u64, ..*old(self) }),
    {
        self.time += 1;
    }

    /// Starts a tone: the voice that the flags name gets the envelope of
    /// the tone, from the sample and the tick that the chip has come to.
    /// The other voices go on as they are.
    pub fn tone(&mut self, frequency: u32, duration: u32, volume: u32, flags: u32) -> (r: ToneStart)
        ensures
            r.request == spec_decode_tone(frequency, duration, volume, flags),
            r.reset_phase == (old(self).time > old(self).channels@[r.request.channel as int].release_time
                && old(self).ticks != old(self).channels@[r.request.channel as int].end_tick),
            final(self).channels@ == old(self).channels@.update(
                r.request.channel as int,
                envelope_of(r.request, old(self).time, old(self).ticks, old(self).sample_rate),
            ),
            final(self).time == old(self).time,
            final(self).ticks == old(self).ticks,
            final(self).sample_rate == old(self).sample_rate,
            final(self).seed == old(self).seed,
    {
        let request = decode_tone(frequency, duration, volume, flags);
        let before = self.channels[request.channel as usize];
        let reset_phase = self.time > before.release_time && self.ticks != before.end_tick;
        let attack_time = add_wrap(self.time, tick_samples(self.sample_rate, request.attack));
        let decay_time = add_wrap(attack_time, tick_samples(self.sample_rate, request.decay));
        let sustain_time = add_wrap(decay_time, tick_samples(self.sample_rate, request.sustain));
        let mut release_time = add_wrap(
            sustain_time,
            tick_samples(self.sample_rate, request.release),
        );
        if request.channel == NOISE && request.release == 0 {
            release_time = add_wrap(release_time, (self.sample_rate / 1000) as u64);
        }
        let lasts: u64 = request.attack as u64 + request.decay as u64 + request.sustain as u64
            + request.release as u64;
        let loudest: i32 = if request.channel == TRIANGLE {
            MAX_VOLUME_TRIANGLE as i32
        } else {
            MAX_VOLUME as i32
        };
        assert(0 <= loudest * request.sustain_volume <= 0x2000 * 100 && 0 <= loudest
            * request.peak_volume <= 0x2000 * 100) by (nonlinear_arith)
            requires
                0 < loudest <= 0x2000,
                0 <= request.sustain_volume <= 100,
                0 <= request.peak_volume <= 100,
        ;
        let envelope = Envelope {
            start_time: self.time,
            attack_time,
            decay_time,
            sustain_time,
            release_time,
            end_tick: add_wrap(self.ticks, lasts),
            sustain_volume: (loudest * (request.sustain_volume as i32) / 100) as i16,
            peak_volume: if request.peak_volume != 0 {
                (loudest * (request.peak_volume as i32) / 100) as i16
            } else {
                loudest as i16
            },
            pan: request.pan,
        };
        self.channels[request.channel as usize] = envelope;
        ToneStart { request, reset_phase }
    }

    /// Tells whether voice `channel` sounds at the sample and the tick
    /// that the chip has come to.
    pub fn is_active(&self, channel: u8) -> (r: bool)
        requires
            channel < 4,
        ensures
            r == self.channels@[channel as int].spec_is_active(self.time, self.ticks),
    {
        self.channels[channel as usize].is_active(self.time, self.ticks)
    }

    /// The volume of voice `channel` at the sample that the chip has come
    /// to.
    pub fn current_volume(&self, channel: u8) -> (r: i16)
        requires
            channel < 4,
        ensures
            r == self.channels@[channel as int].spec_volume_at(self.time, self.sample_rate),
    {
        self.channels[channel as usize].volume_at(self.time, self.sample_rate)
    }

    /// Moves the noise generator on by one step and gives its sample.
    pub fn noise_step(&mut self) -> (r: i16)
        ensures
            *final(self) == (APU { seed: spec_noise_next(old(self).seed), ..*old(self) }),
            r == spec_noise_sample(spec_noise_next(old(self).seed)),
    {
        self.seed = noise_next(self.seed);
        noise_sample(self.seed)
    }
}

} // verus!
