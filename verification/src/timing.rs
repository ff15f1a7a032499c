//! Maps the ticks of a note file onto the chip's sixty ticks a second.
//!
//! A tempo of `t` microseconds for a quarter note is `60_000_000 / t` beats
//! a minute. A song that waits `w` ticks for each of the `n` beats of a bar
//! plays `3600 / (w * n)` beats a minute.

use vstd::prelude::*;

verus! {

/// The ticks of the chip in one minute.
pub const TICKS_PER_MINUTE: u64 = 3600;

/// The microseconds of one minute.
pub const MICROS_PER_MINUTE: u64 = 60_000_000;

/// A tempo in beats a minute, as the fraction `num / den`.
#[derive(Clone, Copy, Debug, PartialEq, Eq, Structural)]
pub struct Bpm {
    pub num: u64,
    pub den: u64,
}

/// How far a song that waits `wait` ticks for each of `beats` beats is from
/// the tempo of `micros` microseconds for a quarter note, in beats a minute
/// times `micros * beats * wait / 1200`.
pub open spec fn bpm_error(micros: int, beats: int, wait: int) -> int {
    if 50000 * beats * wait >= 3 * micros {
        50000 * beats * wait - 3 * micros
    } else {
        3 * micros - 50000 * beats * wait
    }
}

/// A wait of `k` ticks is no farther from the tempo than a wait of `j`.
pub open spec fn no_farther(micros: int, beats: int, k: int, j: int) -> bool {
    bpm_error(micros, beats, k) * j <= bpm_error(micros, beats, j) * k
}

/// A tempo and a time signature that a wait can be found for.
pub open spec fn can_stretch(micros: int, timesig_num: int, timesig_denom: int) -> bool {
    micros > 0 && timesig_num > 0 && timesig_denom != 0
}

/// The whole number of ticks to wait for a beat that comes closest to the
/// tempo; of two that are as close, the smaller. Where none can be found
/// it is 1.
pub open spec fn optimal_tick_wait(micros: int, timesig_num: int, timesig_denom: int) -> int {
    if can_stretch(micros, timesig_num, timesig_denom) {
        let m = 3 * micros;
        let n = 50000 * timesig_num;
        let a = m / n;
        if a == 0 {
            1
        } else if (m - a * n) * (a + 1) <= ((a + 1) * n - m) * a {
            a
        } else {
            a + 1
        }
    } else {
        1
    }
}

proof fn lemma_below(m: int, n: int, a: int, k: int)
    requires
        m >= 0,
        n > 0,
        1 <= k <= a,
        a * n <= m,
    ensures
        k * n <= m,
        (m - a * n) * k <= (m - k * n) * a,
        m > 0 && k < a ==> (m - a * n) * k < (m - k * n) * a,
{
    assert(k * n <= a * n) by (nonlinear_arith)
        requires
            k <= a,
            n > 0,
    ;
    assert((m - k * n) * a - (m - a * n) * k == m * (a - k)) by (nonlinear_arith);
    assert(m * (a - k) >= 0) by (nonlinear_arith)
        requires
            m >= 0,
            a - k >= 0,
    ;
    if m > 0 && k < a {
        assert(m * (a - k) > 0) by (nonlinear_arith)
            requires
                m > 0,
                a - k > 0,
        ;
    }
}

proof fn lemma_above(m: int, n: int, b: int, k: int)
    requires
        m >= 0,
        n > 0,
        1 <= b <= k,
        m <= b * n,
    ensures
        m <= k * n,
        (b * n - m) * k <= (k * n - m) * b,
{
    assert(b * n <= k * n) by (nonlinear_arith)
        requires
            b <= k,
            n > 0,
    ;
    assert((k * n - m) * b - (b * n - m) * k == m * (k - b)) by (nonlinear_arith);
    assert(m * (k - b) >= 0) by (nonlinear_arith)
        requires
            m >= 0,
            k - b >= 0,
    ;
}

/// From `x / a <= y / b` and `y / b <= z / k` follows `x / a <= z / k`,
/// written without division.
proof fn lemma_chain(x: int, y: int, z: int, a: int, b: int, k: int)
    requires
        a > 0,
        b > 0,
        k > 0,
        x * b <= y * a,
        y * k <= z * b,
    ensures
        x * k <= z * a,
{
    assert(x * b * k <= y * a * k) by (nonlinear_arith)
        requires
            x * b <= y * a,
            k > 0,
    ;
    assert(y * k * a <= z * b * a) by (nonlinear_arith)
        requires
            y * k <= z * b,
            a > 0,
    ;
    assert(y * a * k == y * k * a) by (nonlinear_arith);
    assert((x * k) * b == x * b * k) by (nonlinear_arith);
    assert((z * a) * b == z * b * a) by (nonlinear_arith);
    assert(x * k <= z * a) by (nonlinear_arith)
        requires
            (x * k) * b <= (z * a) * b,
            b > 0,
    ;
}

/// As `lemma_chain`, with the first step strict.
proof fn lemma_chain_strict(x: int, y: int, z: int, a: int, b: int, k: int)
    requires
        a > 0,
        b > 0,
        k > 0,
        x * b < y * a,
        y * k <= z * b,
    ensures
        x * k < z * a,
{
    assert(x * b * k < y * a * k) by (nonlinear_arith)
        requires
            x * b < y * a,
            k > 0,
    ;
    assert(y * k * a <= z * b * a) by (nonlinear_arith)
        requires
            y * k <= z * b,
            a > 0,
    ;
    assert(y * a * k == y * k * a) by (nonlinear_arith);
    assert((x * k) * b == x * b * k) by (nonlinear_arith);
    assert((z * a) * b == z * b * a) by (nonlinear_arith);
    assert(x * k < z * a) by (nonlinear_arith)
        requires
            (x * k) * b < (z * a) * b,
            b > 0,
    ;
}

/// The wait that `optimal_tick_wait` gives is a whole number of ticks, at
/// least 1, that comes as close to the tempo as any, and closer than any
/// smaller one.
pub proof fn lemma_tick_wait_is_closest(micros: int, timesig_num: int, timesig_denom: int, k: int)
    requires
        can_stretch(micros, timesig_num, timesig_denom),
        k >= 1,
    ensures
        optimal_tick_wait(micros, timesig_num, timesig_denom) >= 1,
        no_farther(micros, timesig_num, optimal_tick_wait(micros, timesig_num, timesig_denom), k),
        k < optimal_tick_wait(micros, timesig_num, timesig_denom) ==> !no_farther(
            micros,
            timesig_num,
            k,
            optimal_tick_wait(micros, timesig_num, timesig_denom),
        ),
{
    let m = 3 * micros;
    let n = 50000 * timesig_num;
    let a = m / n;
    let b = a + 1;
    let wait = optimal_tick_wait(micros, timesig_num, timesig_denom);
    assert(a * n <= m < (a + 1) * n && a >= 0) by (nonlinear_arith)
        requires
            a == m / n,
            n > 0,
            m >= 0,
    ;
    // the error of a wait on either side of the exact one
    assert forall|j: int| 1 <= j <= a implies bpm_error(micros, timesig_num, j) == m - j * n by {
        lemma_below(m, n, a, j);
        assert(50000 * timesig_num * j == j * (50000 * timesig_num)) by (nonlinear_arith);
    }
    assert forall|j: int| j >= b implies bpm_error(micros, timesig_num, j) == j * n - m by {
        lemma_above(m, n, b, j);
        assert(50000 * timesig_num * j == j * (50000 * timesig_num)) by (nonlinear_arith);
    }
    let ea = m - a * n;
    let eb = b * n - m;
    let ek = bpm_error(micros, timesig_num, k);
    if a == 0 {
        lemma_above(m, n, 1, k);
    } else if ea * b <= eb * a {
        // the wait is `a`
        if k <= a {
            lemma_below(m, n, a, k);
        } else {
            lemma_above(m, n, b, k);
            lemma_chain(ea, eb, ek, a, b, k);
        }
    } else {
        // the wait is `b`
        if k >= b {
            lemma_above(m, n, b, k);
        } else {
            lemma_below(m, n, a, k);
            // eb / b < ea / a <= ek / k
            lemma_chain_strict(eb, ea, ek, b, a, k);
        }
    }
}

/// Finds the whole number of ticks to wait for a beat that comes closest
/// to the tempo of `micros_per_quarter` microseconds for a quarter note,
/// and the tempo that a song with this wait has. Where the tempo or the
/// time signature is nothing to go by, the wait is 1 and the tempo is left
/// as it is.
pub fn optimal_bpm(micros_per_quarter: u32, timesig_num: i32, timesig_denom: i32) -> (r: (
    Bpm,
    usize,
))
    ensures
        r.1 == optimal_tick_wait(
            micros_per_quarter as int,
            timesig_num as int,
            timesig_denom as int,
        ),
        r.0 == if can_stretch(micros_per_quarter as int, timesig_num as int, timesig_denom as int) {
            Bpm { num: TICKS_PER_MINUTE, den: (r.1 * timesig_num) as u64 }
        } else {
            Bpm { num: MICROS_PER_MINUTE, den: micros_per_quarter as u64 }
        },
        1 <= r.1 <= 0x4_0000,
{
    if micros_per_quarter == 0 || timesig_num <= 0 || timesig_denom == 0 {
        return (Bpm { num: MICROS_PER_MINUTE, den: micros_per_quarter as u64 }, 1);
    }
    let m: u128 = 3 * (micros_per_quarter as u128);
    let n: u128 = 50000 * (timesig_num as u128);
    let a: u128 = m / n;
    assert(a * n <= m < (a + 1) * n && a <= m / 50000) by (nonlinear_arith)
        requires
            a == m / n,
            n >= 50000,
            m >= 0,
    ;
    let wait: u128 = if a == 0 {
        1
    } else {
        let b = a + 1;
        assert(b * n == a * n + n) by (nonlinear_arith)
            requires
                b == a + 1,
        ;
        assert((m - a * n) * b <= n * b <= 0x1_0000_0000_0000 * 0x1_0000_0000) by (nonlinear_arith)
            requires
                0 <= m - a * n <= n,
                n <= 0x1_0000_0000_0000,
                1 <= b <= 0x1_0000_0000,
        ;
        assert((b * n - m) * a <= n * a <= 0x1_0000_0000_0000 * 0x1_0000_0000) by (nonlinear_arith)
            requires
                0 <= b * n - m <= n,
                n <= 0x1_0000_0000_0000,
                1 <= a <= 0x1_0000_0000,
        ;
        if (m - a * n) * b <= (b * n - m) * a {
            a
        } else {
            b
        }
    };
    assert(wait * timesig_num <= 0x4_0000 * 0x8000_0000) by (nonlinear_arith)
        requires
            0 <= wait <= 0x4_0000,
            0 <= timesig_num <= 0x8000_0000,
    ;
    let den = wait * (timesig_num as u128);
    (Bpm { num: TICKS_PER_MINUTE, den: den as u64 }, wait as usize)
}


/// The ticks of the chip that one tick of the note file lasts, as the
/// fraction `num / den`.
#[derive(Clone, Copy, Debug, PartialEq, Eq, Structural)]
pub struct TickRatio {
    pub num: u64,
    pub den: u64,
}

/// Why a tempo, a time signature or a tick count is refused.
#[derive(Clone, Copy, Debug, PartialEq, Eq, Structural)]
pub enum TimingError {
    /// A second tempo differs from the first.
    TempoChange,
    /// A second time signature differs from the first.
    TimeSignatureChange,
    /// A tick count other than 0 came before the tempo and the time
    /// signature were known, or they give no ratio.
    Indeterminate,
}

/// The ratio that a tempo of `tempo` microseconds for a quarter note and a
/// time signature give. The time signature is its numerator, its
/// denominator, the ticks of the note file in a beat, and a number that
/// is not used.
///
/// With `stretch`, a beat lasts the whole number of ticks that comes
/// closest to the tempo, so the song may play a little faster or slower
/// than written. Without, a beat lasts `3 * tempo / (50000 * numerator)`
/// ticks, as written. There is no ratio where a beat would have no ticks of
/// the note file.
pub open spec fn tick_ratio(tempo: u32, timesig: (u8, u8, u8, u8), stretch: bool) -> Option<
    TickRatio,
> {
    let ratio = if stretch {
        TickRatio {
            num: optimal_tick_wait(tempo as int, timesig.0 as int, timesig.1 as int) as u64,
            den: timesig.2 as u64,
        }
    } else {
        TickRatio { num: (3 * tempo) as u64, den: (50000 * timesig.0 * timesig.2) as u64 }
    };
    if ratio.den == 0 {
        None
    } else {
        Some(ratio)
    }
}

/// `x / d` rounded to the nearest whole number, halves upwards.
pub open spec fn round_div(x: int, d: int) -> int {
    (2 * x + d) / (2 * d)
}

/// The ticks of the chip that `midi_ticks` ticks of the note file last:
/// their product with the ratio, rounded, and no more than the machine can
/// count.
pub open spec fn w4_ticks(ratio: TickRatio, midi_ticks: int) -> int {
    let exact = round_div(midi_ticks * ratio.num, ratio.den as int);
    if exact > usize::MAX {
        usize::MAX as int
    } else {
        exact
    }
}

/// What rounding took from or added to the ticks of the chip, times the
/// denominator of the ratio.
pub open spec fn rounding_error(ratio: TickRatio, midi_ticks: int) -> int {
    let x = midi_ticks * ratio.num;
    let whole = round_div(x, ratio.den as int) * ratio.den;
    if x >= whole {
        x - whole
    } else {
        whole - x
    }
}

/// A sum that stops at the greatest number of its type.
pub open spec fn add_capped(a: u128, b: int) -> u128 {
    if a + b > u128::MAX {
        u128::MAX
    } else {
        (a + b) as u128
    }
}

/// The one tempo and the one time signature of a note file, and the ratio
/// that they give.
#[derive(Clone, Copy, Debug)]
pub struct MidiTiming {
    pub tempo: Option<u32>,
    pub timesig: Option<(u8, u8, u8, u8)>,
    pub result: Option<TickRatio>,
    /// The sum of what rounding took or added, times the denominator of
    /// the ratio.
    pub accumulated_inaccuracy: u128,
    pub stretch: bool,
}

impl MidiTiming {
    /// The ratio is the one that the tempo and the time signature give,
    /// and there is none before both are known.
    pub open spec fn wf(&self) -> bool {
        self.result == match (self.tempo, self.timesig) {
            (Some(tempo), Some(timesig)) => tick_ratio(tempo, timesig, self.stretch),
            _ => None,
        }
    }

    /// The timing with the ratio that its tempo and its time signature
    /// give.
    pub open spec fn recalculated(self) -> MidiTiming {
        MidiTiming {
            result: match (self.tempo, self.timesig) {
                (Some(tempo), Some(timesig)) => tick_ratio(tempo, timesig, self.stretch),
                _ => None,
            },
            ..self
        }
    }

    /// The timing once `tempo` has come in, or why it is refused.
    pub open spec fn tempo_result(self, tempo: u32) -> Result<MidiTiming, TimingError> {
        match self.tempo {
            Some(known) if known != tempo => Err(TimingError::TempoChange),
            _ => Ok((MidiTiming { tempo: Some(tempo), ..self }).recalculated()),
        }
    }

    /// The timing once `timesig` has come in, or why it is refused.
    pub open spec fn timesig_result(self, timesig: (u8, u8, u8, u8)) -> Result<
        MidiTiming,
        TimingError,
    > {
        match self.timesig {
            Some(known) if known != timesig => Err(TimingError::TimeSignatureChange),
            _ => Ok((MidiTiming { timesig: Some(timesig), ..self }).recalculated()),
        }
    }

    /// The ticks of the chip that `midi_ticks` ticks of the note file
    /// last, or why they cannot be told.
    pub open spec fn ticks_result(self, midi_ticks: usize) -> Result<usize, TimingError> {
        match self.result {
            Some(ratio) => Ok(w4_ticks(ratio, midi_ticks as int) as usize),
            None => if midi_ticks == 0 {
                Ok(0)
            } else {
                Err(TimingError::Indeterminate)
            },
        }
    }

    /// The timing once `midi_ticks` ticks of the note file have been
    /// turned into ticks of the chip.
    pub open spec fn after_ticks(self, midi_ticks: usize) -> MidiTiming {
        match self.result {
            Some(ratio) => MidiTiming {
                accumulated_inaccuracy: add_capped(
                    self.accumulated_inaccuracy,
                    rounding_error(ratio, midi_ticks as int),
                ),
                ..self
            },
            None => self,
        }
    }

    /// A timing that knows neither tempo nor time signature.
    pub fn new(stretch: bool) -> (r: MidiTiming)
        ensures
            r == (MidiTiming {
                tempo: None,
                timesig: None,
                result: None,
                accumulated_inaccuracy: 0,
                stretch,
            }),
            r.wf(),
    {
        MidiTiming { tempo: None, timesig: None, result: None, accumulated_inaccuracy: 0, stretch }
    }

    /// Works out the ratio from the tempo and the time signature.
    pub fn calculate(&mut self)
        requires
            old(self).tempo.is_some(),
            old(self).timesig.is_some(),
        ensures
            *final(self) == (MidiTiming {
                result: tick_ratio(
                    old(self).tempo.unwrap(),
                    old(self).timesig.unwrap(),
                    old(self).stretch,
                ),
                ..*old(self)
            }),
            final(self).wf(),
    {
        let tempo = match self.tempo {
            Some(tempo) => tempo,
            None => 0,
        };
        let timesig = match self.timesig {
            Some(timesig) => timesig,
            None => (0, 0, 0, 0),
        };
        let ratio = if self.stretch {
            let (_, tick_wait) = optimal_bpm(tempo, timesig.0 as i32, timesig.1 as i32);
            TickRatio { num: tick_wait as u64, den: timesig.2 as u64 }
        } else {
            assert(50000 * timesig.0 * timesig.2 <= 50000 * 255 * 255) by (nonlinear_arith)
                requires
                    0 <= timesig.0 <= 255,
                    0 <= timesig.2 <= 255,
            ;
            TickRatio {
                num: 3 * (tempo as u64),
                den: 50000 * (timesig.0 as u64) * (timesig.2 as u64),
            }
        };
        self.result = if ratio.den == 0 {
            None
        } else {
            Some(ratio)
        };
    }

    /// Turns a count of ticks of the note file into ticks of the chip, and
    /// adds what rounding took or added to the sum that is kept. Before the
    /// ratio is known only the count 0 can be turned, into 0.
    pub fn get_w4_ticks(&mut self, midi_ticks: usize) -> (r: Result<usize, TimingError>)
        requires
            old(self).wf(),
        ensures
            final(self).wf(),
            r == old(self).ticks_result(midi_ticks),
            *final(self) == old(self).after_ticks(midi_ticks),
    {
        match self.result {
            Some(ratio) => {
                assert(ratio.num <= 3 * 0xffff_ffff && 0 < ratio.den <= 50000 * 255 * 255) by {
                    assert(50000 * self.timesig.unwrap().0 * self.timesig.unwrap().2 <= 50000
                        * 255 * 255) by (nonlinear_arith)
                        requires
                            0 <= self.timesig.unwrap().0 <= 255,
                            0 <= self.timesig.unwrap().2 <= 255,
                    ;
                    lemma_tick_wait_bound(
                        self.tempo.unwrap() as int,
                        self.timesig.unwrap().0 as int,
                        self.timesig.unwrap().1 as int,
                    );
                }
                assert(midi_ticks * ratio.num <= 0xffff_ffff_ffff_ffff * (3 * 0xffff_ffff))
                    by (nonlinear_arith)
                    requires
                        0 <= midi_ticks <= 0xffff_ffff_ffff_ffff,
                        0 <= ratio.num <= 3 * 0xffff_ffff,
                ;
                let x: u128 = (midi_ticks as u128) * (ratio.num as u128);
                let den: u128 = ratio.den as u128;
                let exact: u128 = (2 * x + den) / (2 * den);
                assert(exact * den <= x + den) by (nonlinear_arith)
                    requires
                        exact == (2 * x + den) / (2 * den),
                        den > 0,
                        x >= 0,
                ;
                let whole: u128 = exact * den;
                let error: u128 = if x >= whole {
                    x - whole
                } else {
                    whole - x
                };
                self.accumulated_inaccuracy = if self.accumulated_inaccuracy > u128::MAX - error {
                    u128::MAX
                } else {
                    self.accumulated_inaccuracy + error
                };
                if exact > usize::MAX as u128 {
                    Ok(usize::MAX)
                } else {
                    Ok(exact as usize)
                }
            },
            None => {
                if midi_ticks == 0 {
                    Ok(0)
                } else {
                    Err(TimingError::Indeterminate)
                }
            },
        }
    }

    /// Takes the tempo of the note file, in microseconds for a quarter
    /// note. A second tempo that differs from the first is refused, and
    /// nothing changes.
    pub fn set_tempo(&mut self, tempo: u32) -> (r: Result<(), TimingError>)
        requires
            old(self).wf(),
        ensures
            final(self).wf(),
            match old(self).tempo_result(tempo) {
                Ok(timing) => r.is_ok() && *final(self) == timing,
                Err(e) => r == Err::<(), TimingError>(e) && *final(self) == *old(self),
            },
    {
        if let Some(known) = self.tempo {
            if known != tempo {
                return Err(TimingError::TempoChange);
            }
        }
        self.tempo = Some(tempo);
        if self.timesig.is_some() {
            self.calculate();
        }
        Ok(())
    }

    /// Takes the time signature of the note file. A second one that
    /// differs from the first is refused, and nothing changes.
    pub fn set_timesig(&mut self, timesig: (u8, u8, u8, u8)) -> (r: Result<(), TimingError>)
        requires
            old(self).wf(),
        ensures
            final(self).wf(),
            match old(self).timesig_result(timesig) {
                Ok(timing) => r.is_ok() && *final(self) == timing,
                Err(e) => r == Err::<(), TimingError>(e) && *final(self) == *old(self),
            },
    {
        if let Some(known) = self.timesig {
            if known.0 != timesig.0 || known.1 != timesig.1 || known.2 != timesig.2 || known.3
                != timesig.3 {
                return Err(TimingError::TimeSignatureChange);
            }
        }
        self.timesig = Some(timesig);
        if self.tempo.is_some() {
            self.calculate();
        }
        Ok(())
    }
}

proof fn lemma_tick_wait_bound(micros: int, timesig_num: int, timesig_denom: int)
    requires
        0 <= micros <= 0xffff_ffff,
    ensures
        1 <= optimal_tick_wait(micros, timesig_num, timesig_denom) <= 0x4_0000,
{
    if can_stretch(micros, timesig_num, timesig_denom) {
        let m = 3 * micros;
        let n = 50000 * timesig_num;
        let a = m / n;
        assert(0 <= a <= m / 50000) by (nonlinear_arith)
            requires
                a == m / n,
                n >= 50000,
                m >= 0,
        ;
    }
}

} // verus!
