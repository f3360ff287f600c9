//! Single-cycle waveforms and the lookup tables sampled from them.
use rand::Rng;
use vstd::prelude::*;

verus! {

/// The fixed-point value that stands for an amplitude of 1.0.
pub const ONE: i32 = 65536;

/// Number of samples stored in the lookup table of each waveform.
pub const TABLE_LENGTH: usize = 1024;

/// The largest magnitude any waveform sample reaches (the saw sums forty sines).
pub const MAX_SAMPLE: i32 = 1703936;

/// 2/pi in Q16.
pub const TWO_OVER_PI: u32 = 41722;

/// The number of harmonics summed by the saw wave.
pub const SAW_HARMONICS: usize = 40;

#[derive(Clone, Copy, Debug, PartialEq, Eq, Structural)]
pub enum Waveform {
    Noise,
    Saw,
    Sine,
    Square,
    Triangle,
}

/// `x * g`, with `g` read as a Q16 factor, rounded toward zero.
pub open spec fn scale(x: int, g: int) -> int {
    if x >= 0 {
        x * g / (ONE as int)
    } else {
        -((-x) * g / (ONE as int))
    }
}

/// One cycle of a sine at table position `i` (of `TABLE_LENGTH`), in Q16.
/// Each half cycle follows Bhaskara's rational approximation
/// `16 p / (5 h^2 - 4 p)` with `p = x (h - x)` over a half cycle of `h` steps,
/// which is exactly 0 at both ends and exactly 1.0 at the crest.
pub open spec fn sine_value(i: int) -> int {
    let x = i % 512;
    let p = x * (512 - x);
    let m = (ONE as int) * 16 * p / (1310720 - 4 * p);
    if i < 512 {
        m
    } else {
        -m
    }
}

/// The sum of the first `n` harmonics of the sine at table position `i`.
pub open spec fn harmonic_sum(i: int, n: nat) -> int
    decreases n,
{
    if n == 0 {
        0
    } else {
        harmonic_sum(i, (n - 1) as nat) + sine_value((n * i) % (TABLE_LENGTH as int))
    }
}

/// The saw wave: forty harmonic sines summed, times 2/pi.
pub open spec fn saw_value(i: int) -> int {
    scale(harmonic_sum(i, SAW_HARMONICS as nat), TWO_OVER_PI as int)
}

/// The square wave: +1.0 where the sine is positive, -1.0 elsewhere.
pub open spec fn square_value(i: int) -> int {
    if sine_value(i) > 0 {
        ONE as int
    } else {
        -(ONE as int)
    }
}

/// The triangle wave, `asin(sin x) * 2/pi`, which folds the phase back into a
/// line: up from 0 to 1.0 over the first quarter, down to -1.0 by the third,
/// back up to 0.
pub open spec fn triangle_value(i: int) -> int {
    if i <= 256 {
        256 * i
    } else if i <= 768 {
        256 * (512 - i)
    } else {
        256 * (i - 1024)
    }
}

/// The value of a periodic (non-noise) waveform at table position `i`.
pub open spec fn wave_value(w: Waveform, i: int) -> int {
    match w {
        Waveform::Noise => 0,
        Waveform::Saw => saw_value(i),
        Waveform::Sine => sine_value(i),
        Waveform::Square => square_value(i),
        Waveform::Triangle => triangle_value(i),
    }
}

proof fn lemma_sine_bounds(i: int)
    requires
        0 <= i < TABLE_LENGTH,
    ensures
        -(ONE as int) <= sine_value(i) <= ONE,
        i < 512 ==> sine_value(i) >= 0,
{
    let x = i % 512;
    let p = x * (512 - x);
    assert(0 <= p <= 65536) by (nonlinear_arith)
        requires
            0 <= x <= 512,
            p == x * (512 - x),
    ;
    let num = (ONE as int) * 16 * p;
    let den = 1310720 - 4 * p;
    assert(num <= (ONE as int) * den) by (nonlinear_arith)
        requires
            num == 65536 * 16 * p,
            den == 1310720 - 4 * p,
            p <= 65536,
    ;
    assert(0 <= num / den <= ONE) by (nonlinear_arith)
        requires
            0 <= num <= 65536 * den,
            den > 0,
    ;
}

proof fn lemma_harmonic_sum_bounds(i: int, n: nat)
    requires
        0 <= i,
    ensures
        -(n * ONE as int) <= harmonic_sum(i, n) <= n * ONE as int,
    decreases n,
{
    if n > 0 {
        lemma_harmonic_sum_bounds(i, (n - 1) as nat);
        assert(0 <= n * i) by (nonlinear_arith)
            requires
                0 <= i,
        ;
        lemma_sine_bounds((n * i) % (TABLE_LENGTH as int));
        assert((n - 1) * ONE as int + ONE as int == n * ONE as int) by (nonlinear_arith);
    }
}

proof fn lemma_sine_at_zero()
    ensures
        sine_value(0) == 0,
{
    let x = 0int % 512;
    assert(x == 0);
    let p = x * (512 - x);
    assert(p == 0);
    assert((ONE as int) * 16 * p == 0);
    assert(0int / 1310720 == 0);
}

proof fn lemma_harmonic_sum_at_zero(n: nat)
    ensures
        harmonic_sum(0, n) == 0,
    decreases n,
{
    if n > 0 {
        lemma_harmonic_sum_at_zero((n - 1) as nat);
        assert(n * 0 == 0);
        lemma_sine_at_zero();
    }
}

/// `scale` never grows a magnitude when the factor is at most 1.0.
pub proof fn lemma_scale_bounds(x: int, g: int)
    requires
        0 <= g,
    ensures
        x >= 0 ==> 0 <= scale(x, g) <= x * g / (ONE as int),
        x < 0 ==> -((-x) * g / (ONE as int)) <= scale(x, g) <= 0,
        g <= ONE && x >= 0 ==> scale(x, g) <= x,
        g <= ONE && x < 0 ==> x <= scale(x, g),
{
    if x >= 0 {
        assert(0 <= x * g) by (nonlinear_arith)
            requires
                0 <= x,
                0 <= g,
        ;
        if g <= ONE {
            assert(x * g <= x * 65536) by (nonlinear_arith)
                requires
                    0 <= x,
                    g <= 65536,
            ;
        }
    } else {
        assert(0 <= (-x) * g) by (nonlinear_arith)
            requires
                0 <= -x,
                0 <= g,
        ;
        if g <= ONE {
            assert((-x) * g <= (-x) * 65536) by (nonlinear_arith)
                requires
                    0 <= -x,
                    g <= 65536,
            ;
        }
    }
}

/// Every periodic waveform stays within `MAX_SAMPLE` of zero.
pub proof fn lemma_wave_value_bounds(w: Waveform, i: int)
    requires
        0 <= i < TABLE_LENGTH,
    ensures
        -(MAX_SAMPLE as int) <= wave_value(w, i) <= MAX_SAMPLE,
{
    lemma_sine_bounds(i);
    if w == Waveform::Saw {
        lemma_harmonic_sum_bounds(i, SAW_HARMONICS as nat);
        let s = harmonic_sum(i, SAW_HARMONICS as nat);
        lemma_scale_bounds(s, TWO_OVER_PI as int);
        if s >= 0 {
            assert(s * 41722 / 65536 <= 1703936) by (nonlinear_arith)
                requires
                    0 <= s <= 40 * 65536,
            ;
        } else {
            assert((-s) * 41722 / 65536 <= 1703936) by (nonlinear_arith)
                requires
                    0 <= -s <= 40 * 65536,
            ;
        }
    }
}

/// Multiplies `x` by the Q16 factor `g`, rounding toward zero.
pub fn scale_by(x: i64, g: u32) -> (r: i64)
    requires
        -0x8000_0000 <= x <= 0x8000_0000,
    ensures
        r == scale(x as int, g as int),
{
    if x >= 0 {
        assert(0 <= x * g < 0x8000_0000 * 0x1_0000_0000) by (nonlinear_arith)
            requires
                0 <= x <= 0x8000_0000,
                0 <= g < 0x1_0000_0000,
        ;
        x * (g as i64) / (ONE as i64)
    } else {
        assert(0 <= (-x) * g < 0x8000_0000 * 0x1_0000_0000) by (nonlinear_arith)
            requires
                0 < -x <= 0x8000_0000,
                0 <= g < 0x1_0000_0000,
        ;
        -((-x) * (g as i64) / (ONE as i64))
    }
}

/// The sine at table position `i`.
fn sine_at(i: usize) -> (r: i32)
    requires
        i < TABLE_LENGTH,
    ensures
        r == sine_value(i as int),
{
    proof {
        lemma_sine_bounds(i as int);
    }
    let x: u64 = (i % 512) as u64;
    assert(x * (512 - x) <= 65536) by (nonlinear_arith)
        requires
            0 <= x < 512,
    ;
    let p: u64 = x * (512 - x);
    let m: u64 = (ONE as u64) * 16 * p / (1310720 - 4 * p);
    if i < 512 {
        m as i32
    } else {
        -(m as i32)
    }
}

/// The sum of the first `SAW_HARMONICS` harmonics of the sine at table position `i`.
fn saw_at(i: usize) -> (r: i32)
    requires
        i < TABLE_LENGTH,
    ensures
        r == saw_value(i as int),
{
    let mut sum: i64 = 0;
    let mut k: usize = 1;
    while k <= SAW_HARMONICS
        invariant
            1 <= k <= SAW_HARMONICS + 1,
            i < TABLE_LENGTH,
            sum == harmonic_sum(i as int, (k - 1) as nat),
            -((k - 1) * ONE as int) <= sum <= (k - 1) * ONE as int,
        decreases SAW_HARMONICS + 1 - k,
    {
        assert(k * i < 41 * 1024) by (nonlinear_arith)
            requires
                k <= 40,
                i < 1024,
        ;
        let pos: usize = (k * i) % TABLE_LENGTH;
        let v = sine_at(pos);
        proof {
            lemma_sine_bounds(pos as int);
            assert(((k - 1) as nat + 1) as nat == k as nat);
            assert((k - 1) * ONE as int + ONE as int == k * ONE as int) by (nonlinear_arith);
        }
        sum = sum + v as i64;
        k = k + 1;
    }
    proof {
        lemma_wave_value_bounds(Waveform::Saw, i as int);
    }
    scale_by(sum, TWO_OVER_PI) as i32
}

/// The triangle wave at table position `i`.
fn triangle_at(i: usize) -> (r: i32)
    requires
        i < TABLE_LENGTH,
    ensures
        r == triangle_value(i as int),
{
    let x: i32 = i as i32;
    if x <= 256 {
        256 * x
    } else if x <= 768 {
        256 * (512 - x)
    } else {
        256 * (x - 1024)
    }
}

/// Relies on rand's `thread_rng()` and `Rng::gen_range`: a draw from the
/// half-open range `lo..hi`, which panics only when the range is empty.
#[verifier::external_body]
fn random_in(lo: i32, hi: i32) -> (r: i32)
    requires
        lo < hi,
    ensures
        lo <= r < hi,
{
    rand::thread_rng().gen_range(lo..hi)
}

impl Waveform {
    /// The amplitude of one cycle of `self` at table position `index`. Noise
    /// ignores the position and draws a fresh value in `[-1.0, 1.0)`.
    pub fn calc(&self, index: usize) -> (r: i32)
        requires
            index < TABLE_LENGTH,
        ensures
            *self == Waveform::Noise ==> -ONE <= r < ONE,
            *self != Waveform::Noise ==> r == wave_value(*self, index as int),
    {
        match self {
            Waveform::Noise => random_in(-ONE, ONE),
            Waveform::Saw => saw_at(index),
            Waveform::Sine => sine_at(index),
            Waveform::Square => {
                if sine_at(index) > 0 {
                    ONE
                } else {
                    -ONE
                }
            },
            Waveform::Triangle => triangle_at(index),
        }
    }

    /// The sample of `self` at table position `index`, read from `tables`
    /// (nearest below, no interpolation); the position wraps at the table
    /// length. Noise has no table: each call draws a fresh value in
    /// `[-1.0, 1.0)`.
    pub fn get_sample(&self, tables: &WaveTables, index: usize) -> (r: i32)
        requires
            tables.wf(),
        ensures
            *self == Waveform::Noise ==> -ONE <= r < ONE,
            *self != Waveform::Noise ==> r == wave_value(*self, (index % TABLE_LENGTH) as int),
            -MAX_SAMPLE <= r <= MAX_SAMPLE,
    {
        let i = index % TABLE_LENGTH;
        proof {
            lemma_wave_value_bounds(*self, i as int);
        }
        match self {
            Waveform::Noise => random_in(-ONE, ONE),
            Waveform::Saw => tables.saw[i],
            Waveform::Sine => tables.sine[i],
            Waveform::Square => tables.square[i],
            Waveform::Triangle => tables.triangle[i],
        }
    }
}

/// One precomputed cycle of each periodic waveform.
pub struct WaveTables {
    saw: Vec<i32>,
    sine: Vec<i32>,
    square: Vec<i32>,
    triangle: Vec<i32>,
}

/// Whether `t` holds exactly one cycle of `w`.
pub open spec fn is_table_of(t: Seq<i32>, w: Waveform) -> bool {
    &&& t.len() == TABLE_LENGTH
    &&& forall|i: int| 0 <= i < TABLE_LENGTH ==> t[i] as int == wave_value(w, i)
}

impl WaveTables {
    /// Each table holds one cycle of its waveform.
    pub closed spec fn wf(&self) -> bool {
        &&& is_table_of(self.saw@, Waveform::Saw)
        &&& is_table_of(self.sine@, Waveform::Sine)
        &&& is_table_of(self.square@, Waveform::Square)
        &&& is_table_of(self.triangle@, Waveform::Triangle)
    }
}

/// Samples one cycle of `w` into a table.
fn generate(w: Waveform) -> (t: Vec<i32>)
    requires
        w != Waveform::Noise,
    ensures
        is_table_of(t@, w),
{
    let mut t: Vec<i32> = Vec::new();
    let mut i: usize = 0;
    while i < TABLE_LENGTH
        invariant
            w != Waveform::Noise,
            i <= TABLE_LENGTH,
            t@.len() == i,
            forall|j: int| 0 <= j < i ==> t@[j] as int == wave_value(w, j),
        decreases TABLE_LENGTH - i,
    {
        let v = w.calc(i);
        t.push(v);
        i = i + 1;
    }
    t
}

/// Builds the lookup tables of every periodic waveform, once, before any
/// oscillator reads them.
pub fn init_tables() -> (t: WaveTables)
    ensures
        t.wf(),
{
    WaveTables {
        saw: generate(Waveform::Saw),
        sine: generate(Waveform::Sine),
        square: generate(Waveform::Square),
        triangle: generate(Waveform::Triangle),
    }
}

/// Every periodic waveform starts a cycle at zero amplitude, except the square
/// wave, so that a note restarted at position 0 does not click.
pub proof fn lemma_cycle_starts_at_zero(w: Waveform)
    requires
        w != Waveform::Noise,
        w != Waveform::Square,
    ensures
        wave_value(w, 0) == 0,
{
    lemma_harmonic_sum_at_zero(SAW_HARMONICS as nat);
    lemma_sine_at_zero();
    assert(scale(0, TWO_OVER_PI as int) == 0);
}

/// The square wave only ever takes the values +1.0 and -1.0.
pub proof fn lemma_square_is_two_valued(i: int)
    ensures
        wave_value(Waveform::Square, i) == ONE || wave_value(Waveform::Square, i) == -ONE,
{
}

} // verus!
