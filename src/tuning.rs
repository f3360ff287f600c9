//! Pitch and level conversions: MIDI pitch to frequency, and decibels to a
//! gain factor.
use vstd::prelude::*;

verus! {

/// The lowest gain, in dB, that a control can set; lower requests are raised to it.
pub const MIN_DB: i32 = -120;

/// The highest gain, in dB, that a control can set: unity.
pub const MAX_DB: i32 = 0;

/// The highest MIDI pitch.
pub const MAX_PITCH: u8 = 127;

/// The highest pitch in cents (a hundredth of a semitone) that has a frequency.
pub const MAX_CENTS: u32 = 12700;

/// The frequency in milli-hertz of the `s`-th semitone above middle C (MIDI
/// pitch 60), rounded down; the A above it (`s == 9`) is exactly 440 Hz.
pub open spec fn semitone_mhz(s: int) -> int {
    if s == 0 { 261625 }
    else if s == 1 { 277182 }
    else if s == 2 { 293664 }
    else if s == 3 { 311126 }
    else if s == 4 { 329627 }
    else if s == 5 { 349228 }
    else if s == 6 { 369994 }
    else if s == 7 { 391995 }
    else if s == 8 { 415304 }
    else if s == 9 { 440000 }
    else if s == 10 { 466163 }
    else { 493883 }
}

pub open spec fn pow2(n: nat) -> int
    decreases n,
{
    if n == 0 {
        1
    } else {
        2 * pow2((n - 1) as nat)
    }
}

pub open spec fn pow10(n: nat) -> int
    decreases n,
{
    if n == 0 {
        1
    } else {
        10 * pow10((n - 1) as nat)
    }
}

/// The frequency of MIDI pitch `n`, in milli-hertz: `440 * 2^((n - 69) / 12)` Hz,
/// taken from the semitone within the octave, shifted by whole octaves from
/// the one that starts at pitch 60.
pub open spec fn midi_mhz(n: int) -> int {
    semitone_mhz(n % 12) * pow2((n / 12) as nat) / 32
}

/// The frequency of a pitch given in cents, in milli-hertz: exact on each
/// semitone and linear between neighbouring semitones.
pub open spec fn cents_mhz(c: int) -> int {
    let n = c / 100;
    let f = c % 100;
    if f == 0 {
        midi_mhz(n)
    } else {
        midi_mhz(n) + (midi_mhz(n + 1) - midi_mhz(n)) * f / 100
    }
}

/// A gain in dB held to `[MIN_DB, MAX_DB]`.
pub open spec fn clamp_db(d: int) -> int {
    if d < MIN_DB {
        MIN_DB as int
    } else if d > MAX_DB {
        MAX_DB as int
    } else {
        d
    }
}

/// `10^(r/20)` in Q16, rounded down, for a step `r` in `[0, 20)` dB.
pub open spec fn decibel_step(r: int) -> int {
    if r == 0 { 65536 }
    else if r == 1 { 73532 }
    else if r == 2 { 82504 }
    else if r == 3 { 92572 }
    else if r == 4 { 103867 }
    else if r == 5 { 116541 }
    else if r == 6 { 130761 }
    else if r == 7 { 146716 }
    else if r == 8 { 164618 }
    else if r == 9 { 184705 }
    else if r == 10 { 207243 }
    else if r == 11 { 232530 }
    else if r == 12 { 260903 }
    else if r == 13 { 292738 }
    else if r == 14 { 328458 }
    else if r == 15 { 368536 }
    else if r == 16 { 413504 }
    else if r == 17 { 463959 }
    else if r == 18 { 520570 }
    else { 584090 }
}

/// The gain factor of `d` dB, `10^(d/20)` in Q16, once `d` is held to
/// `[MIN_DB, MAX_DB]`: the attenuation `n = -d` is split into whole decades
/// (`20 k` dB, a division by `10^k`) less a step of `r` dB.
pub open spec fn db_amp(d: int) -> int {
    let n = -clamp_db(d);
    let k = (n + 19) / 20;
    let r = 20 * k - n;
    decibel_step(r) / pow10(k as nat)
}

pub open spec fn pow4(x: int) -> int {
    (x * x) * (x * x)
}

pub open spec fn pow12(x: int) -> int {
    pow4(x) * pow4(x) * pow4(x)
}

pub open spec fn pow20(x: int) -> int {
    pow12(x) * pow4(x) * pow4(x)
}

/// `pow12(x) == x4 * x4 * x4`, given the squares on the way.
proof fn lemma_pow12_value(x: int, x2: int, x4: int)
    requires
        x * x == x2,
        x2 * x2 == x4,
    ensures
        pow12(x) == x4 * x4 * x4,
{
}

/// `pow20(x) == x4 * x4 * x4 * x4 * x4`, given the squares on the way.
proof fn lemma_pow20_value(x: int, x2: int, x4: int)
    requires
        x * x == x2,
        x2 * x2 == x4,
    ensures
        pow20(x) == x4 * x4 * x4 * x4 * x4,
{
}

/// Each semitone frequency is `440000 * 2^((s - 9) / 12)` milli-hertz rounded
/// down: its twelfth power, shifted by the octave fraction, brackets `440000^12`.
#[verifier::spinoff_prover]
pub proof fn lemma_semitones_are_rounded_down(s: int)
    requires
        0 <= s < 12,
    ensures
        s <= 9 ==> pow12(semitone_mhz(s)) * pow2((9 - s) as nat) <= pow12(440000)
            < pow12(semitone_mhz(s) + 1) * pow2((9 - s) as nat),
        s > 9 ==> pow12(semitone_mhz(s)) <= pow12(440000) * pow2((s - 9) as nat)
            < pow12(semitone_mhz(s) + 1),
{
    reveal_with_fuel(pow2, 10);
    if s == 0 {
        assert(pow2(9) == 512);
        assert(pow12(261625) * 512 <= pow12(440000) < pow12(261626) * 512) by {
            lemma_pow12_value(440000, 193600000000, 37480960000000000000000);
            lemma_pow12_value(261625, 68447640625, 4685079507129150390625);
            lemma_pow12_value(261626, 68448163876, 4685151137995751343376);
        }
    } else if s == 1 {
        assert(pow2(8) == 256);
        assert(pow12(277182) * 256 <= pow12(440000) < pow12(277183) * 256) by {
            lemma_pow12_value(440000, 193600000000, 37480960000000000000000);
            lemma_pow12_value(277182, 76829861124, 5902827560333126543376);
            lemma_pow12_value(277183, 76830415489, 5902912744212371109121);
        }
    } else if s == 2 {
        assert(pow2(7) == 128);
        assert(pow12(293664) * 128 <= pow12(440000) < pow12(293665) * 128) by {
            lemma_pow12_value(440000, 193600000000, 37480960000000000000000);
            lemma_pow12_value(293664, 86238544896, 7437086625779407650816);
            lemma_pow12_value(293665, 86239132225, 7437187926921033450625);
        }
    } else if s == 3 {
        assert(pow2(6) == 64);
        assert(pow12(311126) * 64 <= pow12(440000) < pow12(311127) * 64) by {
            lemma_pow12_value(440000, 193600000000, 37480960000000000000000);
            lemma_pow12_value(311126, 96799387876, 9370121493168295791376);
            lemma_pow12_value(311127, 96800010129, 9370241960974502596641);
        }
    } else if s == 4 {
        assert(pow2(5) == 32);
        assert(pow12(329627) * 32 <= pow12(440000) < pow12(329628) * 32) by {
            lemma_pow12_value(440000, 193600000000, 37480960000000000000000);
            lemma_pow12_value(329627, 108653959129, 11805682834406402438641);
            lemma_pow12_value(329628, 108654618384, 11805826096172670771456);
        }
    } else if s == 5 {
        assert(pow2(4) == 16);
        assert(pow12(349228) * 16 <= pow12(440000) < pow12(349229) * 16) by {
            lemma_pow12_value(440000, 193600000000, 37480960000000000000000);
            lemma_pow12_value(349228, 121960195984, 14874289404455689728256);
            lemma_pow12_value(349229, 121960894441, 14874459772848744702481);
        }
    } else if s == 6 {
        assert(pow2(3) == 8);
        assert(pow12(369994) * 8 <= pow12(440000) < pow12(369995) * 8) by {
            lemma_pow12_value(440000, 193600000000, 37480960000000000000000);
            lemma_pow12_value(369994, 136895560036, 18740394357570080321296);
            lemma_pow12_value(369995, 136896300025, 18740596960534815000625);
        }
    } else if s == 7 {
        assert(pow2(2) == 4);
        assert(pow12(391995) * 4 <= pow12(440000) < pow12(391996) * 4) by {
            lemma_pow12_value(440000, 193600000000, 37480960000000000000000);
            lemma_pow12_value(391995, 153660080025, 23611420193289404000625);
            lemma_pow12_value(391996, 153660864016, 23611661130143643648256);
        }
    } else if s == 8 {
        assert(pow2(1) == 2);
        assert(pow12(415304) * 2 <= pow12(440000) < pow12(415305) * 2) by {
            lemma_pow12_value(440000, 193600000000, 37480960000000000000000);
            lemma_pow12_value(415304, 172477412416, 29748457793718950957056);
            lemma_pow12_value(415305, 172478243025, 29748744316990961150625);
        }
    } else if s == 9 {
        assert(pow2(0) == 1);
        assert(pow12(440000) * 1 <= pow12(440000) < pow12(440001) * 1) by {
            lemma_pow12_value(440000, 193600000000, 37480960000000000000000);
            lemma_pow12_value(440000, 193600000000, 37480960000000000000000);
            lemma_pow12_value(440001, 193600880001, 37481300737161601760001);
        }
    } else if s == 10 {
        assert(pow2(1) == 2);
        assert(pow12(466163) <= pow12(440000) * 2 < pow12(466164)) by {
            lemma_pow12_value(440000, 193600000000, 37480960000000000000000);
            lemma_pow12_value(466163, 217307942569, 47222741903571802319761);
            lemma_pow12_value(466164, 217308874896, 47223147108565379010816);
        }
    } else if s == 11 {
        assert(pow2(2) == 4);
        assert(pow12(493883) <= pow12(440000) * 4 < pow12(493884)) by {
            lemma_pow12_value(440000, 193600000000, 37480960000000000000000);
            lemma_pow12_value(493883, 243920417689, 59497170165576224100721);
            lemma_pow12_value(493884, 243921405456, 59497652039630346567936);
        }
    }
}

/// Each decibel step is `65536 * 10^(r/20)` rounded down: its twentieth power
/// brackets `65536^20 * 10^r`.
#[verifier::spinoff_prover]
pub proof fn lemma_decibel_steps_are_rounded_down(r: int)
    requires
        0 <= r < 20,
    ensures
        pow20(decibel_step(r)) <= pow20(65536) * pow10(r as nat) < pow20(decibel_step(r) + 1),
{
    reveal_with_fuel(pow10, 20);
    if r == 0 {
        assert(pow10(0) == 1);
        assert(pow20(65536) <= pow20(65536) * 1 < pow20(65537)) by {
            lemma_pow20_value(65536, 4294967296, 18446744073709551616);
            lemma_pow20_value(65536, 4294967296, 18446744073709551616);
            lemma_pow20_value(65537, 4295098369, 18447869999386460161);
        }
    } else if r == 1 {
        assert(pow10(1) == 10);
        assert(pow20(73532) <= pow20(65536) * 10 < pow20(73533)) by {
            lemma_pow20_value(65536, 4294967296, 18446744073709551616);
            lemma_pow20_value(73532, 5406955024, 29235162631558840576);
            lemma_pow20_value(73533, 5407102089, 29236753000868163921);
        }
    } else if r == 2 {
        assert(pow10(2) == 100);
        assert(pow20(82504) <= pow20(65536) * 100 < pow20(82505)) by {
            lemma_pow20_value(65536, 4294967296, 18446744073709551616);
            lemma_pow20_value(82504, 6806910016, 46334023965921120256);
            lemma_pow20_value(82505, 6807075025, 46336270395978750625);
        }
    } else if r == 3 {
        assert(pow10(3) == 1000);
        assert(pow20(92572) <= pow20(65536) * 1000 < pow20(92573)) by {
            lemma_pow20_value(65536, 4294967296, 18446744073709551616);
            lemma_pow20_value(92572, 8569575184, 73437618834228633856);
            lemma_pow20_value(92573, 8569760329, 73440792096502188241);
        }
    } else if r == 4 {
        assert(pow10(4) == 10000);
        assert(pow20(103867) <= pow20(65536) * 10000 < pow20(103868)) by {
            lemma_pow20_value(65536, 4294967296, 18446744073709551616);
            lemma_pow20_value(103867, 10788353689, 116388575318959908721);
            lemma_pow20_value(103868, 10788561424, 116393057599420907776);
        }
    } else if r == 5 {
        assert(pow10(5) == 100000);
        assert(pow20(116541) <= pow20(65536) * 100000 < pow20(116542)) by {
            lemma_pow20_value(65536, 4294967296, 18446744073709551616);
            lemma_pow20_value(116541, 13581804681, 184465418392833511761);
            lemma_pow20_value(116542, 13582037764, 184471749822722119696);
        }
    } else if r == 6 {
        assert(pow10(6) == 1000000);
        assert(pow20(130761) <= pow20(65536) * 1000000 < pow20(130762)) by {
            lemma_pow20_value(65536, 4294967296, 18446744073709551616);
            lemma_pow20_value(130761, 17098439121, 292356620374543252641);
            lemma_pow20_value(130762, 17098700644, 292365563713126014736);
        }
    } else if r == 7 {
        assert(pow10(7) == 10000000);
        assert(pow20(146716) <= pow20(65536) * 10000000 < pow20(146717)) by {
            lemma_pow20_value(65536, 4294967296, 18446744073709551616);
            lemma_pow20_value(146716, 21525584656, 463350794782622638336);
            lemma_pow20_value(146717, 21525878089, 463363427502490291921);
        }
    } else if r == 8 {
        assert(pow10(8) == 100000000);
        assert(pow20(164618) <= pow20(65536) * 100000000 < pow20(164619)) by {
            lemma_pow20_value(65536, 4294967296, 18446744073709551616);
            lemma_pow20_value(164618, 27099085924, 734360457916334933776);
            lemma_pow20_value(164619, 27099415161, 734378302068236655921);
        }
    } else if r == 9 {
        assert(pow10(9) == 1000000000);
        assert(pow20(184705) <= pow20(65536) * 1000000000 < pow20(184706)) by {
            lemma_pow20_value(65536, 4294967296, 18446744073709551616);
            lemma_pow20_value(184705, 34115937025, 1163897159093765850625);
            lemma_pow20_value(184706, 34116306436, 1163922364835055022096);
        }
    } else if r == 10 {
        assert(pow10(10) == 10000000000);
        assert(pow20(207243) <= pow20(65536) * 10000000000 < pow20(207244)) by {
            lemma_pow20_value(65536, 4294967296, 18446744073709551616);
            lemma_pow20_value(207243, 42949661049, 1844673384223987780401);
            lemma_pow20_value(207244, 42950075536, 1844708988548105687296);
        }
    } else if r == 11 {
        assert(pow10(11) == 100000000000);
        assert(pow20(232530) <= pow20(65536) * 100000000000 < pow20(232531)) by {
            lemma_pow20_value(65536, 4294967296, 18446744073709551616);
            lemma_pow20_value(232530, 54070200900, 2923586625366360810000);
            lemma_pow20_value(232531, 54070665961, 2923636917466044053521);
        }
    } else if r == 12 {
        assert(pow10(12) == 1000000000000);
        assert(pow20(260903) <= pow20(65536) * 1000000000000 < pow20(260904)) by {
            lemma_pow20_value(65536, 4294967296, 18446744073709551616);
            lemma_pow20_value(260903, 68070375409, 4633576008322191917281);
            lemma_pow20_value(260904, 68070897216, 4633647047791236550656);
        }
    } else if r == 13 {
        assert(pow10(13) == 10000000000000);
        assert(pow20(292738) <= pow20(65536) * 10000000000000 < pow20(292739)) by {
            lemma_pow20_value(65536, 4294967296, 18446744073709551616);
            lemma_pow20_value(292738, 85695536644, 7343725000703146782736);
            lemma_pow20_value(292739, 85696122121, 7343825346577345538641);
        }
    } else if r == 14 {
        assert(pow10(14) == 100000000000000);
        assert(pow20(328458) <= pow20(65536) * 100000000000000 < pow20(328459)) by {
            lemma_pow20_value(65536, 4294967296, 18446744073709551616);
            lemma_pow20_value(328458, 107884657764, 11639099380855405479696);
            lemma_pow20_value(328459, 107885314681, 11639241123818394131761);
        }
    } else if r == 15 {
        assert(pow10(15) == 1000000000000000);
        assert(pow20(368536) <= pow20(65536) * 1000000000000000 < pow20(368537)) by {
            lemma_pow20_value(65536, 4294967296, 18446744073709551616);
            lemma_pow20_value(368536, 135818783296, 18446741896005808623616);
            lemma_pow20_value(368537, 135819520369, 18446942113265205896161);
        }
    } else if r == 16 {
        assert(pow10(16) == 10000000000000000);
        assert(pow20(413504) <= pow20(65536) * 10000000000000000 < pow20(413505)) by {
            lemma_pow20_value(65536, 4294967296, 18446744073709551616);
            lemma_pow20_value(413504, 170985558016, 29236061050042901856256);
            lemma_pow20_value(413505, 170986385025, 29236343863917544250625);
        }
    } else if r == 17 {
        assert(pow10(17) == 100000000000000000);
        assert(pow20(463959) <= pow20(65536) * 100000000000000000 < pow20(463960)) by {
            lemma_pow20_value(65536, 4294967296, 18446744073709551616);
            lemma_pow20_value(463959, 215257953681, 46335986622931541449761);
            lemma_pow20_value(463960, 215258881600, 46336386107682818560000);
        }
    } else if r == 18 {
        assert(pow10(18) == 1000000000000000000);
        assert(pow20(520570) <= pow20(65536) * 1000000000000000000 < pow20(520571)) by {
            lemma_pow20_value(65536, 4294967296, 18446744073709551616);
            lemma_pow20_value(520570, 270993124900, 73437273743067000010000);
            lemma_pow20_value(520571, 270994166041, 73437838028257077613681);
        }
    } else if r == 19 {
        assert(pow10(19) == 10000000000000000000);
        assert(pow20(584090) <= pow20(65536) * 10000000000000000000 < pow20(584091)) by {
            lemma_pow20_value(65536, 4294967296, 18446744073709551616);
            lemma_pow20_value(584090, 341161128100, 116390915326464609610000);
            lemma_pow20_value(584091, 341162296281, 116391712403724826430961);
        }
    }
}

fn semitone_of(s: u64) -> (r: u64)
    requires
        s < 12,
    ensures
        r == semitone_mhz(s as int),
{
    if s == 0 { 261625 }
    else if s == 1 { 277182 }
    else if s == 2 { 293664 }
    else if s == 3 { 311126 }
    else if s == 4 { 329627 }
    else if s == 5 { 349228 }
    else if s == 6 { 369994 }
    else if s == 7 { 391995 }
    else if s == 8 { 415304 }
    else if s == 9 { 440000 }
    else if s == 10 { 466163 }
    else { 493883 }
}

fn decibel_step_of(r: u32) -> (v: u32)
    requires
        r < 20,
    ensures
        v == decibel_step(r as int),
{
    if r == 0 { 65536 }
    else if r == 1 { 73532 }
    else if r == 2 { 82504 }
    else if r == 3 { 92572 }
    else if r == 4 { 103867 }
    else if r == 5 { 116541 }
    else if r == 6 { 130761 }
    else if r == 7 { 146716 }
    else if r == 8 { 164618 }
    else if r == 9 { 184705 }
    else if r == 10 { 207243 }
    else if r == 11 { 232530 }
    else if r == 12 { 260903 }
    else if r == 13 { 292738 }
    else if r == 14 { 328458 }
    else if r == 15 { 368536 }
    else if r == 16 { 413504 }
    else if r == 17 { 463959 }
    else if r == 18 { 520570 }
    else { 584090 }
}

proof fn lemma_pow2_bound(n: nat)
    ensures
        1 <= pow2(n),
    decreases n,
{
    if n > 0 {
        lemma_pow2_bound((n - 1) as nat);
    }
}

proof fn lemma_pow2_small()
    ensures
        pow2(9) == 512,
        pow2(10) == 1024,
{
    reveal_with_fuel(pow2, 11);
}

/// `pow2` is at most 1024 up to 10.
proof fn lemma_pow2_bound_small(n: nat)
    requires
        n <= 10,
    ensures
        pow2(n) <= 1024,
        n <= 9 ==> pow2(n) <= 512,
{
    lemma_pow2_small();
    lemma_pow2_monotone(n, 10);
    if n <= 9 {
        lemma_pow2_monotone(n, 9);
    }
}

/// Frequencies rise with pitch and stay below 12.6 kHz.
proof fn lemma_midi_mhz_bounds(n: int)
    requires
        0 <= n <= MAX_PITCH,
    ensures
        0 <= midi_mhz(n) <= 12543840,
{
    lemma_pow2_bound((n / 12) as nat);
    let s = semitone_mhz(n % 12);
    let p = pow2((n / 12) as nat);
    lemma_pow2_bound_small((n / 12) as nat);
    if n / 12 == 10 {
        assert(n % 12 <= 7);
        assert(s <= 391995);
    }
    assert(0 <= s * p <= 391995 * 1024 || (n / 12 < 10 && 0 <= s * p <= 493883 * 512)) by {
        if n / 12 < 10 {
            assert(0 <= s * p <= 493883 * 512) by (nonlinear_arith)
                requires
                    0 <= s <= 493883,
                    1 <= p <= 512,
            ;
        } else {
            assert(0 <= s * p <= 391995 * 1024) by (nonlinear_arith)
                requires
                    0 <= s <= 391995,
                    1 <= p <= 1024,
            ;
        }
    }
}

proof fn lemma_pow2_monotone(a: nat, b: nat)
    requires
        a <= b,
    ensures
        pow2(a) <= pow2(b),
    decreases b - a,
{
    if a < b {
        lemma_pow2_monotone(a, (b - 1) as nat);
        lemma_pow2_bound((b - 1) as nat);
    }
}

/// The frequency of MIDI pitch `pitch`, in milli-hertz.
pub fn midi_to_mhz(pitch: u8) -> (r: u64)
    requires
        pitch <= MAX_PITCH,
    ensures
        r == midi_mhz(pitch as int),
{
    proof {
        lemma_midi_mhz_bounds(pitch as int);
    }
    let octave: u64 = (pitch / 12) as u64;
    let mut v: u64 = semitone_of((pitch % 12) as u64);
    let mut k: u64 = 0;
    assert(pow2(0) == 1);
    while k < octave
        invariant
            k <= octave <= 10,
            pitch <= MAX_PITCH,
            octave == pitch / 12,
            v == semitone_mhz((pitch % 12) as int) * pow2(k as nat),
        decreases octave - k,
    {
        proof {
            lemma_pow2_bound_small((k + 1) as nat);
            lemma_pow2_bound(k as nat);
            assert(v * 2 <= 493883 * 1024) by (nonlinear_arith)
                requires
                    v == semitone_mhz((pitch % 12) as int) * pow2(k as nat),
                    semitone_mhz((pitch % 12) as int) <= 493883,
                    2 * pow2(k as nat) <= 1024,
                    pow2(k as nat) >= 1,
                    semitone_mhz((pitch % 12) as int) >= 0,
            ;
        }
        v = v * 2;
        k = k + 1;
        proof {
            assert(pow2(k as nat) == 2 * pow2((k - 1) as nat));
            assert(v == semitone_mhz((pitch % 12) as int) * pow2(k as nat)) by (nonlinear_arith)
                requires
                    v == 2 * (semitone_mhz((pitch % 12) as int) * pow2((k - 1) as nat)),
                    pow2(k as nat) == 2 * pow2((k - 1) as nat),
            ;
        }
    }
    v / 32
}

/// The frequency of a pitch given in cents (`100 * pitch` lands on a MIDI
/// pitch), in milli-hertz.
pub fn cents_to_mhz(cents: u32) -> (r: u64)
    requires
        cents <= MAX_CENTS,
    ensures
        r == cents_mhz(cents as int),
{
    let n: u8 = (cents / 100) as u8;
    let f: u64 = (cents % 100) as u64;
    let low = midi_to_mhz(n);
    if f == 0 {
        low
    } else {
        let high = midi_to_mhz(n + 1);
        proof {
            lemma_midi_mhz_monotone_step(n as int);
            lemma_midi_mhz_bounds(n as int + 1);
            assert((high - low) * f <= 12543840 * 100) by (nonlinear_arith)
                requires
                    0 <= high - low <= 12543840,
                    f < 100,
            ;
        }
        low + (high - low) * f / 100
    }
}

/// A pitch one semitone up is never lower.
proof fn lemma_midi_mhz_monotone_step(n: int)
    requires
        0 <= n < MAX_PITCH,
    ensures
        midi_mhz(n) <= midi_mhz(n + 1),
{
    let o = n / 12;
    let s = n % 12;
    lemma_pow2_bound(o as nat);
    let p = pow2(o as nat);
    if s < 11 {
        assert((n + 1) / 12 == o && (n + 1) % 12 == s + 1);
        assert(semitone_mhz(s) <= semitone_mhz(s + 1));
        assert(semitone_mhz(s) * p <= semitone_mhz(s + 1) * p) by (nonlinear_arith)
            requires
                semitone_mhz(s) <= semitone_mhz(s + 1),
                p >= 1,
        ;
        assert(semitone_mhz(s) * p / 32 <= semitone_mhz(s + 1) * p / 32) by (nonlinear_arith)
            requires
                semitone_mhz(s) * p <= semitone_mhz(s + 1) * p,
        ;
    } else {
        assert((n + 1) / 12 == o + 1 && (n + 1) % 12 == 0);
        assert(pow2((o + 1) as nat) == 2 * p);
        assert(493883 * p <= 261625 * (2 * p)) by (nonlinear_arith)
            requires
                p >= 1,
        ;
        assert(493883 * p / 32 <= 261625 * (2 * p) / 32) by (nonlinear_arith)
            requires
                493883 * p <= 261625 * (2 * p),
        ;
    }
}

/// Every pitch in cents has a frequency below 12.6 kHz.
pub proof fn lemma_cents_mhz_bounds(c: int)
    requires
        0 <= c <= MAX_CENTS,
    ensures
        0 <= cents_mhz(c) <= 12543840,
{
    let n = c / 100;
    let f = c % 100;
    lemma_midi_mhz_bounds(n);
    if f != 0 {
        lemma_midi_mhz_monotone_step(n);
        lemma_midi_mhz_bounds(n + 1);
        let lo = midi_mhz(n);
        let hi = midi_mhz(n + 1);
        assert(0 <= (hi - lo) * f / 100 <= hi - lo) by (nonlinear_arith)
            requires
                0 <= hi - lo,
                0 < f < 100,
        ;
    }
}

/// Converts a gain in decibels to a Q16 gain factor, `10^(db/20)`. The
/// request is first held to `[MIN_DB, MAX_DB]`, so the factor is at most 1.0.
pub fn db_to_amp(db: i32) -> (r: u32)
    ensures
        r == db_amp(db as int),
        r <= 65536,
{
    let d: i32 = if db < MIN_DB {
        MIN_DB
    } else if db > MAX_DB {
        MAX_DB
    } else {
        db
    };
    let n: u32 = (-d) as u32;
    let k: u32 = (n + 19) / 20;
    let r: u32 = 20 * k - n;
    let step = decibel_step_of(r);
    let mut v: u32 = step;
    let mut i: u32 = 0;
    assert(pow10(0) == 1);
    while i < k
        invariant
            i <= k <= 6,
            r < 20,
            step == decibel_step(r as int),
            v == (step as int) / pow10(i as nat),
            v <= step,
        decreases k - i,
    {
        proof {
            lemma_pow10_positive(i as nat);
            vstd::arithmetic::div_mod::lemma_div_denominator(step as int, pow10(i as nat), 10);
            assert(pow10((i + 1) as nat) == pow10(i as nat) * 10);
        }
        v = v / 10;
        i = i + 1;
    }
    proof {
        if k == 0 {
            assert(n == 0 && r == 0);
        } else {
            assert(v <= 58409) by {
                assert(pow10(1) == 10);
                lemma_pow10_positive(k as nat);
                lemma_pow10_monotone(1, k as nat);
                vstd::arithmetic::div_mod::lemma_div_is_ordered_by_denominator(step as int, 10, pow10(k as nat));
            }
        }
    }
    v
}

proof fn lemma_pow10_positive(n: nat)
    ensures
        pow10(n) >= 1,
    decreases n,
{
    if n > 0 {
        lemma_pow10_positive((n - 1) as nat);
    }
}

proof fn lemma_pow10_monotone(a: nat, b: nat)
    requires
        a <= b,
    ensures
        pow10(a) <= pow10(b),
    decreases b - a,
{
    if a < b {
        lemma_pow10_monotone(a, (b - 1) as nat);
        lemma_pow10_positive((b - 1) as nat);
    }
}

} // verus!
