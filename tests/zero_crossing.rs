use synth_core::wave::init_tables;
use synth_core::wave::Waveform;
use synth_core::wave::MAX_SAMPLE;
use synth_core::wave::ONE;
use synth_core::wave::TABLE_LENGTH;

#[test]
fn first_saw_sample_is_zero() {
    let tables = init_tables();
    assert_eq!(Waveform::Saw.get_sample(&tables, 0), 0)
}

#[test]
fn first_sine_sample_is_zero() {
    let tables = init_tables();
    assert_eq!(Waveform::Sine.get_sample(&tables, 0), 0)
}

#[test]
fn first_triangle_sample_is_zero() {
    let tables = init_tables();
    assert_eq!(Waveform::Triangle.get_sample(&tables, 0), 0)
}

#[test]
fn square_is_always_full_scale() {
    let tables = init_tables();
    for i in 0..TABLE_LENGTH {
        let v = Waveform::Square.get_sample(&tables, i);
        assert!(v == ONE || v == -ONE, "square sample {} is {}", i, v);
    }
    assert_eq!(Waveform::Square.get_sample(&tables, 0), -ONE);
    assert_eq!(Waveform::Square.get_sample(&tables, 256), ONE);
    assert_eq!(Waveform::Square.get_sample(&tables, 768), -ONE);
}

#[test]
fn sine_crest_and_trough_are_full_scale() {
    let tables = init_tables();
    assert_eq!(Waveform::Sine.get_sample(&tables, 256), ONE);
    assert_eq!(Waveform::Sine.get_sample(&tables, 512), 0);
    assert_eq!(Waveform::Sine.get_sample(&tables, 768), -ONE);
    // Bhaskara's form at an eighth of a cycle: 16 p / (5 h^2 - 4 p) with p = 128 * 384.
    assert_eq!(Waveform::Sine.get_sample(&tables, 128), 46260);
}

#[test]
fn triangle_is_a_folded_line() {
    let tables = init_tables();
    assert_eq!(Waveform::Triangle.get_sample(&tables, 128), ONE / 2);
    assert_eq!(Waveform::Triangle.get_sample(&tables, 256), ONE);
    assert_eq!(Waveform::Triangle.get_sample(&tables, 512), 0);
    assert_eq!(Waveform::Triangle.get_sample(&tables, 768), -ONE);
    assert_eq!(Waveform::Triangle.get_sample(&tables, 1023), -256);
}

#[test]
fn saw_sums_forty_harmonics() {
    let tables = init_tables();
    let mut sum: i64 = 0;
    for k in 1..=40usize {
        sum += Waveform::Sine.calc((k * 3) % TABLE_LENGTH) as i64;
    }
    let expected = (sum * 41722 / 65536) as i32;
    assert_eq!(Waveform::Saw.get_sample(&tables, 3), expected);
    assert_eq!(Waveform::Saw.calc(3), expected);
    for i in 0..TABLE_LENGTH {
        let v = Waveform::Saw.get_sample(&tables, i);
        assert!(-MAX_SAMPLE <= v && v <= MAX_SAMPLE);
    }
}

#[test]
fn tables_match_direct_calculation() {
    let tables = init_tables();
    for w in [Waveform::Saw, Waveform::Sine, Waveform::Square, Waveform::Triangle] {
        for i in (0..TABLE_LENGTH).step_by(37) {
            assert_eq!(w.get_sample(&tables, i), w.calc(i));
        }
    }
}

#[test]
fn noise_is_random_within_range() {
    let tables = init_tables();
    let mut values = Vec::new();
    for i in 0..64 {
        let v = Waveform::Noise.get_sample(&tables, i % TABLE_LENGTH);
        assert!(-ONE <= v && v < ONE);
        values.push(v);
    }
    assert!(values.iter().any(|v| *v != values[0]));
}

#[test]
fn lookup_wraps_at_table_length() {
    let tables = init_tables();
    assert_eq!(Waveform::Sine.get_sample(&tables, TABLE_LENGTH + 256), ONE);
    assert_eq!(Waveform::Square.get_sample(&tables, 5 * TABLE_LENGTH), -ONE);
    assert_eq!(Waveform::Triangle.get_sample(&tables, 3 * TABLE_LENGTH + 768), -ONE);
}
