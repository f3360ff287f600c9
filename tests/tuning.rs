use synth_core::tuning::cents_to_mhz;
use synth_core::tuning::db_to_amp;
use synth_core::tuning::midi_to_mhz;
use synth_core::wave::ONE;

#[test]
fn midi_a4_and_a5_are_exact() {
    assert_eq!(midi_to_mhz(69), 440_000);
    assert_eq!(midi_to_mhz(81), 880_000);
    assert_eq!(midi_to_mhz(57), 220_000);
}

#[test]
fn midi_extremes() {
    assert_eq!(midi_to_mhz(0), 8175);
    assert_eq!(midi_to_mhz(60), 261_625);
    assert_eq!(midi_to_mhz(127), 12_543_840);
    for p in 0..127u8 {
        assert!(midi_to_mhz(p) <= midi_to_mhz(p + 1));
    }
}

#[test]
fn cents_land_on_semitones_and_interpolate_between() {
    assert_eq!(cents_to_mhz(6900), 440_000);
    assert_eq!(cents_to_mhz(7000), 466_163);
    assert_eq!(cents_to_mhz(6950), 440_000 + (466_163 - 440_000) / 2);
}

#[test]
fn decibels_to_amplitude() {
    assert_eq!(db_to_amp(0), ONE as u32);
    let tenth = db_to_amp(-20);
    assert_eq!(tenth, 6553);
    assert!((tenth as f64 / ONE as f64 - 0.1).abs() < 0.001);
    assert_eq!(db_to_amp(-6), 32845);
    assert_eq!(db_to_amp(-40), 655);
}

#[test]
fn decibels_are_held_to_range() {
    assert_eq!(db_to_amp(12), ONE as u32);
    assert_eq!(db_to_amp(-500), db_to_amp(-120));
    assert_eq!(db_to_amp(-120), 0);
}
