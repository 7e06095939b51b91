use goonj::velvet::{clamp_ir_length, velvet_pulse_train, VelvetPulse, MAX_IR_SAMPLES};

fn p(index: usize, negative: bool) -> VelvetPulse {
    VelvetPulse { index, negative }
}

#[test]
fn velvet_small_train_exact() {
    let pulses = velvet_pulse_train(10, 4, 7);
    assert_eq!(pulses, vec![p(3, true), p(4, false), p(9, false)]);
}

#[test]
fn velvet_zero_cell_counts_as_one() {
    let pulses = velvet_pulse_train(5, 0, 3);
    assert_eq!(
        pulses,
        vec![p(0, false), p(1, false), p(2, true), p(3, true), p(4, false)]
    );
    assert_eq!(pulses, velvet_pulse_train(5, 1, 3));
}

#[test]
fn velvet_one_pulse_per_cell() {
    let n = 96_000;
    let cell = 24;
    let pulses = velvet_pulse_train(n, cell, 42);
    assert_eq!(pulses.len(), 4_000);
    for (i, pulse) in pulses.iter().enumerate() {
        assert!(pulse.index >= i * cell && pulse.index < (i + 1) * cell);
    }
}

#[test]
fn velvet_last_cell_truncated() {
    let pulses = velvet_pulse_train(10, 3, 11);
    assert_eq!(pulses.len(), 4);
    assert_eq!(pulses[3].index, 9);
    for w in pulses.windows(2) {
        assert!(w[0].index < w[1].index);
    }
}

#[test]
fn velvet_empty_output_has_no_pulses() {
    assert!(velvet_pulse_train(0, 24, 1).is_empty());
}

#[test]
fn velvet_cell_longer_than_output() {
    let pulses = velvet_pulse_train(5, 1_000, 8);
    assert_eq!(pulses.len(), 1);
    assert!(pulses[0].index < 5);
}

#[test]
fn velvet_deterministic_for_same_seed() {
    assert_eq!(velvet_pulse_train(4_800, 12, 42), velvet_pulse_train(4_800, 12, 42));
}

#[test]
fn velvet_different_seeds_differ() {
    assert_ne!(velvet_pulse_train(4_800, 12, 1), velvet_pulse_train(4_800, 12, 2));
}

#[test]
fn velvet_both_signs_occur() {
    let pulses = velvet_pulse_train(48_000, 12, 5);
    assert!(pulses.iter().any(|p| p.negative));
    assert!(pulses.iter().any(|p| !p.negative));
}

#[test]
fn ir_length_clamped() {
    assert_eq!(clamp_ir_length(96_000), 96_000);
    assert_eq!(clamp_ir_length(usize::MAX), MAX_IR_SAMPLES);
    assert_eq!(MAX_IR_SAMPLES, 192_000 * 600);
}
