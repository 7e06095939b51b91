use goonj::rng::Xorshift64;

#[test]
fn xorshift_first_draws_from_seed_one() {
    let mut rng = Xorshift64::new(1);
    assert_eq!(rng.next_u64(), 1_082_269_761);
    assert_eq!(rng.next_u64(), 1_152_992_998_833_853_505);
    assert_eq!(rng.next_u64(), 11_177_516_664_432_764_457);
}

#[test]
fn xorshift_zero_seed_is_replaced() {
    let mut zero = Xorshift64::new(0);
    let mut replaced = Xorshift64::new(0x5555_5555_5555_5555);
    let a = zero.next_u64();
    assert_eq!(a, 18_302_628_885_994_277_567);
    assert_eq!(a, replaced.next_u64());
    assert_ne!(a, 0);
}

#[test]
fn xorshift_same_seed_same_stream() {
    let mut a = Xorshift64::new(42);
    let mut b = Xorshift64::new(42);
    for _ in 0..100 {
        assert_eq!(a.next_u64(), b.next_u64());
    }
}

#[test]
fn xorshift_different_seeds_differ() {
    let mut a = Xorshift64::new(1);
    let mut b = Xorshift64::new(2);
    for _ in 0..100 {
        assert_ne!(a.next_u64(), b.next_u64());
    }
}

#[test]
fn xorshift_never_reaches_zero() {
    let mut rng = Xorshift64::new(3);
    for _ in 0..10_000 {
        assert_ne!(rng.next_u64(), 0);
    }
}

#[test]
fn xorshift64_produces_values_in_range() {
    let mut rng = Xorshift64::new(42);
    let first = rng.next_unit_bits();
    assert_eq!(first, 0);
    for _ in 0..1000 {
        let v = rng.next_unit_bits();
        assert!(v < (1 << 24), "value {v} out of range");
        let f = v as f32 / (1u64 << 24) as f32;
        assert!((0.0..1.0).contains(&f));
    }
}

#[test]
fn xorshift_unit_bits_are_high_bits_of_draw() {
    let mut a = Xorshift64::new(99);
    let mut b = Xorshift64::new(99);
    for _ in 0..50 {
        assert_eq!(u64::from(a.next_unit_bits()), b.next_u64() >> 40);
    }
}
