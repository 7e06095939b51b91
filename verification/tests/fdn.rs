use goonj::fdn::DelayLine;

#[test]
fn delay_line_minimum_length_one() {
    let line: DelayLine<i32> = DelayLine::new(0, 0);
    assert_eq!(line.len(), 1);
    let line: DelayLine<i32> = DelayLine::new(7, 0);
    assert_eq!(line.len(), 7);
}

#[test]
fn delay_line_delays_by_length_minus_one() {
    let mut line = DelayLine::new(4, 0_i64);
    let mut outputs = Vec::new();
    for t in 1..=10_i64 {
        outputs.push(line.read_oldest());
        line.write(t);
    }
    assert_eq!(outputs, vec![0, 0, 0, 1, 2, 3, 4, 5, 6, 7]);
}

#[test]
fn delay_line_length_one_delays_one() {
    let mut line = DelayLine::new(1, 0_i64);
    let mut outputs = Vec::new();
    for t in 1..=4_i64 {
        outputs.push(line.read_oldest());
        line.write(t);
    }
    assert_eq!(outputs, vec![0, 1, 2, 3]);
}

#[test]
fn delay_line_reset_clears() {
    let mut line = DelayLine::new(3, 0.0_f32);
    line.write(1.0);
    line.write(2.0);
    line.reset(0.0);
    for _ in 0..6 {
        assert_eq!(line.read_oldest(), 0.0);
        line.write(0.0);
    }
}
