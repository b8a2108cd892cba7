use daw::delay::DelayRing;

#[test]
fn delay_ring_is_a_shift_register() {
    let mut ring = DelayRing::new(3, 0i32);
    assert_eq!(ring.len(), 3);
    assert_eq!(ring.position(), 0);
    assert_eq!(ring.read(1), 0);
    ring.write_advance(10);
    ring.write_advance(20);
    assert_eq!(ring.read(1), 20);
    assert_eq!(ring.read(2), 10);
    assert_eq!(ring.read(3), 0);
    ring.write_advance(30);
    ring.write_advance(40);
    assert_eq!(ring.position(), 1);
    assert_eq!(ring.read(1), 40);
    assert_eq!(ring.read(2), 30);
    assert_eq!(ring.read(3), 20);
    // A delay of 0 reads the value a full length back, the slot written next.
    assert_eq!(ring.read(0), 20);
}

#[test]
fn delay_ring_impulse_appears_after_delay() {
    // A 10 ms delay at 44100 Hz: 441 samples, in a ring of 442.
    let delay = 441usize;
    let mut ring = DelayRing::new(delay + 1, 0.0f32);
    let mut output = vec![0.0f32; delay + 100];
    for (i, out) in output.iter_mut().enumerate() {
        let input = if i == 0 { 1.0 } else { 0.0 };
        let delayed = ring.read(delay);
        ring.write_advance(input);
        *out = delayed;
    }
    let peak = output.iter().position(|&v| v == 1.0).unwrap();
    assert_eq!(peak, delay);
    assert_eq!(output.iter().filter(|&&v| v != 0.0).count(), 1);
}
