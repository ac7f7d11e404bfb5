use audiostream::ring::{SampleRing, SILENCE};

#[test]
fn a_delayed_ring_starts_with_silence() {
    let mut ring = SampleRing::delayed(3);
    ring.capture(&[7, 8], false);
    let mut out = [1u32; 6];
    assert_eq!(ring.play(&mut out), 5);
    assert_eq!(out, [0, 0, 0, 7, 8, 1]);
}

#[test]
fn a_new_ring_is_empty() {
    let mut ring = SampleRing::with_latency(4);
    let mut out = [9u32; 3];
    assert_eq!(ring.play(&mut out), 0);
    assert_eq!(out, [9, 9, 9]);
}

#[test]
fn a_ring_holds_twice_the_latency_and_drops_the_rest() {
    let mut ring = SampleRing::with_latency(2);
    ring.capture(&[1, 2, 3], false);
    ring.capture(&[4, 5, 6], false);
    let mut out = [0u32; 8];
    assert_eq!(ring.play(&mut out), 4);
    assert_eq!(out, [1, 2, 3, 4, 0, 0, 0, 0]);
}

#[test]
fn samples_come_out_in_order_around_the_end_of_the_ring() {
    let mut ring = SampleRing::with_latency(2);
    let mut all: Vec<u32> = Vec::new();
    for round in 0..5u32 {
        ring.deliver(&[3 * round, 3 * round + 1, 3 * round + 2]);
        let mut out = [0u32; 3];
        assert_eq!(ring.play(&mut out), 3);
        all.extend_from_slice(&out);
    }
    assert_eq!(all, (0..15u32).collect::<Vec<u32>>());
}

#[test]
fn muting_replaces_samples_by_as_much_silence() {
    let mut ring = SampleRing::with_latency(4);
    ring.capture(&[5, 6], false);
    ring.capture(&[7, 8, 9], true);
    ring.capture(&[10], false);
    let mut out = [99u32; 7];
    assert_eq!(ring.play(&mut out), 6);
    assert_eq!(out, [5, 6, 0, 0, 0, 10, 99]);
}

#[test]
fn a_full_ring_drops_silence_too() {
    let mut ring = SampleRing::with_latency(1);
    ring.capture(&[5, 6], true);
    ring.capture(&[7], false);
    let mut out = [99u32; 3];
    assert_eq!(ring.play(&mut out), 2);
    assert_eq!(out, [0, 0, 99]);
}

#[test]
fn silence_is_the_sample_zero() {
    assert_eq!(SILENCE, 0.0f32.to_bits());
}

#[test]
fn the_latency_of_a_delayed_ring_is_exact() {
    let mut ring = SampleRing::delayed(5);
    let mut heard: Vec<u32> = Vec::new();
    for i in 0..20u32 {
        ring.deliver(&[100 + i]);
        let mut out = [0u32; 1];
        assert_eq!(ring.play(&mut out), 1);
        heard.push(out[0]);
    }
    for i in 0..20usize {
        let expected = if i < 5 { SILENCE } else { 95 + i as u32 };
        assert_eq!(heard[i], expected);
    }
}
