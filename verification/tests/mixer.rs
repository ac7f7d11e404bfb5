use audiostream::mixer::{Mixer, NoiseGate};

fn rack(n: usize) -> Mixer {
    let mut mixer = Mixer::new();
    for _ in 0..n {
        mixer.add_noise_gate();
    }
    mixer
}

fn order(mixer: &Mixer) -> Vec<u32> {
    mixer.effects.iter().map(|gate| gate.idx).collect()
}

#[test]
fn a_new_noise_gate() {
    let mixer = rack(1);
    assert_eq!(
        mixer.effects,
        vec![NoiseGate {
            idx: 0,
            threshold: (-40.0f32).to_bits(),
            attack: 2,
            decay: 10,
            strength: 0.8f32.to_bits(),
            current: 1.0f32.to_bits(),
        }]
    );
}

#[test]
fn effects_are_numbered_as_they_are_added() {
    let mut mixer = rack(3);
    assert_eq!(order(&mixer), vec![0, 1, 2]);
    mixer.remove(1);
    assert_eq!(order(&mixer), vec![0, 2]);
    mixer.add_noise_gate();
    assert_eq!(order(&mixer), vec![0, 2, 2]);
}

#[test]
fn dragging_down_drops_in_front_of_the_target() {
    let mut mixer = rack(4);
    mixer.drag(0, 2);
    assert_eq!(order(&mixer), vec![1, 0, 2, 3]);
    mixer.drag(1, 4);
    assert_eq!(order(&mixer), vec![1, 2, 3, 0]);
}

#[test]
fn dragging_up_drops_at_the_target() {
    let mut mixer = rack(4);
    mixer.drag(2, 0);
    assert_eq!(order(&mixer), vec![2, 0, 1, 3]);
    mixer.drag(3, 1);
    assert_eq!(order(&mixer), vec![2, 3, 0, 1]);
}

#[test]
fn dropping_an_effect_where_it_was_changes_nothing() {
    let mut mixer = rack(3);
    mixer.drag(1, 1);
    assert_eq!(order(&mixer), vec![0, 1, 2]);
    mixer.drag(1, 2);
    assert_eq!(order(&mixer), vec![0, 1, 2]);
    mixer.drag(3, 3);
    assert_eq!(order(&mixer), vec![0, 1, 2]);
}

#[test]
fn dragging_back_undoes_a_drag() {
    for source in 0..4usize {
        for target in 0..=4usize {
            let mut mixer = rack(4);
            mixer.drag(source, target);
            let mut sorted = order(&mixer);
            sorted.sort();
            assert_eq!(sorted, vec![0, 1, 2, 3]);
            if source < target {
                mixer.drag(target - 1, source);
            } else {
                mixer.drag(target, source + 1);
            }
            assert_eq!(order(&mixer), vec![0, 1, 2, 3]);
        }
    }
}

#[test]
fn where_an_effect_can_be_dragged() {
    let mut mixer = Mixer::new();
    mixer.add_noise_gate();
    mixer.add_noise_gate();
    assert!(mixer.can_drag(0, 2));
    assert!(mixer.can_drag(1, 0));
    assert!(mixer.can_drag(1, 1));
    assert!(!mixer.can_drag(0, 3));
    assert!(!mixer.can_drag(2, 0));
}
