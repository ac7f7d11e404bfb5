//! The effect rack.

use vstd::prelude::*;

verus! {

/// The bit pattern of `-40.0`, the level in decibels below which a new noise gate closes.
pub const GATE_THRESHOLD: u32 = 0xc220_0000;

/// The attack of a new noise gate.
pub const GATE_ATTACK: u32 = 2;

/// The decay of a new noise gate.
pub const GATE_DECAY: u32 = 10;

/// The bit pattern of `0.8`, the strength of a new noise gate.
pub const GATE_STRENGTH: u32 = 0x3f4c_cccd;

/// The bit pattern of `1.0`, the gain that a new noise gate starts at.
pub const GATE_OPEN: u32 = 0x3f80_0000;

/// A noise gate. `threshold`, `strength` and `current` are bit patterns.
#[derive(Debug, Clone, Copy, PartialEq, Eq, Hash, Structural)]
pub struct NoiseGate {
    /// The number of effects that were in the rack when this one was added.
    pub idx: u32,
    pub threshold: u32,
    pub attack: u32,
    pub decay: u32,
    pub strength: u32,
    pub current: u32,
}

/// The effects of a rack, in the order in which they apply.
pub struct Mixer {
    pub effects: Vec<NoiseGate>,
}

/// A noise gate as it is added to a rack of `len` effects.
pub open spec fn fresh_gate(len: nat) -> NoiseGate {
    NoiseGate {
        idx: len as u32,
        threshold: GATE_THRESHOLD,
        attack: GATE_ATTACK,
        decay: GATE_DECAY,
        strength: GATE_STRENGTH,
        current: GATE_OPEN,
    }
}

/// Whether an item can be dragged from one place to another in a list of `len` items. Places
/// are gaps: `target` is the place in front of which the item is dropped.
pub open spec fn can_shift(len: nat, source: int, target: int) -> bool {
    0 <= source <= target <= len || 0 <= target < source < len
}

/// A list after an item has been dragged from one place to another.
pub open spec fn shifted<T>(s: Seq<T>, source: int, target: int) -> Seq<T> {
    if source < target {
        s.remove(source).insert(target - 1, s[source])
    } else if target < source {
        s.remove(source).insert(target, s[source])
    } else {
        s
    }
}

/// `egui_dnd::utils::shift_vec` takes the item at `source_idx` out of the slice and puts it
/// back in front of what stood at `target_idx`, by rotating the items between. It panics
/// where a place is outside the slice.
pub assume_specification<T>[ egui_dnd::utils::shift_vec::<T> ](
    source_idx: usize,
    target_idx: usize,
    vec: &mut [T],
)
    requires
        can_shift(old(vec)@.len(), source_idx as int, target_idx as int),
    ensures
        final(vec)@ == shifted(old(vec)@, source_idx as int, target_idx as int),
;

impl Mixer {
    /// An empty rack.
    pub fn new() -> (mixer: Mixer)
        ensures
            mixer.effects@ == Seq::<NoiseGate>::empty(),
    {
        Mixer { effects: Vec::new() }
    }

    /// Adds a noise gate behind the other effects.
    pub fn add_noise_gate(&mut self)
        ensures
            final(self).effects@ == old(self).effects@.push(fresh_gate(old(self).effects@.len())),
    {
        let len: usize = self.effects.len();
        self.effects.push(
            NoiseGate {
                idx: len as u32,
                threshold: GATE_THRESHOLD,
                attack: GATE_ATTACK,
                decay: GATE_DECAY,
                strength: GATE_STRENGTH,
                current: GATE_OPEN,
            },
        );
    }

    /// Takes an effect out of the rack.
    pub fn remove(&mut self, i: usize)
        requires
            i < old(self).effects@.len(),
        ensures
            final(self).effects@ == old(self).effects@.remove(i as int),
    {
        let _ = self.effects.remove(i);
    }

    /// Whether an effect can be dragged from one place to another.
    pub fn can_drag(&self, source: usize, target: usize) -> (can: bool)
        ensures
            can == can_shift(self.effects@.len(), source as int, target as int),
    {
        let len: usize = self.effects.len();
        if source <= target {
            target <= len
        } else {
            source < len
        }
    }

    /// Drags an effect from one place to another.
    pub fn drag(&mut self, source: usize, target: usize)
        requires
            can_shift(old(self).effects@.len(), source as int, target as int),
        ensures
            final(self).effects@ == shifted(old(self).effects@, source as int, target as int),
    {
        egui_dnd::utils::shift_vec(source, target, self.effects.as_mut_slice());
    }
}

/// Dragging keeps every item, and none appears.
pub proof fn law_drag_keeps_items<T>(s: Seq<T>, source: int, target: int)
    requires
        can_shift(s.len(), source, target),
    ensures
        shifted(s, source, target).len() == s.len(),
        shifted(s, source, target).to_multiset() == s.to_multiset(),
{
    broadcast use vstd::seq_lib::group_to_multiset_ensures;

    if source != target {
        let at = if source < target {
            target - 1
        } else {
            target
        };
        vstd::seq_lib::to_multiset_remove(s, source);
        vstd::seq_lib::to_multiset_insert(s.remove(source), at, s[source]);
        assert(shifted(s, source, target).to_multiset() =~= s.to_multiset());
    }
}

/// Dragging an item moves that item in front of the place where it is dropped, and leaves
/// the order of the others alone.
pub proof fn law_drag_moves_one_item<T>(s: Seq<T>, source: int, target: int)
    requires
        can_shift(s.len(), source, target),
        source != target,
    ensures
        ({
            let at = if source < target {
                target - 1
            } else {
                target
            };
            &&& shifted(s, source, target)[at] == s[source]
            &&& shifted(s, source, target).remove(at) == s.remove(source)
        }),
{
    let at = if source < target {
        target - 1
    } else {
        target
    };
    assert(shifted(s, source, target).remove(at) =~= s.remove(source));
}

/// Dragging an item back undoes the drag.
pub proof fn law_drag_back<T>(s: Seq<T>, source: int, target: int)
    requires
        can_shift(s.len(), source, target),
        source < s.len(),
    ensures
        source < target ==> shifted(shifted(s, source, target), target - 1, source) == s,
        target <= source ==> shifted(shifted(s, source, target), target, source + 1) == s,
{
    if source < target {
        assert(shifted(shifted(s, source, target), target - 1, source) =~= s);
    } else {
        assert(shifted(shifted(s, source, target), target, source + 1) =~= s);
    }
}

/// A new noise gate is numbered by the effects before it, and otherwise each is like the other:
/// it closes below -40 decibels with a strength of 0.8, attack 2 and decay 10, and starts open.
pub proof fn law_new_gates(len: nat)
    ensures
        len <= u32::MAX ==> fresh_gate(len).idx == len,
        fresh_gate(len).threshold == 0xc220_0000,
        fresh_gate(len).attack == 2,
        fresh_gate(len).decay == 10,
        fresh_gate(len).strength == 0x3f4c_cccd,
        fresh_gate(len).current == 0x3f80_0000,
{
}

/// Every item can be dragged in front of every other and behind the last, and nothing else can
/// be dragged anywhere else.
pub proof fn law_what_can_be_dragged(len: nat, source: int, target: int)
    ensures
        0 <= source < len && 0 <= target <= len ==> can_shift(len, source, target),
        can_shift(len, source, target) ==> 0 <= source <= len && 0 <= target <= len,
        can_shift(len, source, target) && source == len ==> target == len,
{
}

/// An item that is dropped where it was stays there, and so does every other.
pub proof fn law_drag_nowhere<T>(s: Seq<T>, source: int)
    requires
        0 <= source < s.len(),
    ensures
        shifted(s, source, source) == s,
        shifted(s, source, source + 1) == s,
{
    assert(shifted(s, source, source + 1) =~= s);
}

/// Items outside the stretch between the two places of a drag stay where they were, and those
/// inside move by one place towards where the dragged item was.
pub proof fn law_drag_place_by_place<T>(s: Seq<T>, source: int, target: int, i: int)
    requires
        can_shift(s.len(), source, target),
        0 <= i < s.len(),
    ensures
        i < source && i < target ==> shifted(s, source, target)[i] == s[i],
        i > source && i >= target ==> shifted(s, source, target)[i] == s[i],
        source <= i < target - 1 ==> shifted(s, source, target)[i] == s[i + 1],
        target < i <= source ==> shifted(s, source, target)[i] == s[i - 1],
        source < target && i == target - 1 ==> shifted(s, source, target)[i] == s[source],
        target <= source && i == target ==> shifted(s, source, target)[i] == s[source],
{
}

} // verus!
