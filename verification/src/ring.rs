//! Bounded first-in, first-out buffers of samples between the sound card and the network.

use ringbuf::traits::{Consumer, Producer};
use ringbuf::HeapRb;
use vstd::prelude::*;

verus! {

/// The bit pattern of the sample `0.0`.
pub const SILENCE: u32 = 0;

/// A run of `len` silent samples.
pub open spec fn silence(len: nat) -> Seq<u32> {
    Seq::new(len, |i: int| SILENCE)
}

/// The smaller of two lengths.
pub open spec fn shorter(a: nat, b: nat) -> nat {
    if a < b {
        a
    } else {
        b
    }
}

/// A heap-allocated ring buffer of sample bit patterns (`ringbuf::HeapRb<u32>`).
///
/// Verus cannot take a declaration of the ring's own type, whose parameter is bound by
/// a trait of `ringbuf`; what this struct holds is spoken of through
/// [`ring_contents`] and [`ring_capacity`].
#[verifier::external_body]
pub struct SampleRing {
    ring: HeapRb<u32>,
}

/// The samples that a ring holds, oldest first.
pub uninterp spec fn ring_contents(ring: SampleRing) -> Seq<u32>;

/// How many samples a ring can hold: what it was made with.
pub uninterp spec fn ring_capacity(ring: SampleRing) -> nat;

impl View for SampleRing {
    type V = Seq<u32>;

    open spec fn view(&self) -> Seq<u32> {
        ring_contents(*self)
    }
}

/// What a ring with `contents` and `capacity` holds after `offered` has been pushed:
/// what fits is appended in order, and the rest is dropped.
pub open spec fn after_push(contents: Seq<u32>, capacity: nat, offered: Seq<u32>) -> Seq<u32> {
    contents + offered.take(fitting(contents, capacity, offered) as int)
}

/// How many of the `offered` samples fit.
pub open spec fn fitting(contents: Seq<u32>, capacity: nat, offered: Seq<u32>) -> nat {
    shorter(offered.len(), (capacity - contents.len()) as nat)
}

/// What a microphone delivers to the ring: its samples, or as much silence when muted.
pub open spec fn heard(data: Seq<u32>, muted: bool) -> Seq<u32> {
    if muted {
        silence(data.len())
    } else {
        data
    }
}

impl SampleRing {
    /// A ring never holds more than its capacity.
    pub open spec fn wf(&self) -> bool {
        self@.len() <= ring_capacity(*self)
    }

    /// Calls `ringbuf::HeapRb::new`: a new ring is empty and has the capacity asked for.
    /// That function panics for a capacity of zero, and for one whose four bytes per
    /// sample exceed what an allocation may span.
    #[verifier::external_body]
    fn new_ring(capacity: usize) -> (ring: SampleRing)
        requires
            0 < capacity,
            capacity * 4 <= isize::MAX,
        ensures
            ring_contents(ring) == Seq::<u32>::empty(),
            ring_capacity(ring) == capacity,
    {
        SampleRing { ring: HeapRb::new(capacity) }
    }

    /// Calls `ringbuf::traits::Producer::try_push`: the sample is appended when the ring
    /// is not full, and handed back when it is.
    #[verifier::external_body]
    fn try_push(&mut self, sample: u32) -> (res: Result<(), u32>)
        requires
            old(self).wf(),
        ensures
            ring_capacity(*final(self)) == ring_capacity(*old(self)),
            res is Ok <==> ring_contents(*old(self)).len() < ring_capacity(*old(self)),
            res is Ok ==> ring_contents(*final(self)) == ring_contents(*old(self)).push(sample),
            res is Err ==> ring_contents(*final(self)) == ring_contents(*old(self)),
            res is Err ==> res->Err_0 == sample,
    {
        self.ring.try_push(sample)
    }

    /// Calls `ringbuf::traits::Producer::push_slice`: as many samples as fit are appended
    /// in order, and their number is returned.
    #[verifier::external_body]
    fn push_slice(&mut self, samples: &[u32]) -> (n: usize)
        requires
            old(self).wf(),
        ensures
            n == fitting(ring_contents(*old(self)), ring_capacity(*old(self)), samples@),
            ring_contents(*final(self)) == after_push(
                ring_contents(*old(self)),
                ring_capacity(*old(self)),
                samples@,
            ),
            ring_capacity(*final(self)) == ring_capacity(*old(self)),
    {
        self.ring.push_slice(samples)
    }

    /// Calls `ringbuf::traits::Consumer::pop_slice`: the oldest samples, as many as there
    /// are and as the slice has room for, leave the ring for the front of the slice.
    /// Their number is returned, and the rest of the slice keeps what it held.
    #[verifier::external_body]
    fn pop_slice(&mut self, out: &mut [u32]) -> (n: usize)
        requires
            old(self).wf(),
        ensures
            n == shorter(old(out)@.len(), ring_contents(*old(self)).len()),
            final(out)@ == ring_contents(*old(self)).take(n as int) + old(out)@.skip(n as int),
            ring_contents(*final(self)) == ring_contents(*old(self)).skip(n as int),
            ring_capacity(*final(self)) == ring_capacity(*old(self)),
    {
        self.ring.pop_slice(out)
    }

    /// A ring for a latency of `latency_samples`: empty, with room for twice the latency.
    pub fn with_latency(latency_samples: usize) -> (ring: SampleRing)
        requires
            0 < latency_samples,
            latency_samples * 8 <= isize::MAX,
        ensures
            ring.wf(),
            ring@ == Seq::<u32>::empty(),
            ring_capacity(ring) == latency_samples * 2,
    {
        SampleRing::new_ring(latency_samples * 2)
    }

    /// A ring that starts with a whole latency of silence, so that what is pushed comes
    /// out `latency_samples` later.
    pub fn delayed(latency_samples: usize) -> (ring: SampleRing)
        requires
            0 < latency_samples,
            latency_samples * 8 <= isize::MAX,
        ensures
            ring.wf(),
            ring@ == silence(latency_samples as nat),
            ring_capacity(ring) == latency_samples * 2,
    {
        let mut ring = SampleRing::with_latency(latency_samples);
        let mut i: usize = 0;
        while i < latency_samples
            invariant
                i <= latency_samples,
                ring@ =~= silence(i as nat),
                ring_capacity(ring) == latency_samples * 2,
            decreases latency_samples - i,
        {
            let pushed = ring.try_push(SILENCE);
            assert(pushed is Ok);
            i = i + 1;
        }
        ring
    }

    /// Takes in what the microphone recorded, or as much silence when it is muted.
    /// What does not fit is dropped.
    pub fn capture(&mut self, data: &[u32], muted: bool)
        requires
            old(self).wf(),
        ensures
            final(self).wf(),
            final(self)@ == after_push(old(self)@, ring_capacity(*old(self)), heard(data@, muted)),
            ring_capacity(*final(self)) == ring_capacity(*old(self)),
    {
        if muted {
            let zeros: Vec<u32> = vec![SILENCE; data.len()];
            assert(zeros@ =~= silence(data@.len()));
            let _ = self.push_slice(zeros.as_slice());
            return;
        }
        let _ = self.push_slice(data);
    }

    /// Takes in decoded samples for the speaker. What does not fit is dropped.
    pub fn deliver(&mut self, samples: &[u32])
        requires
            old(self).wf(),
        ensures
            final(self).wf(),
            final(self)@ == after_push(old(self)@, ring_capacity(*old(self)), samples@),
            ring_capacity(*final(self)) == ring_capacity(*old(self)),
    {
        let _ = self.push_slice(samples);
    }

    /// Fills the front of a slice with the oldest samples, and returns how many there were.
    /// Where the ring runs short, the rest of the slice keeps what it held.
    pub fn play(&mut self, out: &mut [u32]) -> (n: usize)
        requires
            old(self).wf(),
        ensures
            final(self).wf(),
            n == shorter(old(out)@.len(), old(self)@.len()),
            final(out)@ == old(self)@.take(n as int) + old(out)@.skip(n as int),
            final(self)@ == old(self)@.skip(n as int),
            ring_capacity(*final(self)) == ring_capacity(*old(self)),
    {
        self.pop_slice(out)
    }
}

/// One use of a ring: samples are offered to it, or up to a number of samples are drawn.
pub enum RingUse {
    Offer(Seq<u32>),
    Draw(nat),
}

/// What a ring holds after a series of uses.
pub open spec fn contents_after(contents: Seq<u32>, capacity: nat, uses: Seq<RingUse>) -> Seq<u32>
    decreases uses.len(),
{
    if uses.len() == 0 {
        contents
    } else {
        let before = contents_after(contents, capacity, uses.drop_last());
        match uses.last() {
            RingUse::Offer(samples) => after_push(before, capacity, samples),
            RingUse::Draw(n) => before.skip(shorter(n, before.len()) as int),
        }
    }
}

/// All samples that a series of uses put into a ring, in order.
pub open spec fn taken_in(contents: Seq<u32>, capacity: nat, uses: Seq<RingUse>) -> Seq<u32>
    decreases uses.len(),
{
    if uses.len() == 0 {
        Seq::empty()
    } else {
        let before = contents_after(contents, capacity, uses.drop_last());
        let earlier = taken_in(contents, capacity, uses.drop_last());
        match uses.last() {
            RingUse::Offer(samples) => earlier + samples.take(
                fitting(before, capacity, samples) as int,
            ),
            RingUse::Draw(n) => earlier,
        }
    }
}

/// All samples that a series of uses drew from a ring, in order.
pub open spec fn drawn_out(contents: Seq<u32>, capacity: nat, uses: Seq<RingUse>) -> Seq<u32>
    decreases uses.len(),
{
    if uses.len() == 0 {
        Seq::empty()
    } else {
        let before = contents_after(contents, capacity, uses.drop_last());
        let earlier = drawn_out(contents, capacity, uses.drop_last());
        match uses.last() {
            RingUse::Offer(samples) => earlier,
            RingUse::Draw(n) => earlier + before.take(shorter(n, before.len()) as int),
        }
    }
}

/// However a ring is used, it loses, repeats and reorders nothing that it has taken in:
/// what has been drawn, followed by what it still holds, is what it held at first,
/// followed by what it has taken in since. It never holds more than its capacity.
pub proof fn law_first_in_first_out(contents: Seq<u32>, capacity: nat, uses: Seq<RingUse>)
    requires
        contents.len() <= capacity,
    ensures
        drawn_out(contents, capacity, uses) + contents_after(contents, capacity, uses) == contents
            + taken_in(contents, capacity, uses),
        contents_after(contents, capacity, uses).len() <= capacity,
    decreases uses.len(),
{
    if uses.len() == 0 {
        assert(Seq::<u32>::empty() + contents =~= contents + Seq::<u32>::empty());
    } else {
        law_first_in_first_out(contents, capacity, uses.drop_last());
        let before = contents_after(contents, capacity, uses.drop_last());
        let drawn = drawn_out(contents, capacity, uses.drop_last());
        let taken = taken_in(contents, capacity, uses.drop_last());
        match uses.last() {
            RingUse::Offer(samples) => {
                let fit = samples.take(fitting(before, capacity, samples) as int);
                assert(drawn + (before + fit) =~= (drawn + before) + fit);
                assert(contents + (taken + fit) =~= (contents + taken) + fit);
            },
            RingUse::Draw(n) => {
                let k = shorter(n, before.len()) as int;
                assert((drawn + before.take(k)) + before.skip(k) =~= drawn + before);
            },
        }
    }
}

/// A ring that starts with a latency of silence delays what it takes in by exactly that
/// many samples: the first `latency` samples drawn are silent, and the sample drawn
/// `latency` places after the `i`-th is the `i`-th taken in.
pub proof fn law_latency(latency: nat, capacity: nat, uses: Seq<RingUse>)
    requires
        latency <= capacity,
    ensures
        ({
            let drawn = drawn_out(silence(latency), capacity, uses);
            let taken = taken_in(silence(latency), capacity, uses);
            &&& drawn.len() <= latency + taken.len()
            &&& forall|i: int|
                0 <= i < drawn.len() ==> #[trigger] drawn[i] == if i < latency {
                    SILENCE
                } else {
                    taken[i - latency]
                }
        }),
{
    law_first_in_first_out(silence(latency), capacity, uses);
    let drawn = drawn_out(silence(latency), capacity, uses);
    let taken = taken_in(silence(latency), capacity, uses);
    let rest = contents_after(silence(latency), capacity, uses);
    assert((drawn + rest).len() == (silence(latency) + taken).len());
    assert forall|i: int| 0 <= i < drawn.len() implies #[trigger] drawn[i] == if i < latency {
        SILENCE
    } else {
        taken[i - latency]
    } by {
        assert(drawn[i] == (drawn + rest)[i]);
        assert((silence(latency) + taken)[i] == drawn[i]);
    }
}

/// Muting changes what is captured to silence and nothing else: as many samples enter
/// the ring, and it is as full afterwards.
pub proof fn law_mute_keeps_time(contents: Seq<u32>, capacity: nat, data: Seq<u32>)
    requires
        contents.len() <= capacity,
    ensures
        ({
            let muted = after_push(contents, capacity, heard(data, true));
            let live = after_push(contents, capacity, heard(data, false));
            &&& muted.len() == live.len()
            &&& muted.take(contents.len() as int) == live.take(contents.len() as int)
            &&& muted.skip(contents.len() as int) == silence((live.len() - contents.len()) as nat)
        }),
{
    let muted = after_push(contents, capacity, heard(data, true));
    let live = after_push(contents, capacity, heard(data, false));
    assert(muted.take(contents.len() as int) =~= live.take(contents.len() as int));
    assert(muted.skip(contents.len() as int) =~= silence((live.len() - contents.len()) as nat));
}

/// Of two lengths, the shorter is one of them, and neither is less.
pub proof fn law_shorter(a: nat, b: nat)
    ensures
        shorter(a, b) == a || shorter(a, b) == b,
        shorter(a, b) <= a,
        shorter(a, b) <= b,
{
}

/// A ring takes in all that it has room for: what it held stays where it was, behind it come
/// the first of the offered samples, each as it was offered, and samples are left out only
/// where the ring is full.
pub proof fn law_a_ring_takes_what_it_has_room_for(
    contents: Seq<u32>,
    capacity: nat,
    offered: Seq<u32>,
)
    requires
        contents.len() <= capacity,
    ensures
        ({
            let after = after_push(contents, capacity, offered);
            &&& after.len() == contents.len() + offered.len() || (after.len() == capacity
                && capacity < contents.len() + offered.len())
            &&& fitting(contents, capacity, offered) == after.len() - contents.len()
            &&& forall|i: int| 0 <= i < contents.len() ==> #[trigger] after[i] == contents[i]
            &&& forall|i: int|
                contents.len() <= i < after.len() ==> #[trigger] after[i] == offered[i
                    - contents.len()]
        }),
{
}

/// A microphone that is not muted is heard as it is: what it records enters the ring sample by
/// sample, as far as there is room, behind what the ring held.
pub proof fn law_an_open_microphone_is_heard(contents: Seq<u32>, capacity: nat, data: Seq<u32>)
    requires
        contents.len() <= capacity,
    ensures
        heard(data, false) == data,
        ({
            let after = after_push(contents, capacity, heard(data, false));
            &&& after.len() == contents.len() + data.len() || (after.len() == capacity && capacity
                < contents.len() + data.len())
            &&& forall|i: int| 0 <= i < contents.len() ==> #[trigger] after[i] == contents[i]
            &&& forall|i: int|
                contents.len() <= i < after.len() ==> #[trigger] after[i] == data[i
                    - contents.len()]
        }),
{
    law_a_ring_takes_what_it_has_room_for(contents, capacity, data);
}

/// Of a muted microphone nothing is heard: whatever it records, as many samples enter the ring
/// as there is room for, and each is zero.
pub proof fn law_a_muted_microphone_is_silent(contents: Seq<u32>, capacity: nat, data: Seq<u32>)
    requires
        contents.len() <= capacity,
    ensures
        heard(data, true).len() == data.len(),
        forall|i: int| 0 <= i < data.len() ==> #[trigger] heard(data, true)[i] == 0,
        ({
            let after = after_push(contents, capacity, heard(data, true));
            &&& after.len() == contents.len() + data.len() || (after.len() == capacity && capacity
                < contents.len() + data.len())
            &&& forall|i: int| 0 <= i < contents.len() ==> #[trigger] after[i] == contents[i]
            &&& forall|i: int| contents.len() <= i < after.len() ==> #[trigger] after[i] == 0
        }),
{
    law_a_ring_takes_what_it_has_room_for(contents, capacity, heard(data, true));
}

/// Silence is zeros, as many as asked for.
pub proof fn law_silence_is_zeros(len: nat)
    ensures
        silence(len).len() == len,
        forall|i: int| 0 <= i < len ==> #[trigger] silence(len)[i] == 0,
{
}

} // verus!
