//! What holds of whole runs of an audio channel, whatever its halves are told.

use vstd::prelude::*;

use crate::audio::{
    bytes_read, padded, read_accepts, read_start, read_step, read_tells, write_accepts,
    write_start, write_step,
    LinkStatus, ReadEvent, ReadModel, ReadPhase, WriteEvent, WriteModel, WritePhase, CLOSE_CODE,
    DECODE_CAPACITY, FRAME_SAMPLES, PACKET_CAPACITY, PAUSE_MILLIS,
};
use crate::server::AudioUpdate;
use crate::wire::{
    announced_len, framed, framed_all, law_announced_len_is_the_length,
    law_announced_len_is_the_value, law_stream_round_trip, le_value, lemma_prefix_len, prefix,
    take_packet, take_packets, PREFIX_LEN,
};

verus! {

/// The sending half after a run of events.
pub open spec fn write_run(events: Seq<WriteEvent>) -> WriteModel
    decreases events.len(),
{
    if events.len() == 0 {
        write_start()
    } else {
        write_step(write_run(events.drop_last()), events.last())
    }
}

/// Whether each event of a run answered what the sending half was doing.
pub open spec fn write_valid(events: Seq<WriteEvent>) -> bool
    decreases events.len(),
{
    events.len() == 0 || (write_valid(events.drop_last()) && write_accepts(
        write_run(events.drop_last()),
        events.last(),
    ))
}

/// The bytes that the sending half has written in a run.
pub open spec fn written(events: Seq<WriteEvent>) -> Seq<u8>
    decreases events.len(),
{
    if events.len() == 0 {
        Seq::empty()
    } else {
        let earlier = written(events.drop_last());
        let packet = write_run(events.drop_last()).packet;
        match events.last() {
            WriteEvent::LengthSent(true) => earlier + prefix(packet.len()),
            WriteEvent::PayloadSent(true) => earlier + packet,
            _ => earlier,
        }
    }
}

/// The packets whose length the sending half has written in a run.
pub open spec fn packets_announced(events: Seq<WriteEvent>) -> Seq<Seq<u8>>
    decreases events.len(),
{
    if events.len() == 0 {
        Seq::empty()
    } else {
        let earlier = packets_announced(events.drop_last());
        match events.last() {
            WriteEvent::LengthSent(true) => earlier.push(write_run(events.drop_last()).packet),
            _ => earlier,
        }
    }
}

/// The packets that the encoder has made in a run.
pub open spec fn packets_encoded(events: Seq<WriteEvent>) -> Seq<Seq<u8>>
    decreases events.len(),
{
    if events.len() == 0 {
        Seq::empty()
    } else {
        let earlier = packets_encoded(events.drop_last());
        match events.last() {
            WriteEvent::Encoded(packet) => earlier.push(packet),
            _ => earlier,
        }
    }
}

/// The frames that the encoder has got in a run.
pub open spec fn frames_encoded(events: Seq<WriteEvent>) -> Seq<Seq<u32>>
    decreases events.len(),
{
    if events.len() == 0 {
        Seq::empty()
    } else {
        let earlier = frames_encoded(events.drop_last());
        match events.last() {
            WriteEvent::Encoded(_) => earlier.push(
                padded(write_run(events.drop_last()).collected),
            ),
            _ => earlier,
        }
    }
}

/// The samples that the sending half has drawn from the ring in a run.
pub open spec fn samples_drawn(events: Seq<WriteEvent>) -> Seq<u32>
    decreases events.len(),
{
    if events.len() == 0 {
        Seq::empty()
    } else {
        let earlier = samples_drawn(events.drop_last());
        match events.last() {
            WriteEvent::Collected(drawn) => earlier + drawn,
            _ => earlier,
        }
    }
}

/// Whether the ring was never lost in a run.
pub open spec fn ring_kept(events: Seq<WriteEvent>) -> bool {
    forall|i: int| 0 <= i < events.len() ==> #[trigger] events[i] !is RingLost
}

/// Whether a frame is being filled, or waits for the encoder.
pub open spec fn frame_pending(m: WriteModel) -> bool {
    m.phase == WritePhase::Collect || m.phase == WritePhase::Pause || m.phase == WritePhase::Encode
}

/// The receiving half after a run of events.
pub open spec fn read_run(events: Seq<ReadEvent>) -> ReadModel
    decreases events.len(),
{
    if events.len() == 0 {
        read_start()
    } else {
        read_step(read_run(events.drop_last()), events.last())
    }
}

/// Whether each event of a run answered what the receiving half was doing.
pub open spec fn read_valid(events: Seq<ReadEvent>) -> bool
    decreases events.len(),
{
    events.len() == 0 || (read_valid(events.drop_last()) && read_accepts(
        read_run(events.drop_last()),
        events.last(),
    ))
}

/// The bytes that the receiving half has read in a run.
pub open spec fn consumed(events: Seq<ReadEvent>) -> Seq<u8>
    decreases events.len(),
{
    if events.len() == 0 {
        Seq::empty()
    } else {
        let earlier = consumed(events.drop_last());
        match events.last() {
            ReadEvent::LengthRead(Some(bytes)) => earlier + bytes,
            ReadEvent::PayloadRead(Some(packet)) => earlier + packet,
            _ => earlier,
        }
    }
}

/// The packets that the receiving half has read in a run.
pub open spec fn packets_received(events: Seq<ReadEvent>) -> Seq<Seq<u8>>
    decreases events.len(),
{
    if events.len() == 0 {
        Seq::empty()
    } else {
        let earlier = packets_received(events.drop_last());
        match events.last() {
            ReadEvent::PayloadRead(Some(packet)) => earlier.push(packet),
            _ => earlier,
        }
    }
}

/// Whether a run of the receiving half ended where a packet was announced and could not be
/// read.
pub open spec fn ended_inside_a_packet(events: Seq<ReadEvent>) -> bool {
    events.len() > 0 && events.last() == ReadEvent::PayloadRead(None)
}

/// The packets that the decoder has got in a run of the receiving half.
pub open spec fn packets_decoded(events: Seq<ReadEvent>) -> Seq<Seq<u8>>
    decreases events.len(),
{
    if events.len() == 0 {
        Seq::empty()
    } else {
        let earlier = packets_decoded(events.drop_last());
        match events.last() {
            ReadEvent::Decoded(_, _) => earlier.push(read_run(events.drop_last()).packet),
            _ => earlier,
        }
    }
}

/// The level readings that the window was told of in a run of the receiving half.
pub open spec fn levels_told(events: Seq<ReadEvent>) -> Seq<u32>
    decreases events.len(),
{
    if events.len() == 0 {
        Seq::empty()
    } else {
        let earlier = levels_told(events.drop_last());
        match read_tells(events.last()) {
            Some(AudioUpdate::DecibelReading(level)) => earlier.push(level),
            _ => earlier,
        }
    }
}

/// What the decoder made of each packet in a run of the receiving half.
pub open spec fn blocks_decoded(events: Seq<ReadEvent>) -> Seq<Seq<u32>>
    decreases events.len(),
{
    if events.len() == 0 {
        Seq::empty()
    } else {
        let earlier = blocks_decoded(events.drop_last());
        match events.last() {
            ReadEvent::Decoded(samples, _) => earlier.push(samples),
            _ => earlier,
        }
    }
}

/// What the receiving half has put into the speaker's ring in a run, packet by packet.
pub open spec fn blocks_delivered(events: Seq<ReadEvent>) -> Seq<Seq<u32>>
    decreases events.len(),
{
    if events.len() == 0 {
        Seq::empty()
    } else {
        let earlier = blocks_delivered(events.drop_last());
        match events.last() {
            ReadEvent::Delivered => earlier.push(read_run(events.drop_last()).samples),
            _ => earlier,
        }
    }
}

proof fn lemma_framed_all_push(payloads: Seq<Seq<u8>>, payload: Seq<u8>)
    ensures
        framed_all(payloads.push(payload)) == framed_all(payloads) + framed(payload),
    decreases payloads.len(),
{
    let all = payloads.push(payload);
    if payloads.len() == 0 {
        assert(all.drop_first() =~= Seq::<Seq<u8>>::empty());
        assert(framed_all(all.drop_first()) == Seq::<u8>::empty());
        assert(framed_all(all) =~= framed_all(payloads) + framed(payload));
    } else {
        lemma_framed_all_push(payloads.drop_first(), payload);
        assert(all.drop_first() =~= payloads.drop_first().push(payload));
        assert(framed_all(all) =~= framed_all(payloads) + framed(payload));
    }
}

/// The packets that went out whole, at a time when no more than a prefix is missing its
/// packet.
spec fn packets_whole(events: Seq<WriteEvent>) -> Seq<Seq<u8>>
    decreases events.len(),
{
    if events.len() == 0 {
        Seq::empty()
    } else {
        let earlier = packets_whole(events.drop_last());
        match events.last() {
            WriteEvent::PayloadSent(true) => earlier.push(write_run(events.drop_last()).packet),
            _ => earlier,
        }
    }
}

spec fn nothing_in_flight(events: Seq<WriteEvent>) -> bool {
    &&& packets_announced(events) == packets_whole(events)
    &&& written(events) == framed_all(packets_whole(events))
}

spec fn packet_in_flight(events: Seq<WriteEvent>) -> bool {
    let packet = write_run(events).packet;
    &&& packets_announced(events) == packets_whole(events).push(packet)
    &&& written(events) == framed_all(packets_whole(events)) + prefix(packet.len())
}

proof fn lemma_write_stream(events: Seq<WriteEvent>)
    requires
        write_valid(events),
    ensures
        match write_run(events).phase {
            WritePhase::SendPayload => packet_in_flight(events),
            WritePhase::Done => packet_in_flight(events) || nothing_in_flight(events),
            _ => nothing_in_flight(events),
        },
    decreases events.len(),
{
    if events.len() > 0 {
        let before = events.drop_last();
        lemma_write_stream(before);
        let packet = write_run(before).packet;
        match events.last() {
            WriteEvent::PayloadSent(true) => {
                lemma_framed_all_push(packets_whole(before), packet);
                assert((framed_all(packets_whole(before)) + prefix(packet.len())) + packet
                    =~= framed_all(packets_whole(before)) + framed(packet));
            },
            _ => {},
        }
    }
}

/// Whatever happens to the sending half, what it has written is a beginning of the
/// packets that it announced, framed one after the other. Between two packets it is all
/// of them.
pub proof fn law_written_is_framed(events: Seq<WriteEvent>)
    requires
        write_valid(events),
    ensures
        written(events).is_prefix_of(framed_all(packets_announced(events))),
        write_run(events).phase != WritePhase::SendPayload && write_run(events).phase
            != WritePhase::Done ==> written(events) == framed_all(packets_announced(events)),
{
    lemma_write_stream(events);
    let packet = write_run(events).packet;
    if packet_in_flight(events) {
        lemma_framed_all_push(packets_whole(events), packet);
        assert(framed(packet).subrange(0, prefix(packet.len()).len() as int) =~= prefix(
            packet.len(),
        ));
        let all = framed_all(packets_whole(events)) + framed(packet);
        assert(written(events) =~= all.subrange(0, written(events).len() as int));
    } else {
        assert(written(events) =~= framed_all(packets_announced(events)));
    }
}

/// Packets are announced in the order in which they were encoded, and each at most once.
pub proof fn law_packets_go_out_in_order(events: Seq<WriteEvent>)
    requires
        write_valid(events),
    ensures
        packets_announced(events).is_prefix_of(packets_encoded(events)),
        packets_encoded(events).len() <= packets_announced(events).len() + 1,
{
    lemma_announced_and_encoded(events);
}

proof fn lemma_announced_and_encoded(events: Seq<WriteEvent>)
    requires
        write_valid(events),
    ensures
        write_run(events).phase == WritePhase::SendLength ==> packets_encoded(events)
            == packets_announced(events).push(write_run(events).packet),
        write_run(events).phase != WritePhase::SendLength && write_run(events).phase
            != WritePhase::Done ==> packets_encoded(events) == packets_announced(events),
        packets_announced(events).is_prefix_of(packets_encoded(events)),
        packets_encoded(events).len() <= packets_announced(events).len() + 1,
    decreases events.len(),
{
    if events.len() > 0 {
        lemma_announced_and_encoded(events.drop_last());
    }
}

proof fn lemma_frames(events: Seq<WriteEvent>)
    requires
        write_valid(events),
        ring_kept(events),
    ensures
        write_run(events).collected.len() <= FRAME_SAMPLES,
        write_run(events).phase == WritePhase::Encode ==> write_run(events).collected.len()
            == FRAME_SAMPLES,
        samples_drawn(events) == frames_encoded(events).flatten() + if frame_pending(
            write_run(events),
        ) {
            write_run(events).collected
        } else {
            Seq::empty()
        },
    decreases events.len(),
{
    if events.len() == 0 {
        assert(samples_drawn(events) =~= frames_encoded(events).flatten() + Seq::<u32>::empty());
    } else {
        let before = events.drop_last();
        assert forall|i: int| 0 <= i < before.len() implies #[trigger] before[i] !is RingLost by {
            assert(before[i] == events[i]);
        }
        lemma_frames(before);
        let m = write_run(before);
        match events.last() {
            WriteEvent::Link(_, _) => {
                assert(samples_drawn(events) =~= frames_encoded(events).flatten() + Seq::<
                    u32,
                >::empty());
            },
            WriteEvent::Collected(drawn) => {
                assert((frames_encoded(before).flatten() + m.collected) + drawn
                    =~= frames_encoded(before).flatten() + (m.collected + drawn));
            },
            WriteEvent::Encoded(_) => {
                assert(padded(m.collected) =~= m.collected);
                frames_encoded(before).lemma_flatten_push(m.collected);
                assert(samples_drawn(events) =~= frames_encoded(events).flatten() + Seq::<
                    u32,
                >::empty());
            },
            WriteEvent::RingLost => {
                assert(events[events.len() - 1] is RingLost);
            },
            _ => {},
        }
    }
}

/// As long as the ring can be used, every sample drawn from it reaches the encoder once
/// and in order: the frames encoded, followed by the frame being filled, are the samples
/// drawn.
pub proof fn law_no_sample_is_lost(events: Seq<WriteEvent>)
    requires
        write_valid(events),
        ring_kept(events),
    ensures
        samples_drawn(events) == frames_encoded(events).flatten() + if frame_pending(
            write_run(events),
        ) {
            write_run(events).collected
        } else {
            Seq::empty()
        },
{
    lemma_frames(events);
}

proof fn lemma_collected_fits(events: Seq<WriteEvent>)
    requires
        write_valid(events),
    ensures
        write_run(events).collected.len() <= FRAME_SAMPLES,
    decreases events.len(),
{
    if events.len() > 0 {
        lemma_collected_fits(events.drop_last());
    }
}

/// The encoder only ever gets whole frames.
pub proof fn law_frames_are_whole(events: Seq<WriteEvent>)
    requires
        write_valid(events),
    ensures
        forall|i: int|
            0 <= i < frames_encoded(events).len() ==> (#[trigger] frames_encoded(events)[i]).len()
                == FRAME_SAMPLES,
    decreases events.len(),
{
    if events.len() > 0 {
        let earlier = frames_encoded(events.drop_last());
        law_frames_are_whole(events.drop_last());
        lemma_collected_fits(events.drop_last());
        assert forall|i: int| 0 <= i < frames_encoded(events).len() implies (
        #[trigger] frames_encoded(events)[i]).len() == FRAME_SAMPLES by {
            if i < earlier.len() {
                assert(frames_encoded(events)[i] == earlier[i]);
            }
        }
    }
}

/// A half that has ended does nothing more.
pub proof fn law_done_is_final(w: WriteModel, we: WriteEvent, r: ReadModel, re: ReadEvent)
    ensures
        w.phase == WritePhase::Done ==> !write_accepts(w, we),
        r.phase == ReadPhase::Done ==> !read_accepts(r, re),
{
}

/// The sending half ends with an error exactly when its last look found the connection
/// lost.
pub proof fn law_write_error_is_lost_connection(events: Seq<WriteEvent>)
    requires
        write_valid(events),
    ensures
        write_run(events).lost <==> events.len() > 0 && events.last() is Link
            && events.last()->Link_0 == LinkStatus::Lost,
        write_run(events).lost ==> write_run(events).phase == WritePhase::Done,
    decreases events.len(),
{
    if events.len() > 0 {
        law_write_error_is_lost_connection(events.drop_last());
    }
}

/// The receiving half ends with an error exactly when its last look found the connection
/// lost.
pub proof fn law_read_error_is_lost_connection(events: Seq<ReadEvent>)
    requires
        read_valid(events),
    ensures
        read_run(events).lost <==> events.len() > 0 && events.last() is Link
            && events.last()->Link_0 == LinkStatus::Lost,
        read_run(events).lost ==> read_run(events).phase == ReadPhase::Done,
    decreases events.len(),
{
    if events.len() > 0 {
        law_read_error_is_lost_connection(events.drop_last());
    }
}

/// More bytes behind a stream change nothing in the packets at its front.
proof fn lemma_take_packets_extend(stream: Seq<u8>, extra: Seq<u8>, n: nat)
    requires
        take_packets(stream, n) is Some,
    ensures
        take_packets(stream + extra, n) == Some(
            (take_packets(stream, n)->Some_0.0, take_packets(stream, n)->Some_0.1 + extra),
        ),
    decreases n,
{
    if n > 0 {
        let (payload, rest) = take_packet(stream)->Some_0;
        let len = announced_len(stream.take(PREFIX_LEN as int)) as int;
        let behind = stream.skip(PREFIX_LEN as int);
        assert((stream + extra).take(PREFIX_LEN as int) =~= stream.take(PREFIX_LEN as int));
        assert((stream + extra).skip(PREFIX_LEN as int) =~= behind + extra);
        assert((behind + extra).take(len) =~= behind.take(len));
        assert((behind + extra).skip(len) =~= behind.skip(len) + extra);
        lemma_take_packets_extend(rest, extra, (n - 1) as nat);
    }
}

/// Taking some packets and then some more is taking them all.
proof fn lemma_take_packets_more(stream: Seq<u8>, n: nat, more: nat)
    requires
        take_packets(stream, n) is Some,
    ensures
        ({
            let (first, rest) = take_packets(stream, n)->Some_0;
            match take_packets(rest, more) {
                None => take_packets(stream, n + more) is None,
                Some((second, tail)) => take_packets(stream, n + more) == Some(
                    (first + second, tail),
                ),
            }
        }),
    decreases n,
{
    let (first, rest) = take_packets(stream, n)->Some_0;
    if n == 0 {
        if let Some((second, tail)) = take_packets(rest, more) {
            assert(first + second =~= second);
        }
    } else {
        let (payload, behind) = take_packet(stream)->Some_0;
        lemma_take_packets_more(behind, (n - 1) as nat, more);
        assert((n + more - 1) as nat == (n - 1) as nat + more);
        let (inner, _) = take_packets(behind, (n - 1) as nat)->Some_0;
        if let Some((second, tail)) = take_packets(rest, more) {
            assert((seq![payload] + inner) + second =~= seq![payload] + (inner + second));
        }
    }
}

proof fn lemma_take_one(stream: Seq<u8>)
    ensures
        take_packets(stream, 1) == match take_packet(stream) {
            None => None,
            Some((payload, rest)) => Some((seq![payload], rest)),
        },
{
    reveal_with_fuel(take_packets, 2);
    if let Some((payload, rest)) = take_packet(stream) {
        assert(seq![payload] + Seq::<Seq<u8>>::empty() =~= seq![payload]);
    }
}

/// The packets that the receiving half has read are those at the front of the bytes that
/// it has read. What is left over is nothing, or the prefix of a packet to come.
pub proof fn law_received_is_what_the_stream_holds(events: Seq<ReadEvent>)
    requires
        read_valid(events),
    ensures
        take_packets(consumed(events), packets_received(events).len()) is Some,
        take_packets(consumed(events), packets_received(events).len())->Some_0.0 == packets_received(
            events,
        ),
        take_packets(consumed(events), packets_received(events).len())->Some_0.1.len() == 0 || take_packets(
            consumed(events),
            packets_received(events).len(),
        )->Some_0.1.len() == PREFIX_LEN,
{
    lemma_received(events);
}

proof fn lemma_received(events: Seq<ReadEvent>)
    requires
        read_valid(events),
    ensures
        ({
            let left = take_packets(consumed(events), packets_received(events).len());
            &&& left is Some
            &&& left->Some_0.0 == packets_received(events)
            &&& match read_run(events).phase {
                ReadPhase::ReadPayload => left->Some_0.1.len() == PREFIX_LEN && announced_len(left->Some_0.1)
                    == read_run(events).expected,
                ReadPhase::Done => left->Some_0.1.len() == 0 || (left->Some_0.1.len()
                    == PREFIX_LEN && ended_inside_a_packet(events)),
                _ => left->Some_0.1.len() == 0,
            }
        }),
    decreases events.len(),
{
    if events.len() > 0 {
        let before = events.drop_last();
        lemma_received(before);
        let n = packets_received(before).len();
        let stream = consumed(before);
        let (packets, left) = take_packets(stream, n)->Some_0;
        match events.last() {
            ReadEvent::LengthRead(Some(bytes)) => {
                lemma_take_packets_extend(stream, bytes, n);
                assert(left + bytes =~= bytes);
            },
            ReadEvent::PayloadRead(Some(packet)) => {
                lemma_take_packets_extend(stream, packet, n);
                lemma_take_packets_more(stream + packet, n, 1);
                lemma_take_one(left + packet);
                assert((left + packet).take(PREFIX_LEN as int) =~= left);
                assert((left + packet).skip(PREFIX_LEN as int) =~= packet);
                assert(packet.take(packet.len() as int) =~= packet);
                assert(packet.skip(packet.len() as int) =~= Seq::<u8>::empty());
                assert(packets + seq![packet] =~= packets.push(packet));
            },
            _ => {},
        }
    }
}

proof fn lemma_framed_all_split(payloads: Seq<Seq<u8>>, n: nat)
    requires
        n <= payloads.len(),
    ensures
        framed_all(payloads) == framed_all(payloads.take(n as int)) + framed_all(
            payloads.skip(n as int),
        ),
    decreases n,
{
    if n == 0 {
        assert(payloads.skip(0) =~= payloads);
        assert(framed_all(payloads) =~= framed_all(payloads.take(0)) + framed_all(payloads));
    } else {
        let others = payloads.drop_first();
        lemma_framed_all_split(others, (n - 1) as nat);
        assert(payloads.take(n as int).drop_first() =~= others.take(n - 1));
        assert(payloads.skip(n as int) =~= others.skip(n - 1));
        assert(framed_all(payloads) =~= framed_all(payloads.take(n as int)) + framed_all(
            payloads.skip(n as int),
        ));
    }
}

/// A receiver of a beginning of some framed packets receives those packets, in order, as
/// far as they have arrived, and nothing else.
pub proof fn law_receiver_gets_what_was_framed(payloads: Seq<Seq<u8>>, events: Seq<ReadEvent>)
    requires
        read_valid(events),
        forall|i: int| 0 <= i < payloads.len() ==> #[trigger] payloads[i].len() <= usize::MAX,
        consumed(events).is_prefix_of(framed_all(payloads)),
    ensures
        packets_received(events).is_prefix_of(payloads),
{
    let all = framed_all(payloads);
    let stream = consumed(events);
    let extra = all.skip(stream.len() as int);
    let n = packets_received(events).len();
    assert(stream + extra =~= all);
    lemma_received(events);
    lemma_take_packets_extend(stream, extra, n);
    if n <= payloads.len() {
        let front = payloads.take(n as int);
        assert forall|i: int| 0 <= i < front.len() implies #[trigger] front[i].len()
            <= usize::MAX by {
            assert(front[i] == payloads[i]);
        }
        lemma_framed_all_split(payloads, n);
        law_stream_round_trip(front, framed_all(payloads.skip(n as int)));
        assert(packets_received(events) == front);
    } else {
        law_stream_round_trip(payloads, Seq::empty());
        assert(all + Seq::<u8>::empty() =~= all);
        lemma_take_packets_more(all, payloads.len(), (n - payloads.len()) as nat);
        assert(take_packet(Seq::<u8>::empty()) is None);
        assert(take_packets(Seq::<u8>::empty(), (n - payloads.len()) as nat) is None);
        assert(payloads.len() + (n - payloads.len()) as nat == n);
    }
}

/// What one side encodes is what the other side decodes: when the bytes that the receiving
/// half has read are a beginning of those that the sending half's packets make, the packets
/// received are the first of the packets encoded, in order.
pub proof fn law_channel_carries_packets(sent: Seq<WriteEvent>, got: Seq<ReadEvent>)
    requires
        write_valid(sent),
        read_valid(got),
        forall|i: int|
            0 <= i < packets_encoded(sent).len() ==> #[trigger] packets_encoded(sent)[i].len()
                <= usize::MAX,
        consumed(got).is_prefix_of(framed_all(packets_announced(sent))),
    ensures
        packets_received(got).is_prefix_of(packets_encoded(sent)),
{
    lemma_announced_and_encoded(sent);
    let announced = packets_announced(sent);
    assert forall|i: int| 0 <= i < announced.len() implies #[trigger] announced[i].len()
        <= usize::MAX by {
        assert(announced[i] == packets_encoded(sent)[i]);
    }
    law_receiver_gets_what_was_framed(announced, got);
}

/// Nothing is lost on the way: a receiver that has read all that some framed packets make has
/// received all of them, unless it still waits for the rest of a packet, or ended there. That
/// holds of one that goes on, and of one that ended at its look at the connection, where no
/// further length could be read, or where its ring was lost.
pub proof fn law_receiver_gets_all_that_was_framed(payloads: Seq<Seq<u8>>, events: Seq<ReadEvent>)
    requires
        read_valid(events),
        forall|i: int| 0 <= i < payloads.len() ==> #[trigger] payloads[i].len() <= usize::MAX,
        consumed(events) == framed_all(payloads),
        read_run(events).phase != ReadPhase::ReadPayload,
        !ended_inside_a_packet(events),
    ensures
        packets_received(events) == payloads,
{
    let n = packets_received(events).len();
    assert(consumed(events) =~= framed_all(payloads).subrange(0, consumed(events).len() as int));
    law_receiver_gets_what_was_framed(payloads, events);
    lemma_received(events);
    let front = payloads.take(n as int);
    let behind = payloads.skip(n as int);
    assert forall|i: int| 0 <= i < front.len() implies #[trigger] front[i].len() <= usize::MAX by {
        assert(front[i] == payloads[i]);
    }
    lemma_framed_all_split(payloads, n);
    law_stream_round_trip(front, framed_all(behind));
    if behind.len() > 0 {
        lemma_prefix_len(behind[0].len());
        assert(framed_all(behind).len() > 0);
    }
    assert(packets_received(events) =~= payloads);
}

/// Every packet received is decoded once and in order, as far as the decoder has got: only the
/// packet that waits for it is missing. The window is told one level for each.
pub proof fn law_every_packet_is_decoded_once(events: Seq<ReadEvent>)
    requires
        read_valid(events),
    ensures
        packets_received(events) == if read_run(events).phase == ReadPhase::Decode {
            packets_decoded(events).push(read_run(events).packet)
        } else {
            packets_decoded(events)
        },
        blocks_decoded(events).len() == packets_decoded(events).len(),
        levels_told(events).len() == packets_decoded(events).len(),
    decreases events.len(),
{
    if events.len() > 0 {
        law_every_packet_is_decoded_once(events.drop_last());
    }
}

proof fn lemma_delivered(events: Seq<ReadEvent>)
    requires
        read_valid(events),
    ensures
        blocks_decoded(events) == if read_run(events).phase == ReadPhase::Deliver || (events.len()
            > 0 && events.last() is RingLost) {
            blocks_delivered(events).push(read_run(events).samples)
        } else {
            blocks_delivered(events)
        },
        events.len() > 0 && events.last() is RingLost ==> read_run(events).phase == ReadPhase::Done,
    decreases events.len(),
{
    if events.len() > 0 {
        lemma_delivered(events.drop_last());
    }
}

/// The samples put into the speaker's ring are the samples decoded, each once and in order.
/// Only those of the last packet can be missing: while they wait for the ring, or for good
/// where the ring was lost, and then the half has ended.
pub proof fn law_what_is_decoded_is_delivered(events: Seq<ReadEvent>)
    requires
        read_valid(events),
    ensures
        ({
            let ring_lost = events.len() > 0 && events.last() is RingLost;
            let missing = if read_run(events).phase == ReadPhase::Deliver || ring_lost {
                read_run(events).samples
            } else {
                Seq::empty()
            };
            &&& blocks_decoded(events).flatten() == blocks_delivered(events).flatten() + missing
            &&& blocks_delivered(events).is_prefix_of(blocks_decoded(events))
            &&& blocks_decoded(events).len() <= blocks_delivered(events).len() + 1
            &&& ring_lost ==> read_run(events).phase == ReadPhase::Done
        }),
        forall|i: int|
            0 <= i < events.len() && (#[trigger] events[i]) is RingLost ==> i == events.len() - 1,
{
    lemma_delivered(events);
    lemma_ring_lost_is_last(events);
    let delivered = blocks_delivered(events);
    let samples = read_run(events).samples;
    let ring_lost = events.len() > 0 && events.last() is RingLost;
    if read_run(events).phase == ReadPhase::Deliver || ring_lost {
        delivered.lemma_flatten_push(samples);
    } else {
        assert(delivered.flatten() =~= delivered.flatten() + Seq::<u32>::empty());
    }
}

proof fn lemma_ring_lost_is_last(events: Seq<ReadEvent>)
    requires
        read_valid(events),
    ensures
        forall|i: int|
            0 <= i < events.len() && (#[trigger] events[i]) is RingLost ==> i == events.len() - 1,
    decreases events.len(),
{
    if events.len() > 0 {
        let before = events.drop_last();
        lemma_ring_lost_is_last(before);
        lemma_delivered(before);
        assert forall|i: int| 0 <= i < events.len() && (#[trigger] events[i]) is RingLost implies i
            == events.len() - 1 by {
            if i < before.len() {
                assert(before[i] is RingLost);
                assert(before.last() is RingLost);
                assert(read_run(before).phase == ReadPhase::Done);
            }
        }
    }
}

/// The sending half ends for a reason, and for no other: its look at the connection found it
/// lost or closed, or the call stopped; or a prefix or a packet could not be written. After a
/// packet that was written it goes on, whatever the packet.
pub proof fn law_sending_ends_for_a_reason(events: Seq<WriteEvent>)
    requires
        write_valid(events),
    ensures
        write_run(events).phase == WritePhase::Done <==> events.len() > 0 && match events.last() {
            WriteEvent::Link(status, stopped) => status != LinkStatus::Open || stopped,
            WriteEvent::LengthSent(ok) => !ok,
            WriteEvent::PayloadSent(ok) => !ok,
            _ => false,
        },
{
}

/// The round of the sending half: whatever it has collected and encoded, an open connection
/// begins a new frame, a frame is collected until it has 2880 samples and is then encoded, a
/// packet is written behind its prefix, and after a pause the half looks at the connection
/// again. Where the ring is lost, the frame is encoded as it is.
pub proof fn law_the_round_of_sending(m: WriteModel, drawn: Seq<u32>, packet: Seq<u8>)
    ensures
        ({
            let next = write_step(m, WriteEvent::Link(LinkStatus::Open, false));
            next.phase == WritePhase::Collect && next.collected.len() == 0
        }),
        ({
            let next = write_step(m, WriteEvent::Collected(drawn));
            next.phase == WritePhase::Pause && next.collected == m.collected + drawn
        }),
        m.collected.len() < 2880 ==> write_step(m, WriteEvent::Paused).phase == WritePhase::Collect,
        m.collected.len() >= 2880 ==> write_step(m, WriteEvent::Paused).phase == WritePhase::Encode,
        write_step(m, WriteEvent::RingLost).phase == WritePhase::Encode,
        ({
            let next = write_step(m, WriteEvent::Encoded(packet));
            next.phase == WritePhase::SendLength && next.packet == packet
        }),
        write_step(m, WriteEvent::LengthSent(true)).phase == WritePhase::SendPayload,
        write_step(m, WriteEvent::PayloadSent(true)).phase == WritePhase::Rest,
        write_step(m, WriteEvent::Rested).phase == WritePhase::Link,
{
}

/// Nothing but drawing from the ring and the start of a frame touches what is collected, and
/// nothing but the encoder makes another packet.
pub proof fn law_sending_keeps_frame_and_packet(m: WriteModel, event: WriteEvent)
    ensures
        event !is Collected && event !is Link ==> write_step(m, event).collected == m.collected,
        event !is Encoded ==> write_step(m, event).packet == m.packet,
        event !is Link ==> write_step(m, event).lost == m.lost,
        event is Link ==> (write_step(m, event).lost <==> m.lost || event->Link_0
            == LinkStatus::Lost),
{
}

/// Whatever comes of what the sending half does, it can be reported, and nothing else can: any
/// link status, any packet, and as many samples as the frame lacks.
pub proof fn law_sending_takes_every_outcome(
    m: WriteModel,
    status: LinkStatus,
    flag: bool,
    drawn: Seq<u32>,
    packet: Seq<u8>,
)
    ensures
        write_accepts(m, WriteEvent::Link(status, flag)) <==> m.phase == WritePhase::Link,
        write_accepts(m, WriteEvent::Collected(drawn)) <==> m.phase == WritePhase::Collect
            && m.collected.len() + drawn.len() <= 2880,
        write_accepts(m, WriteEvent::RingLost) <==> m.phase == WritePhase::Collect,
        write_accepts(m, WriteEvent::Paused) <==> m.phase == WritePhase::Pause,
        write_accepts(m, WriteEvent::Encoded(packet)) <==> m.phase == WritePhase::Encode,
        write_accepts(m, WriteEvent::LengthSent(flag)) <==> m.phase == WritePhase::SendLength,
        write_accepts(m, WriteEvent::PayloadSent(flag)) <==> m.phase == WritePhase::SendPayload,
        write_accepts(m, WriteEvent::Rested) <==> m.phase == WritePhase::Rest,
{
}

/// Both halves begin with a look at the connection, with nothing collected, read or lost.
pub proof fn law_both_halves_start_afresh()
    ensures
        write_start().phase == WritePhase::Link,
        write_start().collected.len() == 0,
        write_start().packet.len() == 0,
        !write_start().lost,
        read_start().phase == ReadPhase::Link,
        read_start().expected == 0,
        read_start().packet.len() == 0,
        read_start().samples.len() == 0,
        !read_start().lost,
{
}

/// The encoder gets the samples that were collected, each at its place, and zeros behind them
/// up to 2880.
pub proof fn law_a_frame_is_what_was_collected(collected: Seq<u32>)
    requires
        collected.len() <= 2880,
    ensures
        padded(collected).len() == 2880,
        forall|i: int|
            0 <= i < collected.len() ==> #[trigger] padded(collected)[i] == collected[i],
        forall|i: int| collected.len() <= i < 2880 ==> #[trigger] padded(collected)[i] == 0,
{
}

/// The receiving half ends for a reason, and for no other: its look at the connection found it
/// lost or closed, or the call stopped; no prefix or no packet could be read; or its ring was
/// lost. After a packet that was delivered it goes on, whatever the packet.
pub proof fn law_receiving_ends_for_a_reason(events: Seq<ReadEvent>)
    requires
        read_valid(events),
    ensures
        read_run(events).phase == ReadPhase::Done <==> events.len() > 0 && match events.last() {
            ReadEvent::Link(status, stopped) => status != LinkStatus::Open || stopped,
            ReadEvent::LengthRead(bytes) => bytes is None,
            ReadEvent::PayloadRead(packet) => packet is None,
            ReadEvent::RingLost => true,
            _ => false,
        },
{
}

/// The round of the receiving half: on an open connection it reads a prefix, then as many bytes
/// as that stands for, has them decoded, delivers what came out, and after a pause looks at the
/// connection again.
pub proof fn law_the_round_of_receiving(
    m: ReadModel,
    bytes: Seq<u8>,
    packet: Seq<u8>,
    samples: Seq<u32>,
    level: u32,
)
    ensures
        read_step(m, ReadEvent::Link(LinkStatus::Open, false)).phase == ReadPhase::ReadLength,
        ({
            let next = read_step(m, ReadEvent::LengthRead(Some(bytes)));
            next.phase == ReadPhase::ReadPayload && (bytes.len() == 8 && le_value(bytes)
                <= usize::MAX ==> next.expected == le_value(bytes))
        }),
        ({
            let next = read_step(m, ReadEvent::PayloadRead(Some(packet)));
            next.phase == ReadPhase::Decode && next.packet == packet
        }),
        ({
            let next = read_step(m, ReadEvent::Decoded(samples, level));
            next.phase == ReadPhase::Deliver && next.samples == samples
        }),
        read_step(m, ReadEvent::Delivered).phase == ReadPhase::Rest,
        read_step(m, ReadEvent::Rested).phase == ReadPhase::Link,
{
    if bytes.len() == 8 && le_value(bytes) <= usize::MAX {
        law_announced_len_is_the_value(bytes);
    }
}

/// A half that reads the prefix of a packet goes on to read that packet's length.
pub proof fn law_a_prefix_announces_its_packet(m: ReadModel, payload: Seq<u8>)
    requires
        payload.len() <= usize::MAX,
    ensures
        read_step(m, ReadEvent::LengthRead(Some(prefix(payload.len())))).expected == payload.len(),
{
    law_announced_len_is_the_length(payload.len());
}

/// Nothing but reading touches the packet and its announced length, and nothing but the decoder
/// makes other samples.
pub proof fn law_receiving_keeps_packet_and_samples(m: ReadModel, event: ReadEvent)
    ensures
        event !is LengthRead ==> read_step(m, event).expected == m.expected,
        event !is PayloadRead ==> read_step(m, event).packet == m.packet,
        event !is Decoded ==> read_step(m, event).samples == m.samples,
        event !is Link ==> read_step(m, event).lost == m.lost,
        event is Link ==> (read_step(m, event).lost <==> m.lost || event->Link_0
            == LinkStatus::Lost),
{
}

/// Whatever comes of what the receiving half does, it can be reported, and nothing else can:
/// any link status, any prefix that announces a length that a buffer can have, any packet of
/// that length, and any samples with any level.
pub proof fn law_receiving_takes_every_outcome(
    m: ReadModel,
    status: LinkStatus,
    stopped: bool,
    bytes: Seq<u8>,
    samples: Seq<u32>,
    level: u32,
)
    ensures
        read_accepts(m, ReadEvent::Link(status, stopped)) <==> m.phase == ReadPhase::Link,
        read_accepts(m, ReadEvent::LengthRead(None)) <==> m.phase == ReadPhase::ReadLength,
        bytes.len() == 8 && le_value(bytes) <= isize::MAX ==> (read_accepts(
            m,
            ReadEvent::LengthRead(Some(bytes)),
        ) <==> m.phase == ReadPhase::ReadLength),
        bytes.len() != 8 ==> !read_accepts(m, ReadEvent::LengthRead(Some(bytes))),
        read_accepts(m, ReadEvent::PayloadRead(None)) <==> m.phase == ReadPhase::ReadPayload,
        read_accepts(m, ReadEvent::PayloadRead(Some(bytes))) <==> m.phase == ReadPhase::ReadPayload
            && bytes.len() == m.expected,
        read_accepts(m, ReadEvent::Decoded(samples, level)) <==> m.phase == ReadPhase::Decode,
        read_accepts(m, ReadEvent::Delivered) <==> m.phase == ReadPhase::Deliver,
        read_accepts(m, ReadEvent::RingLost) <==> m.phase == ReadPhase::Deliver,
        read_accepts(m, ReadEvent::Rested) <==> m.phase == ReadPhase::Rest,
{
    if bytes.len() == 8 && le_value(bytes) <= isize::MAX {
        law_announced_len_is_the_value(bytes);
    }
}

/// The levels that the decoder's results came with in a run.
pub open spec fn levels_reported(events: Seq<ReadEvent>) -> Seq<u32>
    decreases events.len(),
{
    if events.len() == 0 {
        Seq::empty()
    } else {
        match events.last() {
            ReadEvent::Decoded(_, level) => levels_reported(events.drop_last()).push(level),
            _ => levels_reported(events.drop_last()),
        }
    }
}

/// The window is told the level that was reported, and nothing at any other event.
pub proof fn law_the_level_reported_is_told(samples: Seq<u32>, level: u32, other: ReadEvent)
    ensures
        read_tells(ReadEvent::Decoded(samples, level)) == Some(AudioUpdate::DecibelReading(level)),
        other !is Decoded ==> read_tells(other) is None,
{
}

/// Over a run, the levels told are the levels reported, each once and in order.
pub proof fn law_levels_told_are_levels_reported(events: Seq<ReadEvent>)
    ensures
        levels_told(events) == levels_reported(events),
    decreases events.len(),
{
    if events.len() > 0 {
        law_levels_told_are_levels_reported(events.drop_last());
    }
}

/// What was read is handed on byte by byte, or not at all where nothing was read.
pub proof fn law_bytes_read(read: Option<Vec<u8>>)
    ensures
        bytes_read(read) is Some <==> read is Some,
        read is Some ==> bytes_read(read)->Some_0 == read->Some_0@,
{
}

/// The numbers of a channel: a frame is 60 milliseconds at 48000 samples a second; the encoder
/// has four bytes of room for each sample of a frame, and the decoder has room for five frames;
/// a pause is ten milliseconds; and a channel is closed with code zero.
pub proof fn law_the_numbers_of_a_channel()
    ensures
        FRAME_SAMPLES * 1_000 == 60 * 48_000,
        PACKET_CAPACITY == 4 * FRAME_SAMPLES,
        DECODE_CAPACITY == 5 * FRAME_SAMPLES,
        PAUSE_MILLIS == 10,
        CLOSE_CODE == 0,
        PREFIX_LEN == 8,
{
}

} // verus!
