use audiostream::audio::{
    end_audio_channel, start_audio_channel, ChannelError, FrameBuffer, LinkStatus, ReadHalf,
    ReadPhase, WriteHalf, WritePhase, DECODE_CAPACITY, FRAME_SAMPLES, PACKET_CAPACITY,
};
use audiostream::ring::SampleRing;
use audiostream::server::AudioUpdate;
use audiostream::settings::{Application, ConnectionSettings};

fn counting(from: u32, n: usize) -> Vec<u32> {
    (from..from + n as u32).collect()
}

#[test]
fn the_sizes_of_a_channel() {
    assert_eq!(FRAME_SAMPLES, 2880);
    assert_eq!(PACKET_CAPACITY, 2880 * 4);
    assert_eq!(DECODE_CAPACITY, 2880 * 5);
}

#[test]
fn a_frame_fills_in_parts() {
    let mut frame = FrameBuffer::new();
    let mut ring = SampleRing::with_latency(3000);
    assert_eq!(frame.samples(), &vec![0u32; 2880]);
    ring.capture(&counting(1, 1000), false);
    frame.collect(&mut ring);
    assert!(!frame.is_full());
    assert_eq!(frame.samples()[..1000], counting(1, 1000)[..]);
    assert_eq!(frame.samples()[1000..], vec![0u32; 1880][..]);
    ring.capture(&counting(1001, 2000), false);
    frame.collect(&mut ring);
    assert!(frame.is_full());
    assert_eq!(frame.samples(), &counting(1, 2880));
    let mut rest = [0u32; 200];
    assert_eq!(ring.play(&mut rest), 120);
    assert_eq!(rest[..120], counting(2881, 120)[..]);
}

#[test]
fn one_round_of_the_sending_half() {
    let mut half = WriteHalf::new();
    let mut ring = SampleRing::with_latency(3000);
    assert_eq!(half.phase(), WritePhase::Link);
    half.link(LinkStatus::Open, false);
    assert_eq!(half.phase(), WritePhase::Collect);
    ring.capture(&counting(1, 2000), false);
    half.collect(&mut ring);
    assert_eq!(half.phase(), WritePhase::Pause);
    half.paused();
    assert_eq!(half.phase(), WritePhase::Collect);
    ring.capture(&counting(2001, 1000), false);
    half.collect(&mut ring);
    half.paused();
    assert_eq!(half.phase(), WritePhase::Encode);
    assert_eq!(half.frame(), &counting(1, 2880));
    half.encoded(vec![9, 8, 7]);
    assert_eq!(half.phase(), WritePhase::SendLength);
    assert_eq!(half.length_bytes(), vec![3, 0, 0, 0, 0, 0, 0, 0]);
    half.length_sent(true);
    assert_eq!(half.phase(), WritePhase::SendPayload);
    assert_eq!(half.payload(), &vec![9, 8, 7]);
    half.payload_sent(true);
    assert_eq!(half.phase(), WritePhase::Rest);
    half.rested();
    half.link(LinkStatus::Open, false);
    half.collect(&mut ring);
    assert_eq!(half.frame()[..120], counting(2881, 120)[..]);
    assert_eq!(half.frame()[120..], vec![0u32; 2760][..]);
}

#[test]
fn a_lost_ring_sends_what_was_collected() {
    let mut half = WriteHalf::new();
    let mut ring = SampleRing::with_latency(3000);
    half.link(LinkStatus::Open, false);
    ring.capture(&[5, 6], false);
    half.collect(&mut ring);
    half.paused();
    half.ring_lost();
    assert_eq!(half.phase(), WritePhase::Encode);
    assert_eq!(half.frame()[..3], [5, 6, 0]);
    assert_eq!(half.frame().len(), 2880);
}

#[test]
fn the_sending_half_ends_when_the_link_does() {
    for (status, stopped, result) in [
        (LinkStatus::Lost, false, Err(ChannelError::ConnectionLost)),
        (LinkStatus::Lost, true, Err(ChannelError::ConnectionLost)),
        (LinkStatus::Closed, false, Ok(())),
        (LinkStatus::Closed, true, Ok(())),
        (LinkStatus::Open, true, Ok(())),
    ] {
        let mut half = WriteHalf::new();
        half.link(status, stopped);
        assert_eq!(half.phase(), WritePhase::Done);
        assert_eq!(half.result(), result);
        let mut half = ReadHalf::new();
        half.link(status, stopped);
        assert_eq!(half.phase(), ReadPhase::Done);
        assert_eq!(half.result(), result);
    }
}

fn ready_to_send(packet: Vec<u8>) -> WriteHalf {
    let mut half = WriteHalf::new();
    half.link(LinkStatus::Open, false);
    half.ring_lost();
    half.encoded(packet);
    half
}

#[test]
fn a_failed_write_ends_the_sending_half() {
    let mut half = ready_to_send(vec![1]);
    half.length_sent(false);
    assert_eq!(half.phase(), WritePhase::Done);
    assert_eq!(half.result(), Ok(()));

    let mut half = ready_to_send(vec![1]);
    half.length_sent(true);
    half.payload_sent(false);
    assert_eq!(half.phase(), WritePhase::Done);
    assert_eq!(half.result(), Ok(()));
}

#[test]
fn one_round_of_the_receiving_half() {
    let mut half = ReadHalf::new();
    let mut ring = SampleRing::delayed(4);
    half.link(LinkStatus::Open, false);
    assert_eq!(half.phase(), ReadPhase::ReadLength);
    half.length_read(Some(vec![2, 0, 0, 0, 0, 0, 0, 0]));
    assert_eq!(half.phase(), ReadPhase::ReadPayload);
    assert_eq!(half.expected(), 2);
    half.payload_read(Some(vec![70, 71]));
    assert_eq!(half.phase(), ReadPhase::Decode);
    assert_eq!(half.packet(), &vec![70, 71]);
    let update = half.decoded(vec![1, 2, 3, 4, 5], (-12.5f32).to_bits());
    assert_eq!(update, AudioUpdate::DecibelReading((-12.5f32).to_bits()));
    assert_eq!(half.phase(), ReadPhase::Deliver);
    half.deliver(&mut ring);
    assert_eq!(half.phase(), ReadPhase::Rest);
    half.rested();
    assert_eq!(half.phase(), ReadPhase::Link);
    let mut out = [9u32; 9];
    assert_eq!(ring.play(&mut out), 8);
    assert_eq!(out, [0, 0, 0, 0, 1, 2, 3, 4, 9]);
}

#[test]
fn a_failed_read_ends_the_receiving_half() {
    let mut half = ReadHalf::new();
    half.link(LinkStatus::Open, false);
    half.length_read(None);
    assert_eq!(half.phase(), ReadPhase::Done);
    assert_eq!(half.result(), Ok(()));

    let mut half = ReadHalf::new();
    half.link(LinkStatus::Open, false);
    half.length_read(Some(vec![1, 0, 0, 0, 0, 0, 0, 0]));
    half.payload_read(None);
    assert_eq!(half.phase(), ReadPhase::Done);
    assert_eq!(half.result(), Ok(()));

    let mut half = ReadHalf::new();
    half.link(LinkStatus::Open, false);
    half.length_read(Some(vec![0; 8]));
    half.payload_read(Some(vec![]));
    half.decoded(vec![1], 0);
    half.ring_lost();
    assert_eq!(half.phase(), ReadPhase::Done);
    assert_eq!(half.result(), Ok(()));
}

#[test]
fn packets_cross_a_channel_whole_and_in_order() {
    let packets: Vec<Vec<u8>> = vec![vec![1, 2, 3], vec![], vec![7; 300], vec![0; 8]];
    let mut wire: Vec<u8> = Vec::new();
    for packet in &packets {
        let mut half = ready_to_send(packet.clone());
        wire.extend_from_slice(&half.length_bytes());
        half.length_sent(true);
        wire.extend_from_slice(half.payload());
        half.payload_sent(true);
    }
    let mut half = ReadHalf::new();
    let mut ring = SampleRing::with_latency(10);
    let mut at: usize = 0;
    let mut got: Vec<Vec<u8>> = Vec::new();
    while at < wire.len() {
        half.link(LinkStatus::Open, false);
        half.length_read(Some(wire[at..at + 8].to_vec()));
        at += 8;
        let len = half.expected();
        half.payload_read(Some(wire[at..at + len].to_vec()));
        at += len;
        got.push(half.packet().clone());
        half.decoded(vec![], 0);
        half.deliver(&mut ring);
        half.rested();
    }
    assert_eq!(got, packets);
}

#[test]
fn a_channel_starts_with_the_encoding_of_its_settings() {
    let mut settings = ConnectionSettings::new("mic".to_string(), "speaker".to_string());
    settings.choose_application(Application::Audio);
    let channel = start_audio_channel(&settings);
    assert_eq!(channel.encoding, settings.encoding);
    assert_eq!(channel.write.phase(), WritePhase::Link);
    assert_eq!(channel.read.phase(), ReadPhase::Link);
}

#[test]
fn a_channel_is_closed_with_the_result_of_its_first_half() {
    let end = end_audio_channel(Ok(()));
    assert_eq!(end.code, 0);
    assert_eq!(end.reason.as_bytes(), b"closed");
    assert_eq!(end.result, Ok(()));
    let end = end_audio_channel(Err(ChannelError::ConnectionLost));
    assert_eq!(end.result, Err(ChannelError::ConnectionLost));
    assert_eq!(ChannelError::ConnectionLost.message(), "connection lost");
}

#[test]
fn a_half_that_broke_off_ends_the_channel_with_an_error() {
    let end = end_audio_channel(Err(ChannelError::BrokenOff));
    assert_eq!(end.code, 0);
    assert_eq!(end.reason, "closed");
    assert_eq!(end.result, Err(ChannelError::BrokenOff));
    assert_eq!(ChannelError::BrokenOff.message(), "channel broken off");
}

#[test]
fn what_is_decoded_is_delivered_in_order() {
    let mut half = ReadHalf::new();
    let mut ring = SampleRing::with_latency(10);
    let blocks: Vec<Vec<u32>> = vec![vec![1, 2], vec![], vec![3], vec![4, 5, 6]];
    let mut levels = Vec::new();
    for block in &blocks {
        half.link(LinkStatus::Open, false);
        half.length_read(Some(vec![0; 8]));
        half.payload_read(Some(vec![]));
        levels.push(half.decoded(block.clone(), block.len() as u32));
        half.deliver(&mut ring);
        half.rested();
    }
    let mut out = [0u32; 10];
    assert_eq!(ring.play(&mut out), 6);
    assert_eq!(out[..6], [1, 2, 3, 4, 5, 6]);
    assert_eq!(
        levels,
        vec![
            AudioUpdate::DecibelReading(2),
            AudioUpdate::DecibelReading(0),
            AudioUpdate::DecibelReading(1),
            AudioUpdate::DecibelReading(3),
        ]
    );
}
