//! The two halves of an audio channel: one sends what the microphone recorded, the other
//! plays what the peer sent.
//!
//! A half decides and remembers; whoever runs it looks at its phase, does the waiting,
//! coding and network work that the phase calls for, and reports the outcome.

use vstd::prelude::*;

use crate::ring::{silence, shorter, after_push, ring_capacity, SampleRing, SILENCE};
use crate::server::AudioUpdate;
use crate::settings::{AudioEncoding, ConnectionSettings};
use crate::wire::{length_prefix, prefix, prefix_value, announced_len, PREFIX_LEN};

verus! {

/// The samples in one frame for the encoder.
pub const FRAME_SAMPLES: usize = 2880;

/// The room, in bytes, that the encoder has for one packet.
pub const PACKET_CAPACITY: usize = 11520;

/// The room, in samples, that the decoder has for one packet.
pub const DECODE_CAPACITY: usize = 14400;

/// The pause, in milliseconds, between two looks at a ring and between two packets.
pub const PAUSE_MILLIS: u64 = 10;

/// The code that a channel is closed with.
pub const CLOSE_CODE: u32 = 0;

/// What is known of the connection under a channel.
#[derive(Debug, Clone, Copy, PartialEq, Eq, Structural)]
pub enum LinkStatus {
    /// The connection cannot be looked at any more.
    Lost,
    /// The connection has been closed, by either side.
    Closed,
    Open,
}

/// Why a channel half failed.
#[derive(Debug, Clone, Copy, PartialEq, Eq, Structural)]
pub enum ChannelError {
    ConnectionLost,
    /// The half broke off without a result of its own: its codec failed, or rejected a packet.
    BrokenOff,
}

impl ChannelError {
    /// The error in words.
    pub fn message(&self) -> (text: String)
        ensures
            text@ == match *self {
                ChannelError::ConnectionLost => "connection lost"@,
                ChannelError::BrokenOff => "channel broken off"@,
            },
    {
        match self {
            ChannelError::ConnectionLost => "connection lost".to_string(),
            ChannelError::BrokenOff => "channel broken off".to_string(),
        }
    }
}

/// A frame for the encoder: the samples collected so far, with silence where more are
/// to come.
pub open spec fn padded(collected: Seq<u32>) -> Seq<u32> {
    collected + silence((FRAME_SAMPLES - collected.len()) as nat)
}

/// A frame that is being filled.
pub struct FrameBuffer {
    samples: Vec<u32>,
    cursor: usize,
}

impl View for FrameBuffer {
    type V = Seq<u32>;

    /// The samples collected so far.
    closed spec fn view(&self) -> Seq<u32> {
        self.samples@.take(self.cursor as int)
    }
}

impl FrameBuffer {
    /// The buffer has the length of a frame, and is silent behind what was collected.
    pub closed spec fn wf(&self) -> bool {
        &&& self.cursor <= FRAME_SAMPLES
        &&& self.samples@ == padded(self.samples@.take(self.cursor as int))
        &&& self.samples@.len() == FRAME_SAMPLES
    }

    /// No more is collected than a frame holds.
    pub proof fn lemma_len(&self)
        requires
            self.wf(),
        ensures
            self@.len() <= FRAME_SAMPLES,
    {
    }

    /// A silent frame.
    pub fn new() -> (frame: FrameBuffer)
        ensures
            frame.wf(),
            frame@ == Seq::<u32>::empty(),
    {
        let samples: Vec<u32> = vec![SILENCE; FRAME_SAMPLES];
        assert(samples@.take(0) =~= Seq::<u32>::empty());
        assert(samples@ =~= padded(Seq::<u32>::empty()));
        FrameBuffer { samples, cursor: 0 }
    }

    /// Draws from a ring what the frame still lacks, as far as the ring has it.
    pub fn collect(&mut self, ring: &mut SampleRing)
        requires
            old(self).wf(),
            old(ring).wf(),
        ensures
            final(self).wf(),
            final(ring).wf(),
            ring_capacity(*final(ring)) == ring_capacity(*old(ring)),
            ({
                let n = shorter((FRAME_SAMPLES - old(self)@.len()) as nat, old(ring)@.len());
                &&& final(self)@ == old(self)@ + old(ring)@.take(n as int)
                &&& final(ring)@ == old(ring)@.skip(n as int)
            }),
    {
        let ghost before = self.samples@;
        let ghost held = ring@;
        let cursor = self.cursor;
        let (_front, back) = self.samples.as_mut_slice().split_at_mut(cursor);
        let n = ring.play(back);
        self.cursor = cursor + n;
        proof {
            let done = before.take(cursor as int);
            assert(self.samples@ =~= done + (held.take(n as int) + before.skip(cursor as int).skip(
                n as int,
            )));
            assert(self.samples@.take(self.cursor as int) =~= done + held.take(n as int));
            assert(self.samples@ =~= padded(done + held.take(n as int)));
        }
    }

    /// Whether the frame lacks nothing.
    pub fn is_full(&self) -> (full: bool)
        requires
            self.wf(),
        ensures
            full == (self@.len() >= FRAME_SAMPLES),
    {
        self.cursor >= FRAME_SAMPLES
    }

    /// The frame as the encoder takes it.
    pub fn samples(&self) -> (samples: &Vec<u32>)
        requires
            self.wf(),
        ensures
            samples@ == padded(self@),
            samples@.len() == FRAME_SAMPLES,
    {
        &self.samples
    }
}

/// What the sending half does next.
#[derive(Debug, Clone, Copy, PartialEq, Eq, Structural)]
pub enum WritePhase {
    /// Look at the connection and at the stop flag.
    Link,
    /// Draw samples from the microphone's ring.
    Collect,
    /// Pause before looking at the frame again.
    Pause,
    /// Encode the frame.
    Encode,
    /// Write the packet's length prefix.
    SendLength,
    /// Write the packet.
    SendPayload,
    /// Pause before the next packet.
    Rest,
    /// Nothing: the half has ended.
    Done,
}

/// The state of the sending half.
#[verifier::ext_equal]
pub struct WriteModel {
    pub phase: WritePhase,
    /// The samples of the current frame.
    pub collected: Seq<u32>,
    /// The packet last encoded.
    pub packet: Seq<u8>,
    /// Whether the half ended because the connection was lost.
    pub lost: bool,
}

/// What can be reported to the sending half.
pub enum WriteEvent {
    /// The connection, and whether the call has been stopped.
    Link(LinkStatus, bool),
    /// These samples were drawn from the ring.
    Collected(Seq<u32>),
    /// The ring cannot be used any more.
    RingLost,
    /// The pause between two looks at the ring is over.
    Paused,
    /// The frame was encoded to this packet.
    Encoded(Seq<u8>),
    /// The length prefix was written, or could not be.
    LengthSent(bool),
    /// The packet was written, or could not be.
    PayloadSent(bool),
    /// The pause between two packets is over.
    Rested,
}

/// The sending half before anything was reported to it.
pub open spec fn write_start() -> WriteModel {
    WriteModel {
        phase: WritePhase::Link,
        collected: Seq::empty(),
        packet: Seq::empty(),
        lost: false,
    }
}

/// Whether an event answers what the half does in its phase.
pub open spec fn write_accepts(m: WriteModel, event: WriteEvent) -> bool {
    match event {
        WriteEvent::Link(_, _) => m.phase == WritePhase::Link,
        WriteEvent::Collected(drawn) => m.phase == WritePhase::Collect && m.collected.len()
            + drawn.len() <= FRAME_SAMPLES,
        WriteEvent::RingLost => m.phase == WritePhase::Collect,
        WriteEvent::Paused => m.phase == WritePhase::Pause,
        WriteEvent::Encoded(_) => m.phase == WritePhase::Encode,
        WriteEvent::LengthSent(_) => m.phase == WritePhase::SendLength,
        WriteEvent::PayloadSent(_) => m.phase == WritePhase::SendPayload,
        WriteEvent::Rested => m.phase == WritePhase::Rest,
    }
}

/// The state after an event.
pub open spec fn write_step(m: WriteModel, event: WriteEvent) -> WriteModel {
    match event {
        WriteEvent::Link(LinkStatus::Lost, _) => WriteModel {
            phase: WritePhase::Done,
            lost: true,
            ..m
        },
        WriteEvent::Link(status, stopped) => if status == LinkStatus::Closed || stopped {
            WriteModel { phase: WritePhase::Done, ..m }
        } else {
            WriteModel { phase: WritePhase::Collect, collected: Seq::empty(), ..m }
        },
        WriteEvent::Collected(drawn) => WriteModel {
            phase: WritePhase::Pause,
            collected: m.collected + drawn,
            ..m
        },
        WriteEvent::RingLost => WriteModel { phase: WritePhase::Encode, ..m },
        WriteEvent::Paused => if m.collected.len() < FRAME_SAMPLES {
            WriteModel { phase: WritePhase::Collect, ..m }
        } else {
            WriteModel { phase: WritePhase::Encode, ..m }
        },
        WriteEvent::Encoded(packet) => WriteModel { phase: WritePhase::SendLength, packet, ..m },
        WriteEvent::LengthSent(ok) => if ok {
            WriteModel { phase: WritePhase::SendPayload, ..m }
        } else {
            WriteModel { phase: WritePhase::Done, ..m }
        },
        WriteEvent::PayloadSent(ok) => if ok {
            WriteModel { phase: WritePhase::Rest, ..m }
        } else {
            WriteModel { phase: WritePhase::Done, ..m }
        },
        WriteEvent::Rested => WriteModel { phase: WritePhase::Link, ..m },
    }
}

/// The sending half of a channel.
pub struct WriteHalf {
    phase: WritePhase,
    frame: FrameBuffer,
    packet: Vec<u8>,
    lost: bool,
}

impl View for WriteHalf {
    type V = WriteModel;

    closed spec fn view(&self) -> WriteModel {
        WriteModel {
            phase: self.phase,
            collected: self.frame@,
            packet: self.packet@,
            lost: self.lost,
        }
    }
}

impl WriteHalf {
    /// The frame is kept as it should be.
    pub closed spec fn wf(&self) -> bool {
        self.frame.wf()
    }

    /// A half that has done nothing yet.
    pub fn new() -> (half: WriteHalf)
        ensures
            half.wf(),
            half@ == write_start(),
    {
        WriteHalf {
            phase: WritePhase::Link,
            frame: FrameBuffer::new(),
            packet: Vec::new(),
            lost: false,
        }
    }

    /// What to do next.
    pub fn phase(&self) -> (phase: WritePhase)
        ensures
            phase == self@.phase,
    {
        self.phase
    }

    /// Reports the connection and the stop flag. A lost connection ends the half with an
    /// error, a closed one or a stopped call ends it; otherwise a new frame begins.
    pub fn link(&mut self, status: LinkStatus, stopped: bool)
        requires
            old(self).wf(),
            write_accepts(old(self)@, WriteEvent::Link(status, stopped)),
        ensures
            final(self).wf(),
            final(self)@ == write_step(old(self)@, WriteEvent::Link(status, stopped)),
    {
        match status {
            LinkStatus::Lost => {
                self.lost = true;
                self.phase = WritePhase::Done;
            },
            LinkStatus::Closed => {
                self.phase = WritePhase::Done;
            },
            LinkStatus::Open => {
                if stopped {
                    self.phase = WritePhase::Done;
                } else {
                    self.frame = FrameBuffer::new();
                    self.phase = WritePhase::Collect;
                }
            },
        }
    }

    /// Draws from the microphone's ring what the frame still lacks, as far as the ring
    /// has it.
    pub fn collect(&mut self, ring: &mut SampleRing)
        requires
            old(self).wf(),
            old(ring).wf(),
            old(self)@.phase == WritePhase::Collect,
        ensures
            final(self).wf(),
            final(ring).wf(),
            ring_capacity(*final(ring)) == ring_capacity(*old(ring)),
            ({
                let lacking = (FRAME_SAMPLES - old(self)@.collected.len()) as nat;
                let n = shorter(lacking, old(ring)@.len()) as int;
                let event = WriteEvent::Collected(old(ring)@.take(n));
                &&& write_accepts(old(self)@, event)
                &&& final(self)@ == write_step(old(self)@, event)
                &&& final(ring)@ == old(ring)@.skip(n)
            }),
    {
        proof {
            self.frame.lemma_len();
        }
        self.frame.collect(ring);
        self.phase = WritePhase::Pause;
    }

    /// Reports that the ring cannot be used any more: the frame goes out as it is.
    pub fn ring_lost(&mut self)
        requires
            old(self).wf(),
            write_accepts(old(self)@, WriteEvent::RingLost),
        ensures
            final(self).wf(),
            final(self)@ == write_step(old(self)@, WriteEvent::RingLost),
    {
        self.phase = WritePhase::Encode;
    }

    /// Reports that the pause between two looks at the ring is over.
    pub fn paused(&mut self)
        requires
            old(self).wf(),
            write_accepts(old(self)@, WriteEvent::Paused),
        ensures
            final(self).wf(),
            final(self)@ == write_step(old(self)@, WriteEvent::Paused),
    {
        if self.frame.is_full() {
            self.phase = WritePhase::Encode;
        } else {
            self.phase = WritePhase::Collect;
        }
    }

    /// The frame for the encoder.
    pub fn frame(&self) -> (samples: &Vec<u32>)
        requires
            self.wf(),
        ensures
            samples@ == padded(self@.collected),
            samples@.len() == FRAME_SAMPLES,
    {
        self.frame.samples()
    }

    /// Reports the packet that the frame was encoded to.
    pub fn encoded(&mut self, packet: Vec<u8>)
        requires
            old(self).wf(),
            write_accepts(old(self)@, WriteEvent::Encoded(packet@)),
        ensures
            final(self).wf(),
            final(self)@ == write_step(old(self)@, WriteEvent::Encoded(packet@)),
    {
        self.packet = packet;
        self.phase = WritePhase::SendLength;
    }

    /// The bytes to write in front of the packet.
    pub fn length_bytes(&self) -> (bytes: Vec<u8>)
        ensures
            bytes@ == prefix(self@.packet.len()),
            bytes@.len() == PREFIX_LEN,
    {
        length_prefix(self.packet.len())
    }

    /// Reports whether the length prefix was written.
    pub fn length_sent(&mut self, ok: bool)
        requires
            old(self).wf(),
            write_accepts(old(self)@, WriteEvent::LengthSent(ok)),
        ensures
            final(self).wf(),
            final(self)@ == write_step(old(self)@, WriteEvent::LengthSent(ok)),
    {
        self.phase = if ok {
            WritePhase::SendPayload
        } else {
            WritePhase::Done
        };
    }

    /// The packet to write.
    pub fn payload(&self) -> (packet: &Vec<u8>)
        ensures
            packet@ == self@.packet,
    {
        &self.packet
    }

    /// Reports whether the packet was written.
    pub fn payload_sent(&mut self, ok: bool)
        requires
            old(self).wf(),
            write_accepts(old(self)@, WriteEvent::PayloadSent(ok)),
        ensures
            final(self).wf(),
            final(self)@ == write_step(old(self)@, WriteEvent::PayloadSent(ok)),
    {
        self.phase = if ok {
            WritePhase::Rest
        } else {
            WritePhase::Done
        };
    }

    /// Reports that the pause between two packets is over.
    pub fn rested(&mut self)
        requires
            old(self).wf(),
            write_accepts(old(self)@, WriteEvent::Rested),
        ensures
            final(self).wf(),
            final(self)@ == write_step(old(self)@, WriteEvent::Rested),
    {
        self.phase = WritePhase::Link;
    }

    /// How the half ended.
    pub fn result(&self) -> (result: Result<(), ChannelError>)
        requires
            self@.phase == WritePhase::Done,
        ensures
            result is Err <==> self@.lost,
            result is Err ==> result->Err_0 == ChannelError::ConnectionLost,
    {
        if self.lost {
            Err(ChannelError::ConnectionLost)
        } else {
            Ok(())
        }
    }
}

/// What the receiving half does next.
#[derive(Debug, Clone, Copy, PartialEq, Eq, Structural)]
pub enum ReadPhase {
    /// Look at the connection and at the stop flag.
    Link,
    /// Read a length prefix.
    ReadLength,
    /// Read as many bytes as the prefix announced.
    ReadPayload,
    /// Decode the packet.
    Decode,
    /// Put the decoded samples into the speaker's ring.
    Deliver,
    /// Pause before the next packet.
    Rest,
    /// Nothing: the half has ended.
    Done,
}

/// The state of the receiving half.
#[verifier::ext_equal]
pub struct ReadModel {
    pub phase: ReadPhase,
    /// The payload length last announced.
    pub expected: usize,
    /// The packet last read.
    pub packet: Seq<u8>,
    /// The samples last decoded.
    pub samples: Seq<u32>,
    /// Whether the half ended because the connection was lost.
    pub lost: bool,
}

/// What can be reported to the receiving half.
pub enum ReadEvent {
    /// The connection, and whether the call has been stopped.
    Link(LinkStatus, bool),
    /// These bytes were read where a length prefix stands, or none could be.
    LengthRead(Option<Seq<u8>>),
    /// This packet was read, or none could be.
    PayloadRead(Option<Seq<u8>>),
    /// The packet was decoded to these samples, with this level in decibels.
    Decoded(Seq<u32>, u32),
    /// The samples were put into the ring.
    Delivered,
    /// The ring cannot be used any more.
    RingLost,
    /// The pause between two packets is over.
    Rested,
}

/// The receiving half before anything was reported to it.
pub open spec fn read_start() -> ReadModel {
    ReadModel {
        phase: ReadPhase::Link,
        expected: 0,
        packet: Seq::empty(),
        samples: Seq::empty(),
        lost: false,
    }
}

/// Whether an event answers what the half does in its phase. An announced length is one
/// that a buffer can have.
pub open spec fn read_accepts(m: ReadModel, event: ReadEvent) -> bool {
    match event {
        ReadEvent::Link(_, _) => m.phase == ReadPhase::Link,
        ReadEvent::LengthRead(None) => m.phase == ReadPhase::ReadLength,
        ReadEvent::LengthRead(Some(bytes)) => m.phase == ReadPhase::ReadLength && bytes.len()
            == PREFIX_LEN && announced_len(bytes) <= isize::MAX,
        ReadEvent::PayloadRead(None) => m.phase == ReadPhase::ReadPayload,
        ReadEvent::PayloadRead(Some(packet)) => m.phase == ReadPhase::ReadPayload && packet.len()
            == m.expected,
        ReadEvent::Decoded(_, _) => m.phase == ReadPhase::Decode,
        ReadEvent::Delivered => m.phase == ReadPhase::Deliver,
        ReadEvent::RingLost => m.phase == ReadPhase::Deliver,
        ReadEvent::Rested => m.phase == ReadPhase::Rest,
    }
}

/// The state after an event.
pub open spec fn read_step(m: ReadModel, event: ReadEvent) -> ReadModel {
    match event {
        ReadEvent::Link(LinkStatus::Lost, _) => ReadModel {
            phase: ReadPhase::Done,
            lost: true,
            ..m
        },
        ReadEvent::Link(status, stopped) => if status == LinkStatus::Closed || stopped {
            ReadModel { phase: ReadPhase::Done, ..m }
        } else {
            ReadModel { phase: ReadPhase::ReadLength, ..m }
        },
        ReadEvent::LengthRead(None) => ReadModel { phase: ReadPhase::Done, ..m },
        ReadEvent::LengthRead(Some(bytes)) => ReadModel {
            phase: ReadPhase::ReadPayload,
            expected: announced_len(bytes),
            ..m
        },
        ReadEvent::PayloadRead(None) => ReadModel { phase: ReadPhase::Done, ..m },
        ReadEvent::PayloadRead(Some(packet)) => ReadModel { phase: ReadPhase::Decode, packet, ..m },
        ReadEvent::Decoded(samples, _) => ReadModel { phase: ReadPhase::Deliver, samples, ..m },
        ReadEvent::Delivered => ReadModel { phase: ReadPhase::Rest, ..m },
        ReadEvent::RingLost => ReadModel { phase: ReadPhase::Done, ..m },
        ReadEvent::Rested => ReadModel { phase: ReadPhase::Link, ..m },
    }
}

/// What the window is told at an event: the level of what was decoded.
pub open spec fn read_tells(event: ReadEvent) -> Option<AudioUpdate> {
    match event {
        ReadEvent::Decoded(_, level) => Some(AudioUpdate::DecibelReading(level)),
        _ => None,
    }
}

/// What was read, as a sequence.
pub open spec fn bytes_read(read: Option<Vec<u8>>) -> Option<Seq<u8>> {
    match read {
        Some(bytes) => Some(bytes@),
        None => None,
    }
}

/// The receiving half of a channel.
pub struct ReadHalf {
    phase: ReadPhase,
    expected: usize,
    packet: Vec<u8>,
    samples: Vec<u32>,
    lost: bool,
}

impl View for ReadHalf {
    type V = ReadModel;

    closed spec fn view(&self) -> ReadModel {
        ReadModel {
            phase: self.phase,
            expected: self.expected,
            packet: self.packet@,
            samples: self.samples@,
            lost: self.lost,
        }
    }
}

impl ReadHalf {
    /// A half that has done nothing yet.
    pub fn new() -> (half: ReadHalf)
        ensures
            half@ == read_start(),
    {
        ReadHalf {
            phase: ReadPhase::Link,
            expected: 0,
            packet: Vec::new(),
            samples: Vec::new(),
            lost: false,
        }
    }

    /// What to do next.
    pub fn phase(&self) -> (phase: ReadPhase)
        ensures
            phase == self@.phase,
    {
        self.phase
    }

    /// Reports the connection and the stop flag. A lost connection ends the half with an
    /// error, a closed one or a stopped call ends it; otherwise a packet is awaited.
    pub fn link(&mut self, status: LinkStatus, stopped: bool)
        requires
            read_accepts(old(self)@, ReadEvent::Link(status, stopped)),
        ensures
            final(self)@ == read_step(old(self)@, ReadEvent::Link(status, stopped)),
    {
        match status {
            LinkStatus::Lost => {
                self.lost = true;
                self.phase = ReadPhase::Done;
            },
            LinkStatus::Closed => {
                self.phase = ReadPhase::Done;
            },
            LinkStatus::Open => {
                if stopped {
                    self.phase = ReadPhase::Done;
                } else {
                    self.phase = ReadPhase::ReadLength;
                }
            },
        }
    }

    /// Reports the bytes read where a length prefix stands, or that none could be read.
    pub fn length_read(&mut self, read: Option<Vec<u8>>)
        requires
            read_accepts(old(self)@, ReadEvent::LengthRead(bytes_read(read))),
        ensures
            final(self)@ == read_step(old(self)@, ReadEvent::LengthRead(bytes_read(read))),
    {
        match read {
            None => {
                self.phase = ReadPhase::Done;
            },
            Some(bytes) => {
                self.expected = prefix_value(bytes.as_slice()) as usize;
                self.phase = ReadPhase::ReadPayload;
            },
        }
    }

    /// How many bytes to read for the packet.
    pub fn expected(&self) -> (len: usize)
        ensures
            len == self@.expected,
    {
        self.expected
    }

    /// Reports the packet that was read, or that none could be read.
    pub fn payload_read(&mut self, read: Option<Vec<u8>>)
        requires
            read_accepts(old(self)@, ReadEvent::PayloadRead(bytes_read(read))),
        ensures
            final(self)@ == read_step(old(self)@, ReadEvent::PayloadRead(bytes_read(read))),
    {
        match read {
            None => {
                self.phase = ReadPhase::Done;
            },
            Some(packet) => {
                self.packet = packet;
                self.phase = ReadPhase::Decode;
            },
        }
    }

    /// The packet for the decoder.
    pub fn packet(&self) -> (packet: &Vec<u8>)
        ensures
            packet@ == self@.packet,
    {
        &self.packet
    }

    /// Reports the samples that the packet was decoded to and their level in decibels, and
    /// returns what the window is to be told.
    pub fn decoded(&mut self, samples: Vec<u32>, level: u32) -> (update: AudioUpdate)
        requires
            read_accepts(old(self)@, ReadEvent::Decoded(samples@, level)),
        ensures
            final(self)@ == read_step(old(self)@, ReadEvent::Decoded(samples@, level)),
            Some(update) == read_tells(ReadEvent::Decoded(samples@, level)),
    {
        self.samples = samples;
        self.phase = ReadPhase::Deliver;
        AudioUpdate::DecibelReading(level)
    }

    /// Puts the decoded samples into the speaker's ring. What does not fit is dropped.
    pub fn deliver(&mut self, ring: &mut SampleRing)
        requires
            read_accepts(old(self)@, ReadEvent::Delivered),
            old(ring).wf(),
        ensures
            final(self)@ == read_step(old(self)@, ReadEvent::Delivered),
            final(ring).wf(),
            final(ring)@ == after_push(old(ring)@, ring_capacity(*old(ring)), old(self)@.samples),
            ring_capacity(*final(ring)) == ring_capacity(*old(ring)),
    {
        ring.deliver(self.samples.as_slice());
        self.phase = ReadPhase::Rest;
    }

    /// Reports that the ring cannot be used any more.
    pub fn ring_lost(&mut self)
        requires
            read_accepts(old(self)@, ReadEvent::RingLost),
        ensures
            final(self)@ == read_step(old(self)@, ReadEvent::RingLost),
    {
        self.phase = ReadPhase::Done;
    }

    /// Reports that the pause between two packets is over.
    pub fn rested(&mut self)
        requires
            read_accepts(old(self)@, ReadEvent::Rested),
        ensures
            final(self)@ == read_step(old(self)@, ReadEvent::Rested),
    {
        self.phase = ReadPhase::Link;
    }

    /// How the half ended.
    pub fn result(&self) -> (result: Result<(), ChannelError>)
        requires
            self@.phase == ReadPhase::Done,
        ensures
            result is Err <==> self@.lost,
            result is Err ==> result->Err_0 == ChannelError::ConnectionLost,
    {
        if self.lost {
            Err(ChannelError::ConnectionLost)
        } else {
            Ok(())
        }
    }
}

/// An audio channel over a connection.
pub struct AudioChannel {
    pub encoding: AudioEncoding,
    pub write: WriteHalf,
    pub read: ReadHalf,
}

/// How an audio channel ends: what the connection is closed with, and the result of the
/// half that ended first.
pub struct ChannelEnd {
    pub code: u32,
    pub reason: String,
    pub result: Result<(), ChannelError>,
}

/// Starts an audio channel that encodes as the settings say.
pub fn start_audio_channel(settings: &ConnectionSettings) -> (channel: AudioChannel)
    ensures
        channel.encoding == settings.encoding,
        channel.write.wf(),
        channel.write@ == write_start(),
        channel.read@ == read_start(),
{
    AudioChannel { encoding: settings.encoding, write: WriteHalf::new(), read: ReadHalf::new() }
}

/// Ends an audio channel as soon as one half has ended or broken off, with that half's result.
pub fn end_audio_channel(first: Result<(), ChannelError>) -> (end: ChannelEnd)
    ensures
        end.code == CLOSE_CODE,
        end.reason@ == "closed"@,
        end.result == first,
{
    ChannelEnd { code: CLOSE_CODE, reason: "closed".to_string(), result: first }
}

} // verus!
