//! The life of a call: its devices and rings, how it finds its peer, what it tells the
//! window, and what the window keeps of it.

use std::collections::VecDeque;
use vstd::prelude::*;

use crate::ring::{ring_capacity, silence, SampleRing};
use crate::settings::ConnectionSettings;

verus! {

/// The channels that a call records and plays.
pub const CALL_CHANNELS: u16 = 1;

/// The rate, in samples per second, that a call records and plays at.
pub const CALL_SAMPLE_RATE: u32 = 48_000;

/// The frames of the latency at the lower end of its slider, at the rate of a call.
pub const MIN_LATENCY_FRAMES: usize = 480;

/// The frames of the latency at the upper end of its slider, at the rate of a call.
pub const MAX_LATENCY_FRAMES: usize = 144_000;

/// How long, in seconds, a server waits for a peer.
pub const ACCEPT_SECONDS: u64 = 100;

/// How long, in seconds, a server gives a peer to complete the connection.
pub const HANDSHAKE_SECONDS: u64 = 1;

/// After how many silent seconds a connection is given up.
pub const IDLE_SECONDS: u64 = 1;

/// The pause, in milliseconds, between two looks of a running call at its window.
pub const SUPERVISION_MILLIS: u64 = 100;

/// The right end of the level plot.
pub const PLOT_WIDTH: usize = 80;

/// The number of level readings that the window keeps of a call.
pub const KEPT_READINGS: usize = 81;

/// How far a call has come.
#[derive(Debug, Clone, Copy, PartialEq, Eq, Structural)]
pub enum ServerState {
    Init,
    InitAudioSystem,
    WaitingForPeer,
    CreatingChannel,
    Active,
}

/// What the window tells a call.
#[derive(Debug, Clone, Copy, PartialEq, Eq, Structural)]
pub enum UiUpdate {
    Kill,
}

/// What a call tells the window. A decibel reading is the bit pattern of the level.
#[derive(Debug, Clone, Copy, PartialEq, Eq, Structural)]
pub enum AudioUpdate {
    Dead,
    ServerState(ServerState),
    DecibelReading(u32),
}

/// Why the devices of a call could not be told.
#[derive(Debug, Clone, Copy, PartialEq, Eq, Structural)]
pub enum StartError {
    InputDeviceMissing,
    OutputDeviceMissing,
    /// There is no list of the output devices.
    OutputDevicesUnlisted,
    /// The search came to a device, at this place in its list, that would not tell its name.
    DeviceNameless(usize),
}

impl StartError {
    /// The error in words.
    pub fn message(&self) -> (text: String)
        ensures
            text@ == match *self {
                StartError::InputDeviceMissing => "can't find input device"@,
                StartError::OutputDeviceMissing => "can't find output device"@,
                StartError::OutputDevicesUnlisted => "can't list output devices"@,
                StartError::DeviceNameless(_) => "can't read a device name"@,
            },
    {
        match self {
            StartError::InputDeviceMissing => "can't find input device".to_string(),
            StartError::OutputDeviceMissing => "can't find output device".to_string(),
            StartError::OutputDevicesUnlisted => "can't list output devices".to_string(),
            StartError::DeviceNameless(_) => "can't read a device name".to_string(),
        }
    }
}

/// Whether a search for a name goes past a device.
pub open spec fn passed_over(name: Option<String>, wanted: Seq<char>) -> bool {
    name is Some && name->Some_0@ != wanted
}

/// Whether `device` is the answer of a search for a name: the first device of that name,
/// an error at a device before it that has no name, or `missing`.
pub open spec fn search_answer(
    names: Seq<Option<String>>,
    wanted: Seq<char>,
    missing: StartError,
    device: Result<usize, StartError>,
) -> bool {
    match device {
        Ok(i) => {
            &&& i < names.len()
            &&& names[i as int] is Some
            &&& names[i as int]->Some_0@ == wanted
            &&& forall|j: int| 0 <= j < i ==> passed_over(#[trigger] names[j], wanted)
        },
        Err(StartError::DeviceNameless(i)) => {
            &&& i < names.len()
            &&& names[i as int] is None
            &&& forall|j: int| 0 <= j < i ==> passed_over(#[trigger] names[j], wanted)
        },
        Err(error) => {
            &&& error == missing
            &&& forall|j: int| 0 <= j < names.len() ==> passed_over(#[trigger] names[j], wanted)
        },
    }
}

/// Searches a list of device names, in order, for the wanted one.
fn find_device(names: &Vec<Option<String>>, wanted: &String, missing: StartError) -> (device:
    Result<usize, StartError>)
    requires
        missing !is DeviceNameless,
    ensures
        search_answer(names@, wanted@, missing, device),
{
    let mut i: usize = 0;
    while i < names.len()
        invariant
            i <= names@.len(),
            forall|j: int| 0 <= j < i ==> passed_over(#[trigger] names@[j], wanted@),
        decreases names@.len() - i,
    {
        match &names[i] {
            None => {
                return Err(StartError::DeviceNameless(i));
            },
            Some(name) => {
                if *name == *wanted {
                    return Ok(i);
                }
            },
        }
        i = i + 1;
    }
    Err(missing)
}

/// The place of the input device that the settings name in a list of device names.
pub fn find_input_device(names: &Vec<Option<String>>, settings: &ConnectionSettings) -> (device:
    Result<usize, StartError>)
    ensures
        search_answer(
            names@,
            settings.input_device_name@,
            StartError::InputDeviceMissing,
            device,
        ),
{
    find_device(names, &settings.input_device_name, StartError::InputDeviceMissing)
}

/// The place of the output device that the settings name in a list of device names.
pub fn find_output_device(names: &Vec<Option<String>>, settings: &ConnectionSettings) -> (device:
    Result<usize, StartError>)
    ensures
        search_answer(
            names@,
            settings.output_device_name@,
            StartError::OutputDeviceMissing,
            device,
        ),
{
    find_device(names, &settings.output_device_name, StartError::OutputDeviceMissing)
}

/// Whether `devices` is what the searches for the two devices of a call come to: an error of
/// the search for the input device, whatever the output devices are; where the input device
/// was found, an error of the search for the output device, of which there may be no list; or
/// the places of both.
pub open spec fn devices_answer(
    inputs: Seq<Option<String>>,
    outputs: Option<Seq<Option<String>>>,
    settings: ConnectionSettings,
    devices: Result<(usize, usize), StartError>,
) -> bool {
    ||| devices is Err && search_answer(
        inputs,
        settings.input_device_name@,
        StartError::InputDeviceMissing,
        Err(devices->Err_0),
    )
    ||| exists|i: usize|
        {
            &&& #[trigger] search_answer(
                inputs,
                settings.input_device_name@,
                StartError::InputDeviceMissing,
                Ok(i),
            )
            &&& match (outputs, devices) {
                (None, _) => devices == Err::<(usize, usize), StartError>(
                    StartError::OutputDevicesUnlisted,
                ),
                (Some(names), Err(error)) => search_answer(
                    names,
                    settings.output_device_name@,
                    StartError::OutputDeviceMissing,
                    Err(error),
                ),
                (Some(names), Ok(places)) => places.0 == i && search_answer(
                    names,
                    settings.output_device_name@,
                    StartError::OutputDeviceMissing,
                    Ok(places.1),
                ),
            }
        }
}

/// A list of device names, where there is one.
pub open spec fn names_listed(names: Option<Vec<Option<String>>>) -> Option<Seq<Option<String>>> {
    match names {
        Some(list) => Some(list@),
        None => None,
    }
}

/// The places of the input and of the output device that the settings name. The input device
/// is searched for first, and the output device only where that was found. There may be no
/// list of the output devices.
pub fn find_devices(
    inputs: &Vec<Option<String>>,
    outputs: &Option<Vec<Option<String>>>,
    settings: &ConnectionSettings,
) -> (devices: Result<(usize, usize), StartError>)
    ensures
        devices_answer(inputs@, names_listed(*outputs), *settings, devices),
{
    match find_input_device(inputs, settings) {
        Err(error) => Err(error),
        Ok(input) => match outputs {
            None => Err(StartError::OutputDevicesUnlisted),
            Some(names) => match find_output_device(names, settings) {
                Err(error) => Err(error),
                Ok(output) => Ok((input, output)),
            },
        },
    }
}

/// The place that an answer stands for.
spec fn search_end(names: Seq<Option<String>>, device: Result<usize, StartError>) -> int {
    match device {
        Ok(i) => i as int,
        Err(StartError::DeviceNameless(i)) => i as int,
        Err(_) => names.len() as int,
    }
}

/// A search has one answer.
pub proof fn law_search_is_decided(
    names: Seq<Option<String>>,
    wanted: Seq<char>,
    missing: StartError,
    a: Result<usize, StartError>,
    b: Result<usize, StartError>,
)
    requires
        missing !is DeviceNameless,
        search_answer(names, wanted, missing, a),
        search_answer(names, wanted, missing, b),
    ensures
        a == b,
{
    let i = search_end(names, a);
    let j = search_end(names, b);
    if i < j {
        assert(passed_over(names[i], wanted));
    }
    if j < i {
        assert(passed_over(names[j], wanted));
    }
}

/// A device that is listed under the wanted name is found, or another of that name before it,
/// unless the search comes to a device without a name first.
pub proof fn law_a_listed_device_is_found(
    names: Seq<Option<String>>,
    wanted: Seq<char>,
    missing: StartError,
    device: Result<usize, StartError>,
    i: int,
)
    requires
        missing !is DeviceNameless,
        search_answer(names, wanted, missing, device),
        0 <= i < names.len(),
        names[i] is Some,
        names[i]->Some_0@ == wanted,
        forall|j: int| 0 <= j < i ==> #[trigger] names[j] is Some,
    ensures
        device is Ok,
        device->Ok_0 <= i,
{
    if search_end(names, device) > i {
        assert(passed_over(names[i], wanted));
    }
}

/// The searches for both devices have one answer.
pub proof fn law_devices_are_decided(
    inputs: Seq<Option<String>>,
    outputs: Option<Seq<Option<String>>>,
    settings: ConnectionSettings,
    a: Result<(usize, usize), StartError>,
    b: Result<(usize, usize), StartError>,
)
    requires
        devices_answer(inputs, outputs, settings, a),
        devices_answer(inputs, outputs, settings, b),
    ensures
        a == b,
{
    let input = choose|input: Result<usize, StartError>|
        search_answer(
            inputs,
            settings.input_device_name@,
            StartError::InputDeviceMissing,
            input,
        );
    assert forall|other: Result<usize, StartError>|
        search_answer(
            inputs,
            settings.input_device_name@,
            StartError::InputDeviceMissing,
            other,
        ) implies other == input by {
        law_search_is_decided(
            inputs,
            settings.input_device_name@,
            StartError::InputDeviceMissing,
            other,
            input,
        );
    }
    if let (Ok(_), Some(names)) = (input, outputs) {
        let output_a: Result<usize, StartError> = match a {
            Ok(places) => Ok(places.1),
            Err(error) => Err(error),
        };
        let output_b: Result<usize, StartError> = match b {
            Ok(places) => Ok(places.1),
            Err(error) => Err(error),
        };
        law_search_is_decided(
            names,
            settings.output_device_name@,
            StartError::OutputDeviceMissing,
            output_a,
            output_b,
        );
    }
}

/// An error of the search for the input device is reported whatever the output devices are;
/// only where the input device was found does the output device decide.
pub proof fn law_the_input_error_wins(
    inputs: Seq<Option<String>>,
    outputs: Option<Seq<Option<String>>>,
    settings: ConnectionSettings,
    input: Result<usize, StartError>,
    devices: Result<(usize, usize), StartError>,
)
    requires
        search_answer(
            inputs,
            settings.input_device_name@,
            StartError::InputDeviceMissing,
            input,
        ),
        devices_answer(inputs, outputs, settings, devices),
    ensures
        input is Err ==> devices == Err::<(usize, usize), StartError>(input->Err_0),
        input is Ok && outputs is None ==> devices == Err::<(usize, usize), StartError>(
            StartError::OutputDevicesUnlisted,
        ),
        input is Ok && outputs is Some ==> search_answer(
            outputs->Some_0,
            settings.output_device_name@,
            StartError::OutputDeviceMissing,
            match devices {
                Ok(places) => Ok(places.1),
                Err(error) => Err(error),
            },
        ),
        devices is Ok ==> input == Ok::<usize, StartError>(devices->Ok_0.0),
{
    assert forall|other: Result<usize, StartError>|
        search_answer(
            inputs,
            settings.input_device_name@,
            StartError::InputDeviceMissing,
            other,
        ) implies other == input by {
        law_search_is_decided(
            inputs,
            settings.input_device_name@,
            StartError::InputDeviceMissing,
            other,
            input,
        );
    }
}

/// How large the blocks are that a sound device hands over.
#[derive(Debug, Clone, Copy, PartialEq, Eq, Structural)]
pub enum BlockSize {
    Default,
    Fixed(u32),
}

/// How a sound device is run.
#[derive(Debug, Clone, Copy, PartialEq, Eq, Structural)]
pub struct StreamFormat {
    pub channels: u16,
    pub sample_rate: u32,
    pub block_size: BlockSize,
}

/// The format of a call on a device: mono, at the call's rate, in the device's own blocks.
pub fn call_format(default: StreamFormat) -> (format: StreamFormat)
    ensures
        format.channels == CALL_CHANNELS,
        format.sample_rate == CALL_SAMPLE_RATE,
        format.block_size == default.block_size,
{
    StreamFormat {
        channels: CALL_CHANNELS,
        sample_rate: CALL_SAMPLE_RATE,
        block_size: default.block_size,
    }
}

/// The samples of a latency of some frames.
pub open spec fn latency_samples(format: StreamFormat, latency_frames: usize) -> nat {
    latency_frames as nat * format.channels as nat
}

/// How many samples each ring of a call holds: twice the latency.
pub open spec fn ring_room(format: StreamFormat, latency_frames: usize) -> nat {
    2 * latency_samples(format, latency_frames)
}

/// The sound side of a call.
pub struct CallAudio {
    /// What the microphone recorded and the network has not sent.
    pub capture: SampleRing,
    /// What the network received and the speaker has not played.
    pub playback: SampleRing,
}

/// Whether a call can have rings for a latency: it is not zero, and twice its samples fit in
/// memory.
pub fn latency_fits(format: StreamFormat, latency_frames: usize) -> (fits: bool)
    ensures
        fits == (0 < latency_samples(format, latency_frames) && latency_samples(
            format,
            latency_frames,
        ) * 8 <= isize::MAX),
{
    match latency_frames.checked_mul(format.channels as usize) {
        Some(samples) => 0 < samples && samples <= isize::MAX as usize / 8,
        None => false,
    }
}

/// Makes the rings of a call: both hold up to twice the latency, and what is played
/// starts with a latency of silence.
pub fn open_audio(format: StreamFormat, latency_frames: usize) -> (audio: CallAudio)
    requires
        0 < latency_samples(format, latency_frames),
        latency_samples(format, latency_frames) * 8 <= isize::MAX,
    ensures
        audio.capture.wf(),
        audio.capture@ == Seq::<u32>::empty(),
        ring_capacity(audio.capture) == ring_room(format, latency_frames),
        audio.playback.wf(),
        audio.playback@ == silence(latency_samples(format, latency_frames)),
        ring_capacity(audio.playback) == ring_room(format, latency_frames),
{
    let samples: usize = latency_frames * format.channels as usize;
    CallAudio { capture: SampleRing::with_latency(samples), playback: SampleRing::delayed(samples) }
}

/// A higher latency is more reliable: with more frames the rings of a call have as much room
/// or more, and as much silence or more is played before what the peer sent. Where the higher
/// latency can have rings, a lower one can have them too, unless it is zero.
pub proof fn law_rings_grow_with_latency(format: StreamFormat, a: usize, b: usize)
    requires
        a <= b,
    ensures
        latency_samples(format, a) <= latency_samples(format, b),
        ring_room(format, a) <= ring_room(format, b),
        silence(latency_samples(format, a)).len() <= silence(latency_samples(format, b)).len(),
        latency_samples(format, b) * 8 <= isize::MAX ==> latency_samples(format, a) * 8
            <= isize::MAX,
        0 < a && 0 < format.channels ==> 0 < latency_samples(format, a),
{
    let channels = format.channels as nat;
    assert(a as nat * channels <= b as nat * channels) by (nonlinear_arith)
        requires
            a <= b,
    ;
    if 0 < a && 0 < format.channels {
        assert(0 < a as nat * channels) by (nonlinear_arith)
            requires
                0 < a,
                0 < channels,
        ;
    }
}

/// In the format of a call, a latency between the two ends of its slider, counted in frames,
/// can have rings, and as many silent samples are played first as it has frames.
pub proof fn law_slider_latency_has_rings(format: StreamFormat, latency_frames: usize)
    requires
        format.channels == CALL_CHANNELS,
        MIN_LATENCY_FRAMES <= latency_frames <= MAX_LATENCY_FRAMES,
    ensures
        silence(latency_samples(format, latency_frames)).len() == latency_frames,
        0 < latency_samples(format, latency_frames),
        latency_samples(format, latency_frames) * 8 <= isize::MAX,
{
    assert(latency_frames as nat * 1 == latency_frames);
}

/// How far a call has come on its way to its peer and back.
#[derive(Debug, Clone, Copy, PartialEq, Eq, Structural)]
pub enum CallPhase {
    /// Open the sound devices and the network endpoint.
    InitAudio,
    /// A server waits for a peer, a client connects to one.
    Waiting,
    /// A server completes the connection to its peer.
    Creating,
    /// A server opens the channel, a client waits for it.
    Joining,
    /// The channel runs.
    Active,
    /// A server has waited too long for its peer.
    GaveUp,
    /// The channel has ended.
    Ended,
}

/// What can happen to a call on that way.
#[derive(Debug, Clone, Copy, PartialEq, Eq, Structural)]
pub enum CallEvent {
    EndpointReady,
    PeerArrived,
    Connected,
    TimedOut,
    ChannelOpen,
    /// The channel has ended without an error.
    ChannelEnded,
}

/// The phase after an event, if the event can happen in a phase. Only a server sees its
/// peer arrive before the connection is complete, and only a server is held to a time.
pub open spec fn call_next(server: bool, phase: CallPhase, event: CallEvent) -> Option<CallPhase> {
    match (phase, event) {
        (CallPhase::InitAudio, CallEvent::EndpointReady) => Some(CallPhase::Waiting),
        (CallPhase::Waiting, CallEvent::PeerArrived) => if server {
            Some(CallPhase::Creating)
        } else {
            None
        },
        (CallPhase::Waiting, CallEvent::TimedOut) => if server {
            Some(CallPhase::GaveUp)
        } else {
            None
        },
        (CallPhase::Waiting, CallEvent::Connected) => if server {
            None
        } else {
            Some(CallPhase::Joining)
        },
        (CallPhase::Creating, CallEvent::Connected) => Some(CallPhase::Joining),
        (CallPhase::Creating, CallEvent::TimedOut) => Some(CallPhase::GaveUp),
        (CallPhase::Joining, CallEvent::ChannelOpen) => Some(CallPhase::Active),
        (CallPhase::Active, CallEvent::ChannelEnded) => Some(CallPhase::Ended),
        _ => None,
    }
}

/// The state that the window is told of at an event.
pub open spec fn call_announces(server: bool, event: CallEvent) -> Option<ServerState> {
    match event {
        CallEvent::EndpointReady => Some(ServerState::WaitingForPeer),
        CallEvent::PeerArrived => Some(ServerState::CreatingChannel),
        CallEvent::Connected => if server {
            None
        } else {
            Some(ServerState::CreatingChannel)
        },
        CallEvent::ChannelOpen => Some(ServerState::Active),
        _ => None,
    }
}

/// What the window is told at an event.
pub open spec fn call_tells(server: bool, event: CallEvent) -> Option<AudioUpdate> {
    match call_announces(server, event) {
        Some(state) => Some(AudioUpdate::ServerState(state)),
        None => None,
    }
}

/// A call on its way to its peer and back.
#[derive(Debug, Clone, Copy, PartialEq, Eq, Structural)]
pub struct CallProgress {
    pub server: bool,
    pub phase: CallPhase,
}

/// Starts a call, and returns what the window is told first.
pub fn start(server: bool) -> (started: (CallProgress, AudioUpdate))
    ensures
        started.0 == (CallProgress { server, phase: CallPhase::InitAudio }),
        started.1 == AudioUpdate::ServerState(ServerState::InitAudioSystem),
{
    (
        CallProgress { server, phase: CallPhase::InitAudio },
        AudioUpdate::ServerState(ServerState::InitAudioSystem),
    )
}

impl CallProgress {
    /// Takes in an event, and returns what the window is to be told.
    pub fn on(&mut self, event: CallEvent) -> (update: Option<AudioUpdate>)
        requires
            call_next(old(self).server, old(self).phase, event) is Some,
        ensures
            final(self).server == old(self).server,
            Some(final(self).phase) == call_next(old(self).server, old(self).phase, event),
            update == call_tells(old(self).server, event),
    {
        match event {
            CallEvent::EndpointReady => {
                self.phase = CallPhase::Waiting;
                Some(AudioUpdate::ServerState(ServerState::WaitingForPeer))
            },
            CallEvent::PeerArrived => {
                self.phase = CallPhase::Creating;
                Some(AudioUpdate::ServerState(ServerState::CreatingChannel))
            },
            CallEvent::Connected => {
                self.phase = CallPhase::Joining;
                if self.server {
                    None
                } else {
                    Some(AudioUpdate::ServerState(ServerState::CreatingChannel))
                }
            },
            CallEvent::TimedOut => {
                self.phase = CallPhase::GaveUp;
                None
            },
            CallEvent::ChannelOpen => {
                self.phase = CallPhase::Active;
                Some(AudioUpdate::ServerState(ServerState::Active))
            },
            CallEvent::ChannelEnded => {
                self.phase = CallPhase::Ended;
                None
            },
        }
    }

    /// How many seconds the phase may last, if it is held to a time.
    pub fn time_limit(&self) -> (seconds: Option<u64>)
        ensures
            seconds == match (self.server, self.phase) {
                (true, CallPhase::Waiting) => Some(ACCEPT_SECONDS),
                (true, CallPhase::Creating) => Some(HANDSHAKE_SECONDS),
                _ => None,
            },
    {
        if !self.server {
            return None;
        }
        match self.phase {
            CallPhase::Waiting => Some(ACCEPT_SECONDS),
            CallPhase::Creating => Some(HANDSHAKE_SECONDS),
            _ => None,
        }
    }

    /// Whether the rest of the call is to be told to stop: when the channel has ended, but
    /// not when the server has given up waiting.
    pub fn raises_stop(&self) -> (stop: bool)
        ensures
            stop == (self.phase == CallPhase::Ended),
    {
        match self.phase {
            CallPhase::Ended => true,
            _ => false,
        }
    }
}

/// A call after some events, if each could happen.
pub open spec fn call_run(server: bool, events: Seq<CallEvent>) -> Option<CallPhase>
    decreases events.len(),
{
    if events.len() == 0 {
        Some(CallPhase::InitAudio)
    } else {
        match call_run(server, events.drop_last()) {
            None => None,
            Some(phase) => call_next(server, phase, events.last()),
        }
    }
}

/// All states that the window is told of over some events.
pub open spec fn announcements(server: bool, events: Seq<CallEvent>) -> Seq<ServerState>
    decreases events.len(),
{
    if events.len() == 0 {
        seq![ServerState::InitAudioSystem]
    } else {
        let earlier = announcements(server, events.drop_last());
        match call_announces(server, events.last()) {
            Some(state) => earlier.push(state),
            None => earlier,
        }
    }
}

/// The states of a call, in order.
pub open spec fn state_order() -> Seq<ServerState> {
    seq![
        ServerState::InitAudioSystem,
        ServerState::WaitingForPeer,
        ServerState::CreatingChannel,
        ServerState::Active,
    ]
}

/// How many states have been announced in a phase, unless the call was given up.
spec fn announced_by(phase: CallPhase) -> int {
    match phase {
        CallPhase::InitAudio => 1,
        CallPhase::Waiting => 2,
        CallPhase::Creating => 3,
        CallPhase::Joining => 3,
        _ => 4,
    }
}

/// Whether it serves or connects, a call announces its states in one order, each at most
/// once and none left out. A call whose channel ran has announced all of them.
pub proof fn law_states_come_in_order(server: bool, events: Seq<CallEvent>)
    requires
        call_run(server, events) is Some,
    ensures
        announcements(server, events).is_prefix_of(state_order()),
        call_run(server, events) == Some(CallPhase::Active) || call_run(server, events) == Some(
            CallPhase::Ended,
        ) ==> announcements(server, events) == state_order(),
{
    lemma_announced(server, events);
}

proof fn lemma_announced(server: bool, events: Seq<CallEvent>)
    requires
        call_run(server, events) is Some,
    ensures
        ({
            let phase = call_run(server, events)->Some_0;
            let told = announcements(server, events);
            &&& phase == CallPhase::GaveUp ==> server && (told =~= state_order().take(2) || told
                =~= state_order().take(3))
            &&& phase != CallPhase::GaveUp ==> told =~= state_order().take(
                announced_by(phase),
            )
            &&& phase == CallPhase::Creating ==> server
        }),
    decreases events.len(),
{
    if events.len() > 0 {
        lemma_announced(server, events.drop_last());
    }
}

/// A client is never given up: only a server's call can end without its channel having
/// run.
pub proof fn law_only_servers_give_up(server: bool, events: Seq<CallEvent>)
    requires
        call_run(server, events) == Some(CallPhase::GaveUp),
    ensures
        server,
{
    lemma_announced(server, events);
}

/// What the keeper of a running call does next.
#[derive(Debug, Clone, Copy, PartialEq, Eq, Structural)]
pub enum KeeperPhase {
    /// Look at the stop flag.
    CheckStop,
    /// See whether the window has a message.
    PollWindow,
    /// Pause before looking at the stop flag again.
    Pause,
    /// Close the sound devices, raise the stop flag and tell the window.
    ShutDown,
    /// Nothing: the call is over.
    Over,
}

/// What can be reported to the keeper.
#[derive(Debug, Clone, Copy, PartialEq, Eq, Structural)]
pub enum KeeperEvent {
    /// Whether the stop flag was raised.
    StopChecked(bool),
    /// The window's message, if there was one.
    WindowPolled(Option<UiUpdate>),
    Paused,
    /// The sound devices are closed and the stop flag is raised.
    DevicesClosed,
}

/// Whether an event answers what the keeper does in a phase.
pub open spec fn keeper_accepts(phase: KeeperPhase, event: KeeperEvent) -> bool {
    match event {
        KeeperEvent::StopChecked(_) => phase == KeeperPhase::CheckStop,
        KeeperEvent::WindowPolled(_) => phase == KeeperPhase::PollWindow,
        KeeperEvent::Paused => phase == KeeperPhase::Pause,
        KeeperEvent::DevicesClosed => phase == KeeperPhase::ShutDown,
    }
}

/// The phase after an event: a raised stop flag or a kill from the window shuts the call
/// down.
pub open spec fn keeper_next(event: KeeperEvent) -> KeeperPhase {
    match event {
        KeeperEvent::StopChecked(stopped) => if stopped {
            KeeperPhase::ShutDown
        } else {
            KeeperPhase::PollWindow
        },
        KeeperEvent::WindowPolled(Some(UiUpdate::Kill)) => KeeperPhase::ShutDown,
        KeeperEvent::WindowPolled(None) => KeeperPhase::Pause,
        KeeperEvent::Paused => KeeperPhase::CheckStop,
        KeeperEvent::DevicesClosed => KeeperPhase::Over,
    }
}

/// What the window is told at an event: that the call is dead, once its devices are closed.
pub open spec fn keeper_tells(event: KeeperEvent) -> Option<AudioUpdate> {
    if event == KeeperEvent::DevicesClosed {
        Some(AudioUpdate::Dead)
    } else {
        None
    }
}

/// The part of a call that waits for its end while the sound devices run.
#[derive(Debug, Clone, Copy, PartialEq, Eq, Structural)]
pub struct Keeper {
    pub phase: KeeperPhase,
}

impl Keeper {
    /// A keeper of a call whose devices have just been started.
    pub fn new() -> (keeper: Keeper)
        ensures
            keeper.phase == KeeperPhase::CheckStop,
    {
        Keeper { phase: KeeperPhase::CheckStop }
    }

    /// Takes in an event, and returns what the window is to be told: that the call is dead,
    /// once its devices are closed.
    pub fn on(&mut self, event: KeeperEvent) -> (update: Option<AudioUpdate>)
        requires
            keeper_accepts(old(self).phase, event),
        ensures
            final(self).phase == keeper_next(event),
            update == keeper_tells(event),
    {
        match event {
            KeeperEvent::StopChecked(stopped) => {
                self.phase = if stopped {
                    KeeperPhase::ShutDown
                } else {
                    KeeperPhase::PollWindow
                };
                None
            },
            KeeperEvent::WindowPolled(update) => {
                self.phase = match update {
                    Some(UiUpdate::Kill) => KeeperPhase::ShutDown,
                    None => KeeperPhase::Pause,
                };
                None
            },
            KeeperEvent::Paused => {
                self.phase = KeeperPhase::CheckStop;
                None
            },
            KeeperEvent::DevicesClosed => {
                self.phase = KeeperPhase::Over;
                Some(AudioUpdate::Dead)
            },
        }
    }
}

/// A keeper after some events, if each answered what it was doing.
pub open spec fn keeper_run(events: Seq<KeeperEvent>) -> Option<KeeperPhase>
    decreases events.len(),
{
    if events.len() == 0 {
        Some(KeeperPhase::CheckStop)
    } else {
        match keeper_run(events.drop_last()) {
            None => None,
            Some(phase) => if keeper_accepts(phase, events.last()) {
                Some(keeper_next(events.last()))
            } else {
                None
            },
        }
    }
}

/// How often the window has been told of a call's death.
pub open spec fn farewells(events: Seq<KeeperEvent>) -> nat
    decreases events.len(),
{
    if events.len() == 0 {
        0
    } else {
        farewells(events.drop_last()) + if keeper_tells(events.last()) is Some {
            1nat
        } else {
            0nat
        }
    }
}

/// Whether an event asks for the end of a call.
pub open spec fn asks_for_end(event: KeeperEvent) -> bool {
    match event {
        KeeperEvent::StopChecked(stopped) => stopped,
        KeeperEvent::WindowPolled(Some(UiUpdate::Kill)) => true,
        _ => false,
    }
}

/// The window is told of a call's death exactly when the call is over, once, and only after
/// the stop flag was raised or the window asked for it.
pub proof fn law_a_call_dies_once(events: Seq<KeeperEvent>)
    requires
        keeper_run(events) is Some,
    ensures
        farewells(events) <= 1,
        farewells(events) == 1 <==> keeper_run(events) == Some(KeeperPhase::Over),
        farewells(events) == 1 ==> exists|i: int|
            0 <= i < events.len() && asks_for_end(#[trigger] events[i]),
    decreases events.len(),
{
    if events.len() > 0 {
        let before = events.drop_last();
        law_a_call_dies_once(before);
        if farewells(events) == 1 {
            assert(before.len() > 0);
            assert(keeper_run(before) == Some(keeper_next(before.last())));
            assert(events[events.len() - 2] == before.last());
            assert(asks_for_end(events[events.len() - 2]));
        }
    }
}

/// A kill from the window, or a raised stop flag, leaves a call nothing to do but to shut
/// down.
pub proof fn law_a_kill_shuts_down(events: Seq<KeeperEvent>, next: KeeperEvent)
    requires
        keeper_run(events) is Some,
        events.len() > 0,
        asks_for_end(events.last()),
    ensures
        keeper_run(events) == Some(KeeperPhase::ShutDown),
        keeper_run(events.push(next)) is Some <==> next == KeeperEvent::DevicesClosed,
{
    assert(events.push(next).drop_last() =~= events);
}

/// A call as the window keeps it. `port` is whatever the window needs to reach the call.
pub struct Server<P> {
    pub port: P,
    pub is_server: bool,
    pub state: ServerState,
    pub muted: bool,
    /// The last level readings, oldest first.
    pub dbs: VecDeque<u32>,
}

/// The last `n` elements of a sequence, or all where there are fewer.
pub open spec fn last_of<A>(s: Seq<A>, n: nat) -> Seq<A> {
    if s.len() <= n {
        s
    } else {
        s.skip(s.len() - n)
    }
}

/// The level readings among some messages, in order.
pub open spec fn readings(updates: Seq<AudioUpdate>) -> Seq<u32>
    decreases updates.len(),
{
    if updates.len() == 0 {
        Seq::empty()
    } else {
        match updates.last() {
            AudioUpdate::DecibelReading(db) => readings(updates.drop_last()).push(db),
            _ => readings(updates.drop_last()),
        }
    }
}

/// The last state among some messages, or the state before them.
pub open spec fn latest_state(state: ServerState, updates: Seq<AudioUpdate>) -> ServerState
    decreases updates.len(),
{
    if updates.len() == 0 {
        state
    } else {
        match updates.last() {
            AudioUpdate::ServerState(newer) => newer,
            _ => latest_state(state, updates.drop_last()),
        }
    }
}

/// How often some messages say that a call has died.
pub open spec fn deaths(updates: Seq<AudioUpdate>) -> nat
    decreases updates.len(),
{
    if updates.len() == 0 {
        0
    } else {
        deaths(updates.drop_last()) + if updates.last() == AudioUpdate::Dead {
            1nat
        } else {
            0nat
        }
    }
}

/// A call with its mute set, or lifted where it was set.
pub open spec fn toggled<P>(server: Server<P>) -> Server<P> {
    Server { muted: !server.muted, ..server }
}

impl<P> Server<P> {
    /// No more readings are kept than the plot shows.
    pub open spec fn wf(&self) -> bool {
        self.dbs@.len() <= KEPT_READINGS
    }

    /// A call that has just been asked for.
    pub fn new(port: P, is_server: bool) -> (server: Self)
        ensures
            server.wf(),
            server.port == port,
            server.is_server == is_server,
            server.state == ServerState::Init,
            !server.muted,
            server.dbs@ == Seq::<u32>::empty(),
    {
        Server { port, is_server, state: ServerState::Init, muted: false, dbs: VecDeque::new() }
    }

    /// Takes in the messages of a call, in order, and returns how often they say that it
    /// has died. Of the level readings the last ones are kept.
    pub fn absorb(&mut self, updates: &Vec<AudioUpdate>) -> (died: usize)
        requires
            old(self).wf(),
        ensures
            final(self).wf(),
            final(self).port == old(self).port,
            final(self).is_server == old(self).is_server,
            final(self).muted == old(self).muted,
            final(self).state == latest_state(old(self).state, updates@),
            final(self).dbs@ == last_of(old(self).dbs@ + readings(updates@), KEPT_READINGS as nat),
            died == deaths(updates@),
    {
        let mut died: usize = 0;
        let mut i: usize = 0;
        let ghost start = *self;
        proof {
            assert(updates@.take(0) =~= Seq::<AudioUpdate>::empty());
            assert(start.dbs@ + Seq::<u32>::empty() =~= start.dbs@);
        }
        while i < updates.len()
            invariant
                i <= updates@.len(),
                died <= i,
                start.wf(),
                self.wf(),
                self.port == start.port,
                self.is_server == start.is_server,
                self.muted == start.muted,
                self.state == latest_state(start.state, updates@.take(i as int)),
                self.dbs@ == last_of(
                    start.dbs@ + readings(updates@.take(i as int)),
                    KEPT_READINGS as nat,
                ),
                died == deaths(updates@.take(i as int)),
            decreases updates@.len() - i,
        {
            let ghost seen = updates@.take(i as int);
            proof {
                assert(updates@.take(i + 1).drop_last() =~= seen);
                assert(updates@.take(i + 1).last() == updates@[i as int]);
            }
            match updates[i] {
                AudioUpdate::Dead => {
                    died = died + 1;
                },
                AudioUpdate::ServerState(state) => {
                    self.state = state;
                },
                AudioUpdate::DecibelReading(db) => {
                    let ghost all = start.dbs@ + readings(seen);
                    if self.dbs.len() > PLOT_WIDTH {
                        let _ = self.dbs.pop_front();
                    }
                    self.dbs.push_back(db);
                    proof {
                        assert(start.dbs@ + readings(seen).push(db) =~= all.push(db));
                        assert(self.dbs@ =~= last_of(all.push(db), KEPT_READINGS as nat));
                    }
                },
            }
            i = i + 1;
        }
        assert(updates@.take(updates@.len() as int) =~= updates@);
        died
    }

    /// Mutes a call, or lifts the mute, and returns whether it is muted now.
    pub fn toggle_mute(&mut self) -> (muted: bool)
        ensures
            muted == !old(self).muted,
            *final(self) == toggled(*old(self)),
    {
        self.muted = !self.muted;
        self.muted
    }
}

/// Muting a call and lifting the mute leaves it as it was.
pub proof fn law_toggling_twice<P>(server: Server<P>)
    ensures
        toggled(server).muted != server.muted,
        toggled(toggled(server)) == server,
{
}

/// Reading in two goes is reading at once: what is kept of the levels, the state and the
/// number of deaths depend on the messages alone, not on when they were taken in.
pub proof fn law_absorbing_in_parts(
    state: ServerState,
    dbs: Seq<u32>,
    first: Seq<AudioUpdate>,
    second: Seq<AudioUpdate>,
)
    ensures
        ({
            let kept = KEPT_READINGS as nat;
            last_of(last_of(dbs + readings(first), kept) + readings(second), kept) == last_of(
                dbs + readings(first + second),
                kept,
            )
        }),
        latest_state(latest_state(state, first), second) == latest_state(state, first + second),
        deaths(first) + deaths(second) == deaths(first + second),
    decreases second.len(),
{
    let kept = KEPT_READINGS as nat;
    if second.len() == 0 {
        assert(first + second =~= first);
        assert(last_of(dbs + readings(first), kept) + readings(second) =~= last_of(
            dbs + readings(first),
            kept,
        ));
    } else {
        let shorter = second.drop_last();
        law_absorbing_in_parts(state, dbs, first, shorter);
        assert((first + second).drop_last() =~= first + shorter);
        assert((first + second).last() == second.last());
        match second.last() {
            AudioUpdate::DecibelReading(db) => {
                let a = last_of(dbs + readings(first), kept) + readings(shorter);
                let b = dbs + readings(first + shorter);
                assert(last_of(dbs + readings(first), kept) + readings(second) =~= a.push(db));
                assert(dbs + readings(first + second) =~= b.push(db));
                lemma_last_of_push(a, db, kept);
                lemma_last_of_push(b, db, kept);
            },
            _ => {},
        }
    }
}

proof fn lemma_last_of_push<A>(s: Seq<A>, x: A, n: nat)
    requires
        n > 0,
    ensures
        last_of(s.push(x), n) == last_of(last_of(s, n).push(x), n),
{
    assert(last_of(s.push(x), n) =~= last_of(last_of(s, n).push(x), n));
}

/// A search comes to the first device of the wanted name; to a device without a name where that
/// comes first; and to `missing` exactly where every device has a name and none is the wanted.
pub proof fn law_what_a_search_finds(
    names: Seq<Option<String>>,
    wanted: Seq<char>,
    missing: StartError,
    device: Result<usize, StartError>,
)
    requires
        missing !is DeviceNameless,
        search_answer(names, wanted, missing, device),
    ensures
        device is Ok ==> {
            let i = device->Ok_0 as int;
            &&& 0 <= i < names.len()
            &&& names[i] is Some
            &&& names[i]->Some_0@ == wanted
            &&& forall|j: int| 0 <= j < i ==> (#[trigger] names[j]) is Some
            &&& forall|j: int| 0 <= j < i ==> (#[trigger] names[j])->Some_0@ != wanted
        },
        device is Err && device->Err_0 is DeviceNameless ==> {
            let i = device->Err_0->DeviceNameless_0 as int;
            &&& 0 <= i < names.len()
            &&& names[i] is None
            &&& forall|j: int| 0 <= j < i ==> (#[trigger] names[j]) is Some
            &&& forall|j: int| 0 <= j < i ==> (#[trigger] names[j])->Some_0@ != wanted
        },
        device is Err && device->Err_0 !is DeviceNameless ==> {
            &&& device->Err_0 == missing
            &&& forall|j: int| 0 <= j < names.len() ==> (#[trigger] names[j]) is Some
            &&& forall|j: int| 0 <= j < names.len() ==> (#[trigger] names[j])->Some_0@ != wanted
        },
{
    match device {
        Ok(i) => {
            assert forall|j: int| 0 <= j < i implies (#[trigger] names[j]) is Some
                && names[j]->Some_0@ != wanted by {
                assert(passed_over(names[j], wanted));
            }
        },
        Err(StartError::DeviceNameless(i)) => {
            assert forall|j: int| 0 <= j < i implies (#[trigger] names[j]) is Some
                && names[j]->Some_0@ != wanted by {
                assert(passed_over(names[j], wanted));
            }
        },
        Err(_) => {
            assert forall|j: int| 0 <= j < names.len() implies (#[trigger] names[j]) is Some
                && names[j]->Some_0@ != wanted by {
                assert(passed_over(names[j], wanted));
            }
        },
    }
}

/// The devices of a call have the names that its settings give, each the first of its name.
pub proof fn law_the_devices_are_those_named(
    inputs: Seq<Option<String>>,
    outputs: Option<Seq<Option<String>>>,
    settings: ConnectionSettings,
    input: usize,
    output: usize,
)
    requires
        devices_answer(inputs, outputs, settings, Ok((input, output))),
    ensures
        input < inputs.len(),
        inputs[input as int] is Some,
        inputs[input as int]->Some_0@ == settings.input_device_name@,
        outputs is Some,
        output < outputs->Some_0.len(),
        outputs->Some_0[output as int] is Some,
        outputs->Some_0[output as int]->Some_0@ == settings.output_device_name@,
        forall|j: int|
            0 <= j < input ==> (#[trigger] inputs[j])->Some_0@ != settings.input_device_name@,
        forall|j: int|
            0 <= j < output ==> (#[trigger] outputs->Some_0[j])->Some_0@
                != settings.output_device_name@,
{
    let i = choose|i: usize|
        #[trigger] search_answer(
            inputs,
            settings.input_device_name@,
            StartError::InputDeviceMissing,
            Ok(i),
        ) && i == input;
    law_what_a_search_finds(
        inputs,
        settings.input_device_name@,
        StartError::InputDeviceMissing,
        Ok(i),
    );
    law_what_a_search_finds(
        outputs->Some_0,
        settings.output_device_name@,
        StartError::OutputDeviceMissing,
        Ok(output),
    );
}

/// A latency has as many samples as its frames have in all channels, and the rings have room for
/// twice as many. In the format of a call that is one sample a frame.
pub proof fn law_room_is_twice_the_latency(format: StreamFormat, latency_frames: usize)
    ensures
        latency_samples(format, latency_frames) == latency_frames * format.channels,
        ring_room(format, latency_frames) == latency_samples(format, latency_frames)
            + latency_samples(format, latency_frames),
        format.channels == 1 ==> latency_samples(format, latency_frames) == latency_frames,
        format.channels == 1 ==> ring_room(format, latency_frames) == 2 * latency_frames,
{
    assert(latency_frames as nat * 1 == latency_frames);
}

/// How the call of a server goes that finds its peer.
pub open spec fn way_of_a_server() -> Seq<CallEvent> {
    seq![
        CallEvent::EndpointReady,
        CallEvent::PeerArrived,
        CallEvent::Connected,
        CallEvent::ChannelOpen,
        CallEvent::ChannelEnded,
    ]
}

/// How the call of a client goes.
pub open spec fn way_of_a_client() -> Seq<CallEvent> {
    seq![
        CallEvent::EndpointReady,
        CallEvent::Connected,
        CallEvent::ChannelOpen,
        CallEvent::ChannelEnded,
    ]
}

/// Whether some events are those of a server that gave up, before or after its peer arrived.
pub open spec fn gives_up(events: Seq<CallEvent>) -> bool {
    ||| events == seq![CallEvent::EndpointReady, CallEvent::TimedOut]
    ||| events == seq![CallEvent::EndpointReady, CallEvent::PeerArrived, CallEvent::TimedOut]
}

proof fn lemma_the_way(server: bool, events: Seq<CallEvent>)
    ensures
        ({
            let way = if server {
                way_of_a_server()
            } else {
                way_of_a_client()
            };
            let joined: int = if server {
                3
            } else {
                2
            };
            match call_run(server, events) {
                None => !events.is_prefix_of(way) && !(server && gives_up(events)),
                Some(CallPhase::InitAudio) => events =~= way.take(0),
                Some(CallPhase::Waiting) => events =~= way.take(1),
                Some(CallPhase::Creating) => server && events =~= way.take(2),
                Some(CallPhase::Joining) => events =~= way.take(joined),
                Some(CallPhase::Active) => events =~= way.take(joined + 1),
                Some(CallPhase::Ended) => events =~= way,
                Some(CallPhase::GaveUp) => server && gives_up(events),
            }
        }),
    decreases events.len(),
{
    if events.len() > 0 {
        let way = if server {
            way_of_a_server()
        } else {
            way_of_a_client()
        };
        let before = events.drop_last();
        lemma_the_way(server, before);
        assert(events =~= before.push(events.last()));
        if events.is_prefix_of(way) {
            assert(before =~= way.take(before.len() as int));
            assert(before.is_prefix_of(way));
            assert(events.last() == way[events.len() - 1]);
        }
        if gives_up(events) {
            let early = seq![CallEvent::EndpointReady];
            let late = seq![CallEvent::EndpointReady, CallEvent::PeerArrived];
            assert(before =~= early || before =~= late);
            assert(early =~= way_of_a_server().take(1));
            assert(late =~= way_of_a_server().take(2));
        }
        match call_run(server, events) {
            Some(CallPhase::GaveUp) => {
                assert(events =~= seq![CallEvent::EndpointReady, CallEvent::TimedOut] || events
                    =~= seq![
                    CallEvent::EndpointReady,
                    CallEvent::PeerArrived,
                    CallEvent::TimedOut,
                ]);
            },
            _ => {},
        }
    }
}

/// A call can go one way and no other: a server waits for its peer, completes the connection,
/// opens the channel and runs it to its end, or gives up waiting; a client connects, waits for
/// the channel and runs it to its end. Any beginning of that can happen, and nothing else.
pub proof fn law_the_way_of_a_call(server: bool, events: Seq<CallEvent>)
    ensures
        server ==> (call_run(server, events) is Some <==> events.is_prefix_of(way_of_a_server())
            || gives_up(events)),
        !server ==> (call_run(server, events) is Some <==> events.is_prefix_of(way_of_a_client())),
        call_run(server, events) == Some(CallPhase::GaveUp) <==> server && gives_up(events),
        call_run(server, events) == Some(CallPhase::Active) <==> events == if server {
            way_of_a_server().take(4)
        } else {
            way_of_a_client().take(3)
        },
        call_run(server, events) == Some(CallPhase::Ended) <==> events == if server {
            way_of_a_server()
        } else {
            way_of_a_client()
        },
{
    lemma_the_way(server, events);
    reveal_with_fuel(call_run, 6);
    let s = way_of_a_server();
    let c = way_of_a_client();
    assert(s.take(5) =~= s);
    assert(c.take(4) =~= c);
    assert(s.take(5).drop_last() =~= s.take(4));
    assert(s.take(4).drop_last() =~= s.take(3));
    assert(s.take(3).drop_last() =~= s.take(2));
    assert(s.take(2).drop_last() =~= s.take(1));
    assert(s.take(1).drop_last() =~= s.take(0));
    assert(c.take(4).drop_last() =~= c.take(3));
    assert(c.take(3).drop_last() =~= c.take(2));
    assert(c.take(2).drop_last() =~= c.take(1));
    assert(c.take(1).drop_last() =~= c.take(0));
    let early = seq![CallEvent::EndpointReady, CallEvent::TimedOut];
    let late = seq![CallEvent::EndpointReady, CallEvent::PeerArrived, CallEvent::TimedOut];
    assert(early.drop_last() =~= s.take(1));
    assert(late.drop_last() =~= s.take(2));
    assert(!early.is_prefix_of(s) && !late.is_prefix_of(s));
}

/// Each state is announced at its event: that the call waits when its endpoint is ready, that
/// its channel is being created when a server's peer has arrived or a client is connected, and
/// that it is active when the channel is open. Nothing is announced at any other event.
pub proof fn law_states_and_their_events(server: bool, event: CallEvent)
    ensures
        call_tells(server, event) == Some(AudioUpdate::ServerState(ServerState::WaitingForPeer))
            <==> event == CallEvent::EndpointReady,
        call_tells(server, event) == Some(AudioUpdate::ServerState(ServerState::CreatingChannel))
            <==> if server {
            event == CallEvent::PeerArrived
        } else {
            event == CallEvent::PeerArrived || event == CallEvent::Connected
        },
        call_tells(server, event) == Some(AudioUpdate::ServerState(ServerState::Active)) <==> event
            == CallEvent::ChannelOpen,
        call_tells(server, event) is None <==> event == CallEvent::TimedOut || event
            == CallEvent::ChannelEnded || (server && event == CallEvent::Connected),
{
}

/// As long as neither the stop flag is raised nor the window kills it, a call goes on, and its
/// keeper goes round: it looks at the flag, asks the window and pauses.
pub proof fn law_a_call_lives_until_it_is_asked_to_end(events: Seq<KeeperEvent>)
    requires
        keeper_run(events) is Some,
        forall|i: int|
            0 <= i < events.len() ==> match #[trigger] events[i] {
                KeeperEvent::StopChecked(stopped) => !stopped,
                KeeperEvent::WindowPolled(message) => message is None,
                _ => true,
            },
    ensures
        events.len() % 3 == 0 ==> keeper_run(events) == Some(KeeperPhase::CheckStop),
        events.len() % 3 == 1 ==> keeper_run(events) == Some(KeeperPhase::PollWindow),
        events.len() % 3 == 2 ==> keeper_run(events) == Some(KeeperPhase::Pause),
    decreases events.len(),
{
    if events.len() > 0 {
        let before = events.drop_last();
        assert forall|i: int| 0 <= i < before.len() implies match #[trigger] before[i] {
            KeeperEvent::StopChecked(stopped) => !stopped,
            KeeperEvent::WindowPolled(message) => message is None,
            _ => true,
        } by {
            assert(before[i] == events[i]);
        }
        law_a_call_lives_until_it_is_asked_to_end(before);
        assert(events.last() == events[events.len() - 1]);
    }
}

/// A raised stop flag and any message from the window end a call, and nothing else does.
pub proof fn law_what_ends_a_call(stopped: bool, message: Option<UiUpdate>)
    ensures
        asks_for_end(KeeperEvent::StopChecked(stopped)) <==> stopped,
        asks_for_end(KeeperEvent::WindowPolled(message)) <==> message is Some,
        !asks_for_end(KeeperEvent::Paused),
        !asks_for_end(KeeperEvent::DevicesClosed),
        keeper_next(KeeperEvent::StopChecked(stopped)) == KeeperPhase::ShutDown <==> stopped,
        keeper_next(KeeperEvent::WindowPolled(message)) == KeeperPhase::ShutDown <==> message
            is Some,
        keeper_next(KeeperEvent::DevicesClosed) == KeeperPhase::Over,
{
}

/// Whatever the keeper finds can be reported to it when it has looked, and nothing else can. The
/// window hears that the call is dead when the devices are closed, and hears nothing before.
pub proof fn law_the_keeper_takes_every_answer(
    phase: KeeperPhase,
    stopped: bool,
    message: Option<UiUpdate>,
)
    ensures
        keeper_accepts(phase, KeeperEvent::StopChecked(stopped)) <==> phase
            == KeeperPhase::CheckStop,
        keeper_accepts(phase, KeeperEvent::WindowPolled(message)) <==> phase
            == KeeperPhase::PollWindow,
        keeper_accepts(phase, KeeperEvent::Paused) <==> phase == KeeperPhase::Pause,
        keeper_accepts(phase, KeeperEvent::DevicesClosed) <==> phase == KeeperPhase::ShutDown,
        keeper_tells(KeeperEvent::StopChecked(stopped)) is None,
        keeper_tells(KeeperEvent::WindowPolled(message)) is None,
        keeper_tells(KeeperEvent::Paused) is None,
        keeper_tells(KeeperEvent::DevicesClosed) == Some(AudioUpdate::Dead),
{
}

/// The newest state counts: after messages with a state among them and no other behind it, the
/// window shows that state, whatever it showed before.
pub proof fn law_the_newest_state_counts(
    state: ServerState,
    updates: Seq<AudioUpdate>,
    i: int,
    newest: ServerState,
)
    requires
        0 <= i < updates.len(),
        updates[i] == AudioUpdate::ServerState(newest),
        forall|j: int| i < j < updates.len() ==> (#[trigger] updates[j]) !is ServerState,
    ensures
        latest_state(state, updates) == newest,
    decreases updates.len(),
{
    if i < updates.len() - 1 {
        let before = updates.drop_last();
        assert(updates.last() == updates[updates.len() - 1]);
        assert forall|j: int| i < j < before.len() implies (#[trigger] before[j]) !is ServerState by {
            assert(before[j] == updates[j]);
        }
        law_the_newest_state_counts(state, before, i, newest);
    }
}

/// Messages without a state among them leave the state that the window shows as it is.
pub proof fn law_without_a_state_nothing_changes(state: ServerState, updates: Seq<AudioUpdate>)
    requires
        forall|j: int| 0 <= j < updates.len() ==> (#[trigger] updates[j]) !is ServerState,
    ensures
        latest_state(state, updates) == state,
    decreases updates.len(),
{
    if updates.len() > 0 {
        let before = updates.drop_last();
        assert(updates.last() == updates[updates.len() - 1]);
        assert forall|j: int| 0 <= j < before.len() implies (#[trigger] before[j]) !is ServerState by {
            assert(before[j] == updates[j]);
        }
        law_without_a_state_nothing_changes(state, before);
    }
}

/// The readings among messages are those of the first of them, then those of the others; of one
/// message it is the level that it tells, or nothing.
pub proof fn law_readings_are_the_levels_told(
    first: Seq<AudioUpdate>,
    second: Seq<AudioUpdate>,
    one: AudioUpdate,
)
    ensures
        readings(first + second) == readings(first) + readings(second),
        one is DecibelReading ==> readings(seq![one]) == seq![one->DecibelReading_0],
        one !is DecibelReading ==> readings(seq![one]).len() == 0,
    decreases second.len(),
{
    reveal_with_fuel(readings, 2);
    assert(seq![one].drop_last() =~= Seq::empty());
    assert(readings(Seq::empty()) =~= Seq::<u32>::empty());
    assert(Seq::<u32>::empty().push(one->DecibelReading_0) =~= seq![one->DecibelReading_0]);
    if second.len() == 0 {
        assert(first + second =~= first);
        assert(readings(first) + readings(second) =~= readings(first));
    } else {
        law_readings_are_the_levels_told(first, second.drop_last(), one);
        assert((first + second).drop_last() =~= first + second.drop_last());
        assert((first + second).last() == second.last());
        assert(readings(first + second) =~= readings(first) + readings(second));
    }
}

/// Deaths are counted one by one: none without a message of death, and one more for each.
pub proof fn law_deaths_are_counted(updates: Seq<AudioUpdate>, one: AudioUpdate)
    ensures
        deaths(updates.push(one)) == deaths(updates) + if one is Dead {
            1nat
        } else {
            0nat
        },
        deaths(updates) == 0 <==> forall|j: int|
            0 <= j < updates.len() ==> (#[trigger] updates[j]) !is Dead,
    decreases updates.len(),
{
    assert(updates.push(one).drop_last() =~= updates);
    if updates.len() > 0 {
        let before = updates.drop_last();
        law_deaths_are_counted(before, one);
        assert(updates.last() == updates[updates.len() - 1]);
        if deaths(updates) == 0 {
            assert forall|j: int| 0 <= j < updates.len() implies (#[trigger] updates[j]) !is Dead by {
                if j < before.len() {
                    assert(before[j] == updates[j]);
                }
            }
        }
        if forall|j: int| 0 <= j < updates.len() ==> (#[trigger] updates[j]) !is Dead {
            assert forall|j: int| 0 <= j < before.len() implies (#[trigger] before[j]) !is Dead by {
                assert(before[j] == updates[j]);
            }
        }
    }
}

/// The last of a sequence are its end, place by place: all of it where it has no more than that
/// many, and otherwise exactly as many as asked for.
pub proof fn law_the_last_are_the_end<A>(s: Seq<A>, n: nat)
    ensures
        s.len() <= n ==> last_of(s, n).len() == s.len(),
        s.len() >= n ==> last_of(s, n).len() == n,
        forall|i: int|
            0 <= i < last_of(s, n).len() ==> #[trigger] last_of(s, n)[i] == s[s.len() - last_of(
                s,
                n,
            ).len() + i],
{
}

/// The plot shows the newest 81 levels: after some messages, the newest levels kept are the last
/// that the messages told, and before them come as many older ones as there is room for.
pub proof fn law_the_newest_levels_are_kept(dbs: Seq<u32>, updates: Seq<AudioUpdate>, i: int)
    requires
        dbs.len() <= 81,
        0 <= i,
    ensures
        ({
            let all = dbs + readings(updates);
            let kept = last_of(all, KEPT_READINGS as nat);
            &&& kept.len() <= 81
            &&& all.len() <= 81 ==> kept == all
            &&& all.len() > 81 ==> kept.len() == 81
            &&& i < kept.len() ==> kept[kept.len() - 1 - i] == all[all.len() - 1 - i]
        }),
{
}

/// Muting a call, or lifting the mute, touches nothing else of it.
pub proof fn law_muting_only_mutes<P>(server: Server<P>)
    ensures
        toggled(server).muted == !server.muted,
        toggled(server).port == server.port,
        toggled(server).is_server == server.is_server,
        toggled(server).state == server.state,
        toggled(server).dbs == server.dbs,
{
}

/// A list of names is passed on as it is, or is missing.
pub proof fn law_names_listed(names: Option<Vec<Option<String>>>)
    ensures
        names_listed(names) is Some <==> names is Some,
        names is Some ==> names_listed(names)->Some_0 == names->Some_0@,
{
}

/// The numbers of a call: it is mono at 48000 samples a second; a server waits 100 seconds for
/// its peer and gives it one to connect; a connection is given up after one silent second; the
/// window is asked ten times a second; and the plot is one reading longer than it is wide.
pub proof fn law_the_numbers_of_a_call()
    ensures
        CALL_CHANNELS == 1,
        CALL_SAMPLE_RATE == 48_000,
        ACCEPT_SECONDS == 100,
        HANDSHAKE_SECONDS == 1,
        IDLE_SECONDS == 1,
        SUPERVISION_MILLIS * 10 == 1_000,
        PLOT_WIDTH == 80,
        KEPT_READINGS == PLOT_WIDTH + 1,
        MIN_LATENCY_FRAMES * 100 == CALL_SAMPLE_RATE,
        MAX_LATENCY_FRAMES == 3 * CALL_SAMPLE_RATE,
{
}

} // verus!
