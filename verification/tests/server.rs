use audiostream::audio::{LinkStatus, ReadHalf};
use audiostream::server::{
    call_format, find_devices, find_input_device, find_output_device, latency_fits, open_audio,
    start, AudioUpdate, BlockSize, CallEvent, CallPhase, Keeper, KeeperEvent, KeeperPhase, Server,
    ServerState, StartError, StreamFormat, UiUpdate, CALL_SAMPLE_RATE, MAX_LATENCY_FRAMES,
    MIN_LATENCY_FRAMES,
};
use audiostream::settings::{ConnectionSettings, MAX_LATENCY, MIN_LATENCY};

fn settings() -> ConnectionSettings {
    ConnectionSettings::new("mic".to_string(), "speaker".to_string())
}

fn names(list: &[&str]) -> Vec<Option<String>> {
    list.iter()
        .map(|name| if name.is_empty() { None } else { Some(name.to_string()) })
        .collect()
}

#[test]
fn the_first_device_of_the_name_is_taken() {
    assert_eq!(find_input_device(&names(&["x", "mic", "mic"]), &settings()), Ok(1));
    assert_eq!(find_output_device(&names(&["speaker", "mic"]), &settings()), Ok(0));
}

#[test]
fn a_missing_input_device() {
    let error = find_input_device(&names(&["x", "speaker"]), &settings()).unwrap_err();
    assert_eq!(error, StartError::InputDeviceMissing);
    assert_eq!(error.message(), "can't find input device");
}

#[test]
fn a_missing_output_device() {
    let error = find_output_device(&names(&[]), &settings()).unwrap_err();
    assert_eq!(error, StartError::OutputDeviceMissing);
    assert_eq!(error.message(), "can't find output device");
}

#[test]
fn a_nameless_device_only_matters_before_the_wanted_one() {
    let error = find_input_device(&names(&["x", "", "mic"]), &settings()).unwrap_err();
    assert_eq!(error, StartError::DeviceNameless(1));
    assert_eq!(error.message(), "can't read a device name");
    assert_eq!(find_input_device(&names(&["x", "mic", ""]), &settings()), Ok(1));
}

#[test]
fn a_call_is_mono_at_its_own_rate() {
    let default =
        StreamFormat { channels: 2, sample_rate: 44_100, block_size: BlockSize::Fixed(512) };
    assert_eq!(
        call_format(default),
        StreamFormat { channels: 1, sample_rate: 48_000, block_size: BlockSize::Fixed(512) }
    );
}

#[test]
fn the_rings_of_a_call() {
    let format =
        StreamFormat { channels: 2, sample_rate: 48_000, block_size: BlockSize::Default };
    let mut audio = open_audio(format, 3);
    let mut out = [1u32; 20];
    assert_eq!(audio.capture.play(&mut out), 0);
    assert_eq!(audio.playback.play(&mut out), 6);
    assert_eq!(out[..7], [0, 0, 0, 0, 0, 0, 1]);
    audio.capture.capture(&[9; 20], false);
    audio.playback.deliver(&[9; 20]);
    assert_eq!(audio.capture.play(&mut out), 12);
    assert_eq!(audio.playback.play(&mut out), 12);
}

fn told(update: Option<AudioUpdate>) -> Option<ServerState> {
    match update {
        Some(AudioUpdate::ServerState(state)) => Some(state),
        _ => None,
    }
}

#[test]
fn a_server_finds_its_peer() {
    let (mut call, first) = start(true);
    assert_eq!(told(Some(first)), Some(ServerState::InitAudioSystem));
    assert_eq!(call.time_limit(), None);
    assert_eq!(told(call.on(CallEvent::EndpointReady)), Some(ServerState::WaitingForPeer));
    assert_eq!(call.time_limit(), Some(100));
    assert_eq!(told(call.on(CallEvent::PeerArrived)), Some(ServerState::CreatingChannel));
    assert_eq!(call.time_limit(), Some(1));
    assert_eq!(call.on(CallEvent::Connected), None);
    assert_eq!(call.time_limit(), None);
    assert_eq!(told(call.on(CallEvent::ChannelOpen)), Some(ServerState::Active));
    assert!(!call.raises_stop());
    assert_eq!(call.on(CallEvent::ChannelEnded), None);
    assert_eq!(call.phase, CallPhase::Ended);
    assert!(call.raises_stop());
}

#[test]
fn a_client_connects() {
    let (mut call, first) = start(false);
    assert_eq!(told(Some(first)), Some(ServerState::InitAudioSystem));
    assert_eq!(told(call.on(CallEvent::EndpointReady)), Some(ServerState::WaitingForPeer));
    assert_eq!(call.time_limit(), None);
    assert_eq!(told(call.on(CallEvent::Connected)), Some(ServerState::CreatingChannel));
    assert_eq!(told(call.on(CallEvent::ChannelOpen)), Some(ServerState::Active));
    assert_eq!(call.on(CallEvent::ChannelEnded), None);
    assert!(call.raises_stop());
}

#[test]
fn a_server_that_gives_up_stops_nothing() {
    let (mut call, _) = start(true);
    call.on(CallEvent::EndpointReady);
    assert_eq!(call.on(CallEvent::TimedOut), None);
    assert_eq!(call.phase, CallPhase::GaveUp);
    assert!(!call.raises_stop());

    let (mut call, _) = start(true);
    call.on(CallEvent::EndpointReady);
    call.on(CallEvent::PeerArrived);
    assert_eq!(call.on(CallEvent::TimedOut), None);
    assert_eq!(call.phase, CallPhase::GaveUp);
}

#[test]
fn a_kill_ends_a_call_with_one_farewell() {
    let mut keeper = Keeper::new();
    assert_eq!(keeper.on(KeeperEvent::StopChecked(false)), None);
    assert_eq!(keeper.on(KeeperEvent::WindowPolled(None)), None);
    assert_eq!(keeper.phase, KeeperPhase::Pause);
    assert_eq!(keeper.on(KeeperEvent::Paused), None);
    assert_eq!(keeper.on(KeeperEvent::StopChecked(false)), None);
    assert_eq!(keeper.on(KeeperEvent::WindowPolled(Some(UiUpdate::Kill))), None);
    assert_eq!(keeper.phase, KeeperPhase::ShutDown);
    assert_eq!(keeper.on(KeeperEvent::DevicesClosed), Some(AudioUpdate::Dead));
    assert_eq!(keeper.phase, KeeperPhase::Over);
}

#[test]
fn a_raised_stop_flag_ends_a_call_before_the_window_is_asked() {
    let mut keeper = Keeper::new();
    assert_eq!(keeper.on(KeeperEvent::StopChecked(true)), None);
    assert_eq!(keeper.phase, KeeperPhase::ShutDown);
}

fn reading(i: u32) -> AudioUpdate {
    AudioUpdate::DecibelReading(i)
}

#[test]
fn the_last_readings_are_kept() {
    let mut server = Server::new((), true);
    let first: Vec<AudioUpdate> = (0..81).map(reading).collect();
    assert_eq!(server.absorb(&first), 0);
    assert_eq!(server.dbs.len(), 81);
    assert_eq!(server.dbs[0], 0);
    assert_eq!(server.absorb(&vec![reading(81), reading(82)]), 0);
    assert_eq!(server.dbs.len(), 81);
    assert_eq!(server.dbs[0], 2);
    assert_eq!(server.dbs[80], 82);
}

#[test]
fn messages_in_parts_are_messages_at_once() {
    let mut updates: Vec<AudioUpdate> = (0..100).map(reading).collect();
    updates.insert(40, AudioUpdate::ServerState(ServerState::Active));
    updates.insert(90, AudioUpdate::Dead);
    let mut at_once = Server::new((), false);
    let died = at_once.absorb(&updates);
    let mut in_parts = Server::new((), false);
    let some = in_parts.absorb(&updates[..50].to_vec());
    let rest = in_parts.absorb(&updates[50..].to_vec());
    assert_eq!(died, 1);
    assert_eq!(some + rest, 1);
    assert_eq!(at_once.dbs, in_parts.dbs);
    assert_eq!(at_once.state, ServerState::Active);
    assert_eq!(in_parts.state, ServerState::Active);
}

#[test]
fn the_newest_state_counts() {
    let mut server = Server::new((), true);
    server.absorb(&vec![
        AudioUpdate::ServerState(ServerState::InitAudioSystem),
        AudioUpdate::ServerState(ServerState::WaitingForPeer),
        reading(3),
    ]);
    assert_eq!(server.state, ServerState::WaitingForPeer);
    assert_eq!(format!("{:?}", server.state), "WaitingForPeer");
}

#[test]
fn muting_twice_is_not_muting() {
    let mut server = Server::new((), true);
    assert!(server.toggle_mute());
    assert!(server.muted);
    assert!(!server.toggle_mute());
    assert!(!server.muted);
}

#[test]
fn a_latency_has_samples_that_fit_in_memory() {
    let format = call_format(StreamFormat {
        channels: 2,
        sample_rate: 44_100,
        block_size: BlockSize::Default,
    });
    let most = isize::MAX as usize / 8;
    assert!(!latency_fits(format, 0));
    assert!(latency_fits(format, 1));
    assert!(latency_fits(format, most));
    assert!(!latency_fits(format, most + 1));
    let stereo = StreamFormat { channels: 2, ..format };
    assert!(latency_fits(stereo, most / 2));
    assert!(!latency_fits(stereo, most));
    assert!(!latency_fits(stereo, usize::MAX));
}

#[test]
fn the_input_device_is_missed_first() {
    let mic = names(&["x", "mic"]);
    let speaker = Some(names(&["speaker"]));
    let nothing = names(&[]);
    assert_eq!(find_devices(&mic, &speaker, &settings()), Ok((1, 0)));
    assert_eq!(
        find_devices(&nothing, &Some(nothing.clone()), &settings()),
        Err(StartError::InputDeviceMissing)
    );
    assert_eq!(find_devices(&nothing, &None, &settings()), Err(StartError::InputDeviceMissing));
    assert_eq!(
        find_devices(&mic, &Some(nothing.clone()), &settings()),
        Err(StartError::OutputDeviceMissing)
    );
    assert_eq!(
        find_devices(&names(&["x", "", "mic"]), &Some(nothing), &settings()),
        Err(StartError::DeviceNameless(1))
    );
    let error = find_devices(&mic, &None, &settings()).unwrap_err();
    assert_eq!(error, StartError::OutputDevicesUnlisted);
    assert_eq!(error.message(), "can't list output devices");
}

#[test]
fn the_frames_at_the_ends_of_the_latency_slider() {
    let frames = |latency: u32| (f32::from_bits(latency) * CALL_SAMPLE_RATE as f32) as usize;
    assert_eq!(frames(MIN_LATENCY), MIN_LATENCY_FRAMES);
    assert_eq!(frames(MAX_LATENCY), MAX_LATENCY_FRAMES);
    let mut last = 0;
    for latency in (MIN_LATENCY..=MAX_LATENCY).step_by(9_973) {
        assert!(last <= frames(latency));
        last = frames(latency);
    }
}

#[test]
fn rings_grow_with_the_latency() {
    let format = call_format(StreamFormat {
        channels: 2,
        sample_rate: 44_100,
        block_size: BlockSize::Default,
    });
    let mut silent = Vec::new();
    let mut room = Vec::new();
    for frames in [1usize, 480, 4_800, 144_000] {
        let mut audio = open_audio(format, frames);
        let mut out = vec![1u32; 300_000];
        silent.push(audio.playback.play(&mut out));
        audio.capture.capture(&vec![7; 300_000], false);
        room.push(audio.capture.play(&mut out));
    }
    assert_eq!(silent, vec![1, 480, 4_800, 144_000]);
    assert_eq!(room, vec![2, 960, 9_600, 288_000]);
}

#[test]
fn levels_come_after_the_call_is_active() {
    let (mut call, first) = start(true);
    let mut told = vec![first];
    for event in [
        CallEvent::EndpointReady,
        CallEvent::PeerArrived,
        CallEvent::Connected,
        CallEvent::ChannelOpen,
    ] {
        told.extend(call.on(event));
    }
    let mut half = ReadHalf::new();
    half.link(LinkStatus::Open, false);
    half.length_read(Some(vec![1, 0, 0, 0, 0, 0, 0, 0]));
    half.payload_read(Some(vec![9]));
    told.push(half.decoded(vec![4, 5], 6));
    assert_eq!(
        told,
        vec![
            AudioUpdate::ServerState(ServerState::InitAudioSystem),
            AudioUpdate::ServerState(ServerState::WaitingForPeer),
            AudioUpdate::ServerState(ServerState::CreatingChannel),
            AudioUpdate::ServerState(ServerState::Active),
            AudioUpdate::DecibelReading(6),
        ]
    );
}

#[test]
fn a_call_dies_when_its_channel_has_ended() {
    let (mut call, _) = start(false);
    let mut keeper = Keeper::new();
    for event in [
        CallEvent::EndpointReady,
        CallEvent::Connected,
        CallEvent::ChannelOpen,
        CallEvent::ChannelEnded,
    ] {
        assert!(!call.raises_stop());
        assert_eq!(keeper.on(KeeperEvent::StopChecked(call.raises_stop())), None);
        assert_eq!(keeper.on(KeeperEvent::WindowPolled(None)), None);
        assert_eq!(keeper.on(KeeperEvent::Paused), None);
        call.on(event);
    }
    assert!(call.raises_stop());
    assert_eq!(keeper.on(KeeperEvent::StopChecked(call.raises_stop())), None);
    assert_eq!(keeper.on(KeeperEvent::DevicesClosed), Some(AudioUpdate::Dead));
    assert_eq!(keeper.phase, KeeperPhase::Over);
}

#[test]
fn a_server_that_gave_up_dies_of_a_kill_alone() {
    let (mut call, _) = start(true);
    let mut keeper = Keeper::new();
    call.on(CallEvent::EndpointReady);
    call.on(CallEvent::TimedOut);
    for _ in 0..3 {
        assert_eq!(keeper.on(KeeperEvent::StopChecked(call.raises_stop())), None);
        assert_eq!(keeper.on(KeeperEvent::WindowPolled(None)), None);
        assert_eq!(keeper.on(KeeperEvent::Paused), None);
    }
    assert_eq!(keeper.on(KeeperEvent::StopChecked(call.raises_stop())), None);
    assert_eq!(keeper.on(KeeperEvent::WindowPolled(Some(UiUpdate::Kill))), None);
    assert_eq!(keeper.on(KeeperEvent::DevicesClosed), Some(AudioUpdate::Dead));
}
