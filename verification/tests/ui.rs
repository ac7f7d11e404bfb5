use audiostream::server::{AudioUpdate, ServerState};
use audiostream::ui::MyApp;

fn window() -> MyApp<u32> {
    MyApp::new("mic".to_string(), "speaker".to_string())
}

fn ports(app: &MyApp<u32>) -> Vec<u32> {
    app.servers.iter().map(|server| server.port).collect()
}

fn with_calls(n: u32) -> MyApp<u32> {
    let mut app = window();
    for port in 0..n {
        app.launch(port, port % 2 == 0);
    }
    app
}

#[test]
fn a_new_window_is_empty() {
    let app = window();
    assert_eq!(app.listen_str, "");
    assert!(app.servers.is_empty());
    assert!(app.cached_input_device_names.is_empty());
    assert!(app.cached_output_device_names.is_empty());
    assert!(app.mixer.effects.is_empty());
    assert_eq!(app.current_settings.input_device_name, "mic");
    assert_eq!(app.current_settings.output_device_name, "speaker");
}

#[test]
fn launching_lists_a_call_with_the_settings_of_the_moment() {
    let mut app = window();
    app.listen_str = "127.0.0.1:4433".to_string();
    let client = app.launch(10, false);
    app.current_settings.latency = 7;
    let server = app.launch(11, true);
    assert_eq!(client.address, "127.0.0.1:4433");
    assert!(!client.server);
    assert_eq!(f32::from_bits(client.settings.latency), 0.1f32);
    assert!(server.server);
    assert_eq!(server.settings.latency, 7);
    assert_eq!(ports(&app), vec![10, 11]);
    assert!(!app.servers[0].is_server);
    assert!(app.servers[1].is_server);
    assert_eq!(app.servers[1].state, ServerState::Init);
    assert!(!app.servers[1].muted);
    assert!(app.servers[1].dbs.is_empty());
}

#[test]
fn choosing_an_input_device() {
    let mut app = window();
    app.list_input_devices(vec!["a".to_string(), "b".to_string()]);
    assert_eq!(app.current_settings.input_device_name, "mic");
    app.choose_input_device(1);
    assert_eq!(app.current_settings.input_device_name, "b");
    assert_eq!(app.current_settings.output_device_name, "speaker");
    assert_eq!(app.cached_input_device_names, vec!["a", "b"]);
}

#[test]
fn messages_reach_their_call() {
    let mut app = with_calls(2);
    let dead = app.receive(&vec![
        vec![
            AudioUpdate::ServerState(ServerState::InitAudioSystem),
            AudioUpdate::ServerState(ServerState::WaitingForPeer),
        ],
        vec![AudioUpdate::DecibelReading(5), AudioUpdate::DecibelReading(6)],
    ]);
    assert!(dead.is_empty());
    assert_eq!(app.servers[0].state, ServerState::WaitingForPeer);
    assert!(app.servers[0].dbs.is_empty());
    assert_eq!(app.servers[1].state, ServerState::Init);
    assert_eq!(app.servers[1].dbs, vec![5, 6]);
}

#[test]
fn the_dead_leave_and_the_others_stay_in_order() {
    let mut app = with_calls(5);
    let none: Vec<AudioUpdate> = vec![];
    let dead = app.receive(&vec![
        vec![AudioUpdate::Dead],
        none.clone(),
        vec![AudioUpdate::DecibelReading(1), AudioUpdate::Dead],
        none.clone(),
        vec![AudioUpdate::Dead],
    ]);
    assert_eq!(dead, vec![0, 2, 4]);
    assert_eq!(ports(&app), vec![0, 1, 2, 3, 4]);
    app.sweep(dead);
    assert_eq!(ports(&app), vec![1, 3]);
}

#[test]
fn nobody_dies_when_nobody_says_so() {
    let mut app = with_calls(3);
    let dead = app.receive(&vec![vec![], vec![AudioUpdate::DecibelReading(4)], vec![]]);
    assert!(dead.is_empty());
    app.sweep(dead);
    assert_eq!(ports(&app), vec![0, 1, 2]);
}

#[test]
fn a_death_told_twice_takes_the_next_call_too() {
    let mut app = with_calls(3);
    let dead = app.receive(&vec![
        vec![],
        vec![AudioUpdate::Dead, AudioUpdate::Dead],
        vec![],
    ]);
    assert_eq!(dead, vec![1, 1]);
    app.sweep(dead);
    assert_eq!(ports(&app), vec![0]);
}

#[test]
fn muting_one_call_leaves_the_others() {
    let mut app = with_calls(2);
    assert!(app.toggle_mute(1));
    assert!(!app.servers[0].muted);
    assert!(app.servers[1].muted);
    assert!(!app.toggle_mute(1));
    assert!(!app.servers[1].muted);
    assert_eq!(ports(&app), vec![0, 1]);
}

#[test]
fn which_places_can_be_swept() {
    let app = with_calls(3);
    assert!(app.can_sweep(&vec![]));
    assert!(app.can_sweep(&vec![0, 2]));
    assert!(app.can_sweep(&vec![0, 0, 0]));
    assert!(app.can_sweep(&vec![1, 1]));
    assert!(!app.can_sweep(&vec![3]));
    assert!(!app.can_sweep(&vec![2, 2]));
    assert!(!app.can_sweep(&vec![0, 0, 0, 0]));
}

#[test]
fn one_call_after_the_other_is_all_calls_at_once() {
    let inbox = vec![
        vec![AudioUpdate::Dead],
        vec![AudioUpdate::DecibelReading(7), AudioUpdate::ServerState(ServerState::Active)],
        vec![AudioUpdate::Dead, AudioUpdate::DecibelReading(8)],
    ];
    let mut at_once = with_calls(3);
    let mut in_turn = with_calls(3);
    let mut dead = Vec::new();
    for i in 0..3 {
        in_turn.receive_from(i, &inbox[i], &mut dead);
    }
    assert_eq!(dead, vec![0, 2]);
    assert_eq!(at_once.receive(&inbox), dead);
    for i in 0..3 {
        assert_eq!(in_turn.servers[i].state, at_once.servers[i].state);
        assert_eq!(in_turn.servers[i].dbs, at_once.servers[i].dbs);
    }
    assert_eq!(in_turn.servers[1].state, ServerState::Active);
    assert_eq!(in_turn.servers[2].dbs, vec![8]);
}
