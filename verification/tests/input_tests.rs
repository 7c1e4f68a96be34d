use rengine::input_map::{InputError, InputMap};
use rengine::keyboard::{transition, IdlePolicy, KeySignal, KeyState, KeyboardInput};
use rengine::keyboard::IdlePolicy::{ImplicitUp, TreatAsHeld};
use rengine::keyboard::KeySignal::{Down, Idle, Repeat, Up};
use rengine::keyboard::KeyState::{JustPressed, JustReleased, Pressed, Released};

#[test]
fn edge_sequence_scenario() {
    // Hardware signals [down, repeat, repeat, up, none] must yield
    // [JustPressed, Pressed, Pressed, JustReleased, Released].
    let mut map = InputMap::new().add_action("jump", KeyboardInput::new(32));
    let signals = [
        KeySignal::Down,
        KeySignal::Repeat,
        KeySignal::Repeat,
        KeySignal::Up,
        KeySignal::Idle,
    ];
    let mut observed = Vec::new();
    for signal in signals {
        map.advance_action("jump", signal).unwrap();
        let jp = map.is_action_just_pressed("jump").unwrap();
        let held = map.is_action_held("jump").unwrap();
        let jr = map.is_action_just_released("jump").unwrap();
        observed.push((jp, held, jr));
    }
    assert_eq!(
        observed,
        vec![
            (true, true, false),   // JustPressed
            (false, true, false),  // Pressed
            (false, true, false),  // Pressed
            (false, false, true),  // JustReleased
            (false, false, false), // Released
        ]
    );
}

#[test]
fn queries_do_not_advance_state() {
    let mut map = InputMap::new().add_action("fire", KeyboardInput::new(57));
    map.advance_action("fire", KeySignal::Down).unwrap();
    // However often a frame asks, the edge stays up until the next advance.
    for _ in 0..5 {
        assert!(map.is_action_just_pressed("fire").unwrap());
    }
    map.advance_action("fire", KeySignal::Down).unwrap();
    assert!(!map.is_action_just_pressed("fire").unwrap());
    assert!(map.is_action_held("fire").unwrap());
}

#[test]
fn idle_policy_implicit_up() {
    let mut map = InputMap::new_with_policy(IdlePolicy::ImplicitUp)
        .add_action("up", KeyboardInput::new(87));
    map.advance_action("up", KeySignal::Down).unwrap();
    map.advance_action("up", KeySignal::Idle).unwrap();
    // No signal counts as a release: the edge fires.
    assert!(map.is_action_just_released("up").unwrap());
    assert!(!map.is_action_held("up").unwrap());
    map.advance_action("up", KeySignal::Idle).unwrap();
    assert!(!map.is_action_just_released("up").unwrap());
}

#[test]
fn idle_policy_treat_as_held() {
    let mut map = InputMap::new_with_policy(IdlePolicy::TreatAsHeld)
        .add_action("up", KeyboardInput::new(87));
    map.advance_action("up", KeySignal::Down).unwrap();
    map.advance_action("up", KeySignal::Idle).unwrap();
    // No signal keeps the key held; no release edge fires.
    assert!(map.is_action_held("up").unwrap());
    assert!(!map.is_action_just_released("up").unwrap());
    map.advance_action("up", KeySignal::Up).unwrap();
    assert!(map.is_action_just_released("up").unwrap());
}

#[test]
fn unknown_action_is_a_lookup_error() {
    let mut map = InputMap::new().add_action("up", KeyboardInput::new(87));
    assert_eq!(map.is_action_just_pressed("down"), Err(InputError::UnknownAction));
    assert_eq!(map.is_action_held("down"), Err(InputError::UnknownAction));
    assert_eq!(map.is_action_just_released("down"), Err(InputError::UnknownAction));
    assert_eq!(map.advance_action("down", KeySignal::Down), Err(InputError::UnknownAction));
    assert_eq!(map.action_key("down"), Err(InputError::UnknownAction));
}

#[test]
fn add_action_overwrites_same_name() {
    let map = InputMap::new()
        .add_action("up", KeyboardInput::new(1))
        .add_action("up", KeyboardInput::new(2));
    assert_eq!(map.len(), 1);
    assert_eq!(map.action_key("up"), Ok(2));
}

#[test]
fn builder_binds_the_startup_action_set() {
    let map = InputMap::new()
        .add_action("up", KeyboardInput::new(87))
        .add_action("down", KeyboardInput::new(83))
        .add_action("left", KeyboardInput::new(65))
        .add_action("right", KeyboardInput::new(68))
        .add_action("ok", KeyboardInput::new(257))
        .add_action("cancel", KeyboardInput::new(256));
    assert_eq!(map.len(), 6);
    assert_eq!(map.action_key("left"), Ok(65));
    assert_eq!(map.action_key("cancel"), Ok(256));
    assert_eq!(map.name_at_index(0), "up".to_string());
    assert_eq!(map.name_at_index(5), "cancel".to_string());
}

#[test]
fn transition_table() {
    for pol in [ImplicitUp, TreatAsHeld] {
        // Down: an edge out of any released state, level otherwise.
        assert_eq!(transition(Released, Down, pol), JustPressed);
        assert_eq!(transition(JustReleased, Down, pol), JustPressed);
        assert_eq!(transition(JustPressed, Down, pol), Pressed);
        assert_eq!(transition(Pressed, Down, pol), Pressed);
        // Repeat: held, no edge.
        assert_eq!(transition(Released, Repeat, pol), Pressed);
        assert_eq!(transition(JustPressed, Repeat, pol), Pressed);
        assert_eq!(transition(Pressed, Repeat, pol), Pressed);
        assert_eq!(transition(JustReleased, Repeat, pol), Pressed);
        // Up: an edge out of any held state, level otherwise.
        assert_eq!(transition(Pressed, Up, pol), JustReleased);
        assert_eq!(transition(JustPressed, Up, pol), JustReleased);
        assert_eq!(transition(Released, Up, pol), Released);
        assert_eq!(transition(JustReleased, Up, pol), Released);
    }
    // Idle differs per policy on held states only.
    assert_eq!(transition(Pressed, Idle, ImplicitUp), JustReleased);
    assert_eq!(transition(JustPressed, Idle, ImplicitUp), JustReleased);
    assert_eq!(transition(Pressed, Idle, TreatAsHeld), Pressed);
    assert_eq!(transition(JustPressed, Idle, TreatAsHeld), Pressed);
    for pol in [ImplicitUp, TreatAsHeld] {
        assert_eq!(transition(Released, Idle, pol), Released);
        assert_eq!(transition(JustReleased, Idle, pol), Released);
    }
}

#[test]
fn new_binding_starts_released() {
    let binding = KeyboardInput::new(10);
    assert_eq!(binding.state, KeyState::Released);
    assert_eq!(binding.key, 10);
    assert!(!binding.is_just_pressed());
    assert!(!binding.is_held());
    assert!(!binding.is_just_released());
}
