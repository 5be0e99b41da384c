use rogun_engine::input::{steer, InputSystem, KeyCode, KeyEvent, LRKeys, Steer};

const A: KeyCode = KeyCode(1);
const D: KeyCode = KeyCode(4);

fn press(k: KeyCode) -> KeyEvent {
    KeyEvent { key_code: Some(k), pressed: true }
}

fn release(k: KeyCode) -> KeyEvent {
    KeyEvent { key_code: Some(k), pressed: false }
}

#[test]
fn both_keys_held_gives_no_push() {
    let mut input = InputSystem::new();
    let bindings = vec![LRKeys { key_l: A, key_r: D }];
    let r = input.process_input(&vec![press(A), press(D)], &bindings);
    assert_eq!(r, vec![Steer::Idle]);
    assert_eq!(r[0].direction(), 0);
}

#[test]
fn one_key_held_pushes_its_way() {
    let mut input = InputSystem::new();
    let bindings = vec![LRKeys { key_l: A, key_r: D }];
    assert_eq!(input.process_input(&vec![press(D)], &bindings), vec![Steer::Right]);
    assert_eq!(input.process_input(&vec![release(D), press(A)], &bindings), vec![Steer::Left]);
    assert_eq!(input.process_input(&vec![release(A)], &bindings), vec![Steer::Idle]);
}

#[test]
fn steer_table() {
    assert_eq!(steer(false, false), Steer::Idle);
    assert_eq!(steer(true, true), Steer::Idle);
    assert_eq!(steer(true, false), Steer::Left);
    assert_eq!(steer(false, true), Steer::Right);
    assert_eq!(Steer::Left.direction(), -1);
    assert_eq!(Steer::Right.direction(), 1);
}

#[test]
fn just_pressed_lasts_one_tick() {
    let mut input = InputSystem::new();
    input.update_input_state(&vec![press(A)]);
    assert!(input.is_key_down(A).unwrap().just_pressed);
    input.update_input_state(&vec![]);
    let k = input.is_key_down(A).unwrap();
    assert_eq!(k.key_code, A);
    assert!(!k.just_pressed);
}

#[test]
fn repeated_press_is_listed_once_and_release_removes() {
    let mut input = InputSystem::new();
    input.update_input_state(&vec![press(A), press(D), press(A)]);
    assert!(input.is_key_down(A).is_some());
    assert!(input.is_key_down(D).is_some());
    input.update_input_state(&vec![release(A)]);
    assert!(input.is_key_down(A).is_none());
    assert!(input.is_key_down(D).is_some());
    input.update_input_state(&vec![release(A), release(D)]);
    assert!(input.is_key_down(D).is_none());
}

#[test]
fn event_without_key_is_ignored() {
    let mut input = InputSystem::new();
    input.update_input_state(&vec![KeyEvent { key_code: None, pressed: true }]);
    assert!(input.is_key_down(KeyCode(0)).is_none());
}

#[test]
fn several_bindings_answer_in_order() {
    let mut input = InputSystem::new();
    let bindings = vec![
        LRKeys { key_l: A, key_r: D },
        LRKeys { key_l: KeyCode(10), key_r: KeyCode(11) },
        LRKeys { key_l: D, key_r: KeyCode(12) },
    ];
    let r = input.process_input(&vec![press(D)], &bindings);
    assert_eq!(r, vec![Steer::Right, Steer::Idle, Steer::Left]);
}
