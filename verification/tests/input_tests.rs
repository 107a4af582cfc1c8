use foundry::delegator::{ElementState, InputBuffer, InputBufferRef};

#[test]
fn press_then_release() {
    let mut input = InputBuffer::new();
    input.handle_keyboard_event(Some(30), ElementState::Pressed);
    assert!(input.get_key(30));
    assert!(input.get_key_down(30));
    assert!(!input.get_key_up(30));
    input.handle_keyboard_event(Some(31), ElementState::Pressed);
    input.handle_keyboard_event(Some(31), ElementState::Released);
    assert!(input.get_key(30));
    input.handle_keyboard_event(Some(30), ElementState::Released);
    assert!(!input.get_key(30));
    assert!(input.get_key_down(30));
    assert!(input.get_key_up(30));
}

#[test]
fn event_without_code_changes_nothing() {
    let mut input = InputBuffer::default();
    input.handle_keyboard_event(None, ElementState::Pressed);
    assert!(!input.get_key(0));
    assert!(!input.get_key_down(0));
}

#[test]
fn clearing_keeps_held_keys() {
    let mut input = InputBuffer::new();
    input.handle_keyboard_event(Some(1), ElementState::Pressed);
    input.handle_keyboard_event(Some(2), ElementState::Pressed);
    input.handle_keyboard_event(Some(2), ElementState::Released);
    input.clear_discrete_inputs();
    assert!(input.get_key(1));
    assert!(!input.get_key(2));
    assert!(!input.get_key_down(1));
    assert!(!input.get_key_up(2));
}

#[test]
fn snapshot_copies_every_set() {
    let mut input = InputBuffer::new();
    input.handle_keyboard_event(Some(4), ElementState::Pressed);
    input.handle_keyboard_event(Some(5), ElementState::Released);
    let mut shared = InputBufferRef::new();
    assert!(!shared.get_key(4));
    shared.copy_local(&input);
    assert!(shared.get_key(4));
    assert!(shared.get_key_down(4));
    assert!(shared.get_key_up(5));
    input.clear_discrete_inputs();
    assert!(shared.get_key_down(4));
    let copy = input.snapshot();
    assert!(copy.get_key(4));
    assert!(!copy.get_key_down(4));
}

#[test]
fn a_key_event_leaves_other_keys_alone() {
    let mut b = InputBuffer::new();
    b.handle_keyboard_event(Some(1), ElementState::Pressed);
    b.handle_keyboard_event(Some(2), ElementState::Pressed);
    b.clear_discrete_inputs();
    b.handle_keyboard_event(Some(2), ElementState::Released);
    assert!(b.get_key(1));
    assert!(!b.get_key_down(1));
    assert!(!b.get_key_up(1));
    assert!(!b.get_key(2));
    assert!(b.get_key_up(2));
    assert!(!b.get_key_down(2));
}
