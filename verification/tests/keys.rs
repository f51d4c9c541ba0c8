use stellar_guesser::enums::{GameStage, Inputs};
use stellar_guesser::input::{input_action, HeldKeys, InputAction, Key, KeyCombination, KeyEvent, KeyResponse, ZoomStep};

fn press(key: Key) -> KeyEvent {
    KeyEvent { key, pressed: true, repeat: false, alt: false, ctrl: false, shift: false, mac_cmd: false, command: false }
}

fn release(key: Key) -> KeyEvent {
    KeyEvent { pressed: false, ..press(key) }
}

fn alt_shift(key: Key) -> KeyEvent {
    KeyEvent { alt: true, shift: true, ..press(key) }
}

fn nothing() -> KeyResponse {
    KeyResponse { zoom: None, nudge_x: 0, nudge_y: 0, fired: None, typed: None }
}

#[test]
fn shift_arrows_zoom_and_arrows_nudge() {
    let mut held = HeldKeys::new();
    let shift_up = KeyEvent { shift: true, ..press(Key::ArrowUp) };
    assert_eq!(held.handle_key(shift_up, false, false).zoom, Some(ZoomStep::In));
    let shift_down = KeyEvent { shift: true, ..press(Key::ArrowDown) };
    assert_eq!(held.handle_key(shift_down, false, false).zoom, Some(ZoomStep::Out));
    // a repeated Shift+Up nudges instead of zooming
    let repeated = KeyEvent { repeat: true, ..shift_up };
    assert_eq!(held.handle_key(repeated, false, false), KeyResponse { nudge_y: -1, ..nothing() });
    assert_eq!(held.handle_key(press(Key::ArrowLeft), false, false), KeyResponse { nudge_x: -1, ..nothing() });
    assert_eq!(held.handle_key(press(Key::ArrowRight), false, false), KeyResponse { nudge_x: 1, ..nothing() });
    assert_eq!(held.handle_key(press(Key::ArrowDown), false, false), KeyResponse { nudge_y: 1, ..nothing() });
    assert_eq!(held.handle_key(release(Key::ArrowDown), false, false), nothing());
}

#[test]
fn alt_shift_combinations_fire_once_while_held() {
    let mut held = HeldKeys::new();
    let i = alt_shift(Key::Letter('i'));
    assert_eq!(held.handle_key(i, false, false).fired, Some(Inputs::AltShiftI));
    assert!(held.is_held(KeyCombination::AltShiftI));
    assert_eq!(held.handle_key(i, false, false).fired, None);
    held.handle_key(release(Key::Letter('i')), false, false);
    assert!(!held.is_held(KeyCombination::AltShiftI));
    assert_eq!(held.handle_key(i, false, false).fired, Some(Inputs::AltShiftI));
    assert_eq!(held.handle_key(alt_shift(Key::Letter('o')), false, false).fired, Some(Inputs::AltShiftO));
    assert_eq!(held.handle_key(alt_shift(Key::Letter('s')), false, false).fired, Some(Inputs::AltShiftS));
    // Alt+Shift+G fires nothing and a plain I neither
    assert_eq!(held.handle_key(alt_shift(Key::Letter('g')), false, false), nothing());
    assert_eq!(held.handle_key(press(Key::Letter('i')), false, false), nothing());
}

#[test]
fn space_fires_once_while_held() {
    let mut held = HeldKeys::new();
    assert_eq!(held.handle_key(press(Key::Space), false, false).fired, Some(Inputs::Space));
    let repeated = KeyEvent { repeat: true, ..press(Key::Space) };
    assert_eq!(held.handle_key(repeated, false, false).fired, None);
    held.handle_key(release(Key::Space), false, false);
    assert_eq!(held.handle_key(press(Key::Space), false, false).fired, Some(Inputs::Space));
}

#[test]
fn touch_keyboard_types_characters() {
    let mut held = HeldKeys::new();
    assert_eq!(held.handle_key(press(Key::Letter('m')), true, true).typed, Some('m'));
    let shifted = KeyEvent { shift: true, ..press(Key::Letter('m')) };
    assert_eq!(held.handle_key(shifted, true, true).typed, Some('M'));
    assert_eq!(held.handle_key(press(Key::Digit('3')), true, true).typed, Some('3'));
    let shifted_digit = KeyEvent { shift: true, ..press(Key::Digit('3')) };
    assert_eq!(held.handle_key(shifted_digit, true, true).typed, Some('3'));
    assert_eq!(held.handle_key(press(Key::Symbol('(')), true, true).typed, Some('('));
    assert_eq!(held.handle_key(press(Key::Enter), true, true).typed, Some('\n'));
    assert_eq!(held.handle_key(press(Key::Other), true, true), nothing());
    // while typing, Space types a space and fires nothing
    assert_eq!(held.handle_key(press(Key::Space), true, true), KeyResponse { typed: Some(' '), ..nothing() });
    // outside a text field it does both
    assert_eq!(
        held.handle_key(press(Key::Space), true, false),
        KeyResponse { typed: Some(' '), fired: Some(Inputs::Space), ..nothing() }
    );
    // with Ctrl held nothing is typed
    let ctrl = KeyEvent { ctrl: true, ..press(Key::Letter('m')) };
    assert_eq!(held.handle_key(ctrl, true, true), nothing());
    // without a touch keyboard nothing is typed
    assert_eq!(held.handle_key(press(Key::Letter('m')), false, false), nothing());
}

#[test]
fn actions_of_fired_inputs() {
    assert_eq!(input_action(Inputs::AltShiftI, false, false, GameStage::Guessing, false), InputAction::ToggleAppInfo);
    assert_eq!(input_action(Inputs::AltShiftO, false, false, GameStage::Guessing, false), InputAction::ToggleSettings);
    assert_eq!(input_action(Inputs::AltShiftS, false, false, GameStage::Guessing, false), InputAction::ToggleStats);
    assert_eq!(input_action(Inputs::Space, false, false, GameStage::Checked, true), InputAction::NextPart);
    assert_eq!(input_action(Inputs::Space, false, false, GameStage::Guessing, false), InputAction::NextPart);
    assert_eq!(input_action(Inputs::Space, false, false, GameStage::Guessing, true), InputAction::Nothing);
    assert_eq!(input_action(Inputs::Space, true, false, GameStage::Checked, false), InputAction::Nothing);
    assert_eq!(input_action(Inputs::MouseMiddle, true, false, GameStage::Checked, false), InputAction::NextPart);
    assert_eq!(input_action(Inputs::MouseMiddle, false, true, GameStage::Checked, false), InputAction::Nothing);
    assert_eq!(input_action(Inputs::MouseMiddle, false, false, GameStage::NoMoreQuestions, false), InputAction::Nothing);
    assert_eq!(input_action(Inputs::Space, true, false, GameStage::NotStartedYet, false), InputAction::Nothing);
}
