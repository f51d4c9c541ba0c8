//! Which key combinations are held down, so that holding one fires its
//! action once rather than on every repeated key event.

use vstd::prelude::*;
use crate::enums::{GameStage, Inputs};

verus! {

/// The key combinations that are tracked while held.
#[derive(Clone, Copy, PartialEq, Eq, Structural, Debug)]
pub enum KeyCombination {
    AltShiftG,
    AltShiftI,
    AltShiftO,
    AltShiftS,
    MouseMiddle,
    Space,
}

/// The slot of a combination in the table of held combinations.
pub open spec fn slot(c: KeyCombination) -> int {
    match c {
        KeyCombination::AltShiftG => 0,
        KeyCombination::AltShiftI => 1,
        KeyCombination::AltShiftO => 2,
        KeyCombination::AltShiftS => 3,
        KeyCombination::MouseMiddle => 4,
        KeyCombination::Space => 5,
    }
}

fn slot_of(c: KeyCombination) -> (r: usize)
    ensures
        r == slot(c),
        r < 6,
{
    match c {
        KeyCombination::AltShiftG => 0,
        KeyCombination::AltShiftI => 1,
        KeyCombination::AltShiftO => 2,
        KeyCombination::AltShiftS => 3,
        KeyCombination::MouseMiddle => 4,
        KeyCombination::Space => 5,
    }
}

/// The action a combination fires, if it fires one.
pub open spec fn spec_input_for(c: KeyCombination) -> Option<Inputs> {
    match c {
        KeyCombination::AltShiftG => None,
        KeyCombination::AltShiftI => Some(Inputs::AltShiftI),
        KeyCombination::AltShiftO => Some(Inputs::AltShiftO),
        KeyCombination::AltShiftS => Some(Inputs::AltShiftS),
        KeyCombination::MouseMiddle => Some(Inputs::MouseMiddle),
        KeyCombination::Space => Some(Inputs::Space),
    }
}

/// The action that pressing `c` fires.
pub fn input_for(c: KeyCombination) -> (r: Option<Inputs>)
    ensures
        r == spec_input_for(c),
{
    match c {
        KeyCombination::AltShiftG => None,
        KeyCombination::AltShiftI => Some(Inputs::AltShiftI),
        KeyCombination::AltShiftO => Some(Inputs::AltShiftO),
        KeyCombination::AltShiftS => Some(Inputs::AltShiftS),
        KeyCombination::MouseMiddle => Some(Inputs::MouseMiddle),
        KeyCombination::Space => Some(Inputs::Space),
    }
}

/// Which of the tracked combinations are held down.
pub struct HeldKeys {
    held: [bool; 6],
}

impl View for HeldKeys {
    type V = Set<KeyCombination>;

    /// The set of combinations held down.
    closed spec fn view(&self) -> Set<KeyCombination> {
        Set::new(|c: KeyCombination| self.held@[slot(c)])
    }
}

impl HeldKeys {
    /// Nothing held down.
    pub fn new() -> (r: HeldKeys)
        ensures
            r@ == Set::<KeyCombination>::empty(),
    {
        let r = HeldKeys { held: [false; 6] };
        assert(r@ =~= Set::<KeyCombination>::empty());
        r
    }

    /// Whether `c` is held down.
    pub fn is_held(&self, c: KeyCombination) -> (r: bool)
        ensures
            r == self@.contains(c),
    {
        self.held[slot_of(c)]
    }

    /// A press of `c`: it is held from now on, and the press fires its
    /// action only if `c` was not held already.
    pub fn press(&mut self, c: KeyCombination) -> (fired: bool)
        ensures
            fired == !old(self)@.contains(c),
            final(self)@ == old(self)@.insert(c),
    {
        let i = slot_of(c);
        let fired = !self.held[i];
        self.held[i] = true;
        assert(self@ =~= old(self)@.insert(c));
        fired
    }

    /// A release of `c`: it is no longer held.
    pub fn release(&mut self, c: KeyCombination)
        ensures
            final(self)@ == old(self)@.remove(c),
    {
        let i = slot_of(c);
        self.held[i] = false;
        assert(self@ =~= old(self)@.remove(c));
    }

    /// A button seen down or up this frame: its action fires when it goes
    /// down, and it is no longer held once it is up.
    pub fn update(&mut self, c: KeyCombination, down: bool) -> (fired: bool)
        ensures
            fired == (down && !old(self)@.contains(c)),
            final(self)@ == (if down {
                old(self)@.insert(c)
            } else {
                old(self)@.remove(c)
            }),
    {
        if down {
            self.press(c)
        } else {
            self.release(c);
            false
        }
    }
}

/// A key of the keyboard, as far as the sky view tells keys apart.
#[derive(Clone, Copy, PartialEq, Eq, Structural, Debug)]
pub enum Key {
    ArrowUp,
    ArrowDown,
    ArrowLeft,
    ArrowRight,
    Space,
    Enter,
    /// A letter key, by its lower-case letter `a`..`z`.
    Letter(char),
    /// A digit key, by its digit `0`..`9`.
    Digit(char),
    /// A key that types one of ``- + = , . : ; ? ` ' | / \ ( )``.
    Symbol(char),
    /// Any other key: function keys, editing and navigation keys.
    Other,
}

/// A key going down or up, with the modifiers held at that moment.
#[derive(Clone, Copy, PartialEq, Eq, Structural, Debug)]
pub struct KeyEvent {
    pub key: Key,
    pub pressed: bool,
    pub repeat: bool,
    pub alt: bool,
    pub ctrl: bool,
    pub shift: bool,
    pub mac_cmd: bool,
    pub command: bool,
}

/// A zoom step asked for from the keyboard.
#[derive(Clone, Copy, PartialEq, Eq, Structural, Debug)]
pub enum ZoomStep {
    In,
    Out,
}

/// What one key event does: a zoom step, a nudge of the view by whole
/// steps, an action fired, a typed character.
#[derive(Clone, Copy, PartialEq, Eq, Structural, Debug)]
pub struct KeyResponse {
    pub zoom: Option<ZoomStep>,
    pub nudge_x: i8,
    pub nudge_y: i8,
    pub fired: Option<Inputs>,
    pub typed: Option<char>,
}

pub open spec fn no_response() -> KeyResponse {
    KeyResponse { zoom: None, nudge_x: 0, nudge_y: 0, fired: None, typed: None }
}

/// The character that a key types on a touch device's keyboard, if any.
pub open spec fn key_char(k: Key) -> Option<char> {
    match k {
        Key::Enter => Some('\n'),
        Key::Space => Some(' '),
        Key::Letter(c) | Key::Digit(c) | Key::Symbol(c) => Some(c),
        _ => None,
    }
}

/// The upper-case form of an ASCII letter; other characters stay.
pub open spec fn shifted(c: char) -> char {
    if 'a' <= c <= 'z' {
        ((c as u32) - 32) as char
    } else {
        c
    }
}

/// Whether the key is one the enumeration describes: letters lower-case,
/// digits, and the punctuation keys.
pub open spec fn key_wf(k: Key) -> bool {
    match k {
        Key::Letter(c) => 'a' <= c <= 'z',
        Key::Digit(c) => '0' <= c <= '9',
        Key::Symbol(c) => c == '-' || c == '+' || c == '=' || c == ',' || c == '.' || c == ':' || c == ';' || c == '?' || c
            == '`' || c == '\'' || c == '|' || c == '/' || c == '\\' || c == '(' || c == ')',
        _ => true,
    }
}

/// The combination that the release of a key lets go of.
pub open spec fn released_combination(k: Key) -> Option<KeyCombination> {
    match k {
        Key::Letter('g') => Some(KeyCombination::AltShiftG),
        Key::Letter('i') => Some(KeyCombination::AltShiftI),
        Key::Letter('o') => Some(KeyCombination::AltShiftO),
        Key::Letter('s') => Some(KeyCombination::AltShiftS),
        Key::Space => Some(KeyCombination::Space),
        _ => None,
    }
}

/// The combination that a key pressed with Alt and Shift makes.
pub open spec fn alt_shift_combination(k: Key) -> Option<KeyCombination> {
    match k {
        Key::Letter('i') => Some(KeyCombination::AltShiftI),
        Key::Letter('o') => Some(KeyCombination::AltShiftO),
        Key::Letter('s') => Some(KeyCombination::AltShiftS),
        _ => None,
    }
}

/// A press of combination `c`: its action fires unless it is held already.
pub open spec fn fire_once(held: Set<KeyCombination>, c: KeyCombination) -> (Option<Inputs>, Set<KeyCombination>) {
    if held.contains(c) {
        (None, held)
    } else {
        (spec_input_for(c), held.insert(c))
    }
}

/// What a key event does, and which combinations are held after it. The
/// first rule that applies decides: Shift with the up or down arrow zooms in
/// or out; the arrows nudge the view; Alt+Shift+I, O or S fire their actions;
/// on a touch device an unmodified key types its character (Space, when no
/// text field has the focus, fires too); Space fires; releasing a key lets
/// go of its combination.
pub open spec fn key_effect(held: Set<KeyCombination>, e: KeyEvent, touch_keyboard: bool, typing: bool) -> (KeyResponse, Set<KeyCombination>) {
    let none = no_response();
    if !e.pressed {
        match released_combination(e.key) {
            Some(c) => (none, held.remove(c)),
            None => (none, held),
        }
    } else if e.key == Key::ArrowUp && !e.repeat && e.shift {
        (KeyResponse { zoom: Some(ZoomStep::In), ..none }, held)
    } else if e.key == Key::ArrowDown && !e.repeat && e.shift {
        (KeyResponse { zoom: Some(ZoomStep::Out), ..none }, held)
    } else if e.key == Key::ArrowLeft {
        (KeyResponse { nudge_x: -1i8, ..none }, held)
    } else if e.key == Key::ArrowRight {
        (KeyResponse { nudge_x: 1, ..none }, held)
    } else if e.key == Key::ArrowUp {
        (KeyResponse { nudge_y: -1i8, ..none }, held)
    } else if e.key == Key::ArrowDown {
        (KeyResponse { nudge_y: 1, ..none }, held)
    } else if !e.repeat && e.alt && e.shift && alt_shift_combination(e.key) is Some {
        let (fired, after) = fire_once(held, alt_shift_combination(e.key)->0);
        (KeyResponse { fired, ..none }, after)
    } else if touch_keyboard && !e.repeat && !e.alt && !e.ctrl && !e.mac_cmd && !e.command {
        let typed = match key_char(e.key) {
            Some(c) => Some(if e.shift { shifted(c) } else { c }),
            None => None,
        };
        if e.key == Key::Space && !typing {
            let (fired, after) = fire_once(held, KeyCombination::Space);
            (KeyResponse { fired, typed, ..none }, after)
        } else {
            (KeyResponse { typed, ..none }, held)
        }
    } else if e.key == Key::Space {
        let (fired, after) = fire_once(held, KeyCombination::Space);
        (KeyResponse { fired, ..none }, after)
    } else {
        (none, held)
    }
}

/// The upper-case form of an ASCII letter; other characters stay.
fn shift_char(c: char) -> (r: char)
    ensures
        r == shifted(c),
{
    if 'a' <= c && c <= 'z' {
        let b: u8 = (c as u8) - 32;
        b as char
    } else {
        c
    }
}

impl HeldKeys {
    /// A press of `c`, reported as the action it fires, if any.
    fn fire(&mut self, c: KeyCombination) -> (fired: Option<Inputs>)
        ensures
            (fired, final(self)@) == fire_once(old(self)@, c),
    {
        if self.is_held(c) {
            None
        } else {
            self.press(c);
            input_for(c)
        }
    }

    /// Handles one key event: `touch_keyboard` says whether keys type text
    /// (on touch devices), `typing` whether a text field has the focus.
    pub fn handle_key(&mut self, e: KeyEvent, touch_keyboard: bool, typing: bool) -> (r: KeyResponse)
        requires
            key_wf(e.key),
        ensures
            (r, final(self)@) == key_effect(old(self)@, e, touch_keyboard, typing),
    {
        let none = KeyResponse { zoom: None, nudge_x: 0, nudge_y: 0, fired: None, typed: None };
        if !e.pressed {
            let released = match e.key {
                Key::Letter('g') => Some(KeyCombination::AltShiftG),
                Key::Letter('i') => Some(KeyCombination::AltShiftI),
                Key::Letter('o') => Some(KeyCombination::AltShiftO),
                Key::Letter('s') => Some(KeyCombination::AltShiftS),
                Key::Space => Some(KeyCombination::Space),
                _ => None,
            };
            if let Some(c) = released {
                self.release(c);
            }
            return none;
        }
        let up = matches!(e.key, Key::ArrowUp);
        let down = matches!(e.key, Key::ArrowDown);
        if up && !e.repeat && e.shift {
            return KeyResponse { zoom: Some(ZoomStep::In), ..none };
        }
        if down && !e.repeat && e.shift {
            return KeyResponse { zoom: Some(ZoomStep::Out), ..none };
        }
        match e.key {
            Key::ArrowLeft => return KeyResponse { nudge_x: -1, ..none },
            Key::ArrowRight => return KeyResponse { nudge_x: 1, ..none },
            Key::ArrowUp => return KeyResponse { nudge_y: -1, ..none },
            Key::ArrowDown => return KeyResponse { nudge_y: 1, ..none },
            _ => {},
        }
        let combination = match e.key {
            Key::Letter('i') => Some(KeyCombination::AltShiftI),
            Key::Letter('o') => Some(KeyCombination::AltShiftO),
            Key::Letter('s') => Some(KeyCombination::AltShiftS),
            _ => None,
        };
        if !e.repeat && e.alt && e.shift {
            if let Some(c) = combination {
                let fired = self.fire(c);
                return KeyResponse { fired, ..none };
            }
        }
        let is_space = matches!(e.key, Key::Space);
        if touch_keyboard && !e.repeat && !e.alt && !e.ctrl && !e.mac_cmd && !e.command {
            let plain = match e.key {
                Key::Enter => Some('\n'),
                Key::Space => Some(' '),
                Key::Letter(c) | Key::Digit(c) | Key::Symbol(c) => Some(c),
                _ => None,
            };
            let typed = match plain {
                Some(c) => Some(if e.shift { shift_char(c) } else { c }),
                None => None,
            };
            if is_space && !typing {
                let fired = self.fire(KeyCombination::Space);
                return KeyResponse { fired, typed, ..none };
            }
            return KeyResponse { typed, ..none };
        }
        if is_space {
            let fired = self.fire(KeyCombination::Space);
            return KeyResponse { fired, ..none };
        }
        none
    }
}

/// What an action fired from the keyboard or mouse does in the application.
#[derive(Clone, Copy, PartialEq, Eq, Structural, Debug)]
pub enum InputAction {
    ToggleAppInfo,
    ToggleSettings,
    ToggleStats,
    /// Go on to the next part of the current question: check the answer,
    /// or move to the next question.
    NextPart,
    Nothing,
}

/// Whether Space or the middle mouse button, handled now, would reach a game
/// that has not started, where it has nothing to go on to.
pub open spec fn advances_unstarted(input: Inputs, wants_keyboard: bool, no_more_questions: bool, stage: GameStage) -> bool {
    &&& (input == Inputs::MouseMiddle || (input == Inputs::Space && !wants_keyboard))
    &&& !no_more_questions
    &&& stage == GameStage::NotStartedYet
}

/// What a fired action does: Alt+Shift+I, O and S toggle the information,
/// settings and statistics windows; Space (unless a text field takes the
/// keyboard) and the middle button go on to the next part of a question
/// while there are questions, in the checking stage or while guessing on a
/// question that takes no typed answer.
pub open spec fn spec_input_action(input: Inputs, wants_keyboard: bool, no_more_questions: bool, stage: GameStage, displays_input: bool) -> InputAction {
    match input {
        Inputs::AltShiftI => InputAction::ToggleAppInfo,
        Inputs::AltShiftO => InputAction::ToggleSettings,
        Inputs::AltShiftS => InputAction::ToggleStats,
        Inputs::Space | Inputs::MouseMiddle => {
            if input == Inputs::Space && wants_keyboard {
                InputAction::Nothing
            } else if !no_more_questions && ((stage == GameStage::Guessing && !displays_input) || stage == GameStage::Checked) {
                InputAction::NextPart
            } else {
                InputAction::Nothing
            }
        },
    }
}

/// The effect of a fired action on the application.
pub fn input_action(input: Inputs, wants_keyboard: bool, no_more_questions: bool, stage: GameStage, displays_input: bool) -> (r: InputAction)
    requires
        !advances_unstarted(input, wants_keyboard, no_more_questions, stage),
    ensures
        r == spec_input_action(input, wants_keyboard, no_more_questions, stage, displays_input),
{
    match input {
        Inputs::AltShiftI => InputAction::ToggleAppInfo,
        Inputs::AltShiftO => InputAction::ToggleSettings,
        Inputs::AltShiftS => InputAction::ToggleStats,
        Inputs::Space | Inputs::MouseMiddle => {
            if matches!(input, Inputs::Space) && wants_keyboard {
                return InputAction::Nothing;
            }
            if no_more_questions {
                return InputAction::Nothing;
            }
            match stage {
                GameStage::Guessing => if displays_input {
                    InputAction::Nothing
                } else {
                    InputAction::NextPart
                },
                GameStage::Checked => InputAction::NextPart,
                _ => InputAction::Nothing,
            }
        },
    }
}

/// Holding a combination fires its action once: after a press, a second
/// press fires nothing until a release, and a press after a release fires
/// again. Other combinations are not affected.
pub proof fn lemma_press_fires_once(held: Set<KeyCombination>, c: KeyCombination, d: KeyCombination)
    ensures
        held.insert(c).contains(c),
        !held.insert(c).remove(c).contains(c),
        d != c ==> (held.insert(c).contains(d) == held.contains(d) && held.remove(c).contains(d) == held.contains(d)),
{
}

/// A key held down fires its action once: the same press arriving again,
/// as it does while the key is held, fires nothing.
pub proof fn lemma_held_key_fires_once(held: Set<KeyCombination>, e: KeyEvent, touch_keyboard: bool, typing: bool)
    ensures
        key_effect(key_effect(held, e, touch_keyboard, typing).1, e, touch_keyboard, typing).0.fired is None,
{
}

/// Once the key is let go, the same press fires its action again.
pub proof fn lemma_released_key_fires_again(held: Set<KeyCombination>, e: KeyEvent, touch_keyboard: bool, typing: bool)
    requires
        key_effect(held, e, touch_keyboard, typing).0.fired is Some,
    ensures
        ({
            let after_press = key_effect(held, e, touch_keyboard, typing).1;
            let release = KeyEvent { pressed: false, ..e };
            let after_release = key_effect(after_press, release, touch_keyboard, typing).1;
            key_effect(after_release, e, touch_keyboard, typing).0.fired == key_effect(held, e, touch_keyboard, typing).0.fired
        }),
{
}

} // verus!
