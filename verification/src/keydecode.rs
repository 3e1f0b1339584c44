//! Trusted boundary to the `pc_keyboard` crate: the US-104 scancode-set-1
//! decoder that turns raw scancode bytes into key events and characters.
//! The decoder is a black-box collaborator; nothing is assumed about which
//! characters it produces, and the shell's verified logic handles every
//! character it may hand back.

use vstd::prelude::*;

verus! {

use pc_keyboard::{DecodedKey, HandleControl, KeyCode, KeyEvent, Keyboard, ScancodeSet1};
use pc_keyboard::layouts::Us104Key;

/// The decoder state of the keyboard, held opaquely: Verus sees nothing of
/// what is inside, and every use goes through the trusted wrappers below.
#[verifier::external_body]
pub struct KeyboardState {
    inner: Keyboard<Us104Key, ScancodeSet1>,
}

#[verifier::external_type_specification]
#[verifier::external_body]
pub struct ExScancodeSet1(ScancodeSet1);

#[verifier::external_type_specification]
#[verifier::external_body]
pub struct ExKeyEvent(KeyEvent);

#[verifier::external_type_specification]
#[verifier::external_body]
pub struct ExKeyCode(KeyCode);

/// One decoded key: either a Unicode character, or a non-character key,
/// which the shell ignores.
pub enum DecodedInput {
    Character(char),
    RawKey(KeyCode),
}

/// Relies on `pc_keyboard::ScancodeSet1::new`: a fresh scancode-set-1
/// decoder state.
#[verifier::external_body]
pub(crate) fn new_scancode_set1() -> ScancodeSet1 {
    ScancodeSet1::new()
}

/// Relies on `pc_keyboard::Keyboard::new`: a fresh keyboard decoder for the
/// US-104 layout that leaves control characters alone.
#[verifier::external_body]
pub(crate) fn new_keyboard(set: ScancodeSet1) -> KeyboardState {
    KeyboardState { inner: Keyboard::new(set, Us104Key, HandleControl::Ignore) }
}

/// Relies on `pc_keyboard::Keyboard::add_byte`: advances the decoder by one
/// raw scancode byte and possibly completes a key event.  A protocol error
/// yields no event, as in a decoder that drops malformed input.
#[verifier::external_body]
pub(crate) fn keyboard_add_byte(kb: &mut KeyboardState, code: u8) -> Option<KeyEvent> {
    match kb.inner.add_byte(code) {
        Ok(ev) => ev,
        Err(_) => None,
    }
}

/// Relies on `pc_keyboard::Keyboard::process_keyevent`: applies modifier
/// state and the US-104 layout to one key event, yielding a character or a
/// raw key.
#[verifier::external_body]
pub(crate) fn keyboard_process_keyevent(kb: &mut KeyboardState, ev: KeyEvent) -> Option<
    DecodedInput,
> {
    match kb.inner.process_keyevent(ev) {
        Some(DecodedKey::Unicode(c)) => Some(DecodedInput::Character(c)),
        Some(DecodedKey::RawKey(k)) => Some(DecodedInput::RawKey(k)),
        None => None,
    }
}

} // verus!
