//! The keystroke synthesis core: the pure translation table from a
//! recognized key back to the platform's virtual-key vocabulary. The
//! platform binding turns the code into an injected key-down/key-up pair;
//! a rejected injection is a `SynthesisFailure`, reported but non-fatal.

use vstd::prelude::*;

use crate::keyboard::KeyCode;
use crate::trace::key_of_virtual_code;

verus! {

/// Injecting a synthetic keystroke failed; the keystroke is lost, but
/// tracing and ranking continue unaffected.
#[derive(Clone, Copy, Debug, PartialEq, Eq, Structural)]
pub struct SynthesisFailure;

/// The platform virtual-key code of a recognized key: letters at their
/// standard codes (`A` is `0x41` through `Z` at `0x5A`), the punctuation
/// keys at their OEM codes.
pub open spec fn virtual_code_of_key(key: KeyCode) -> u16 {
    match key {
        KeyCode::Q => 0x51,
        KeyCode::W => 0x57,
        KeyCode::E => 0x45,
        KeyCode::R => 0x52,
        KeyCode::T => 0x54,
        KeyCode::Y => 0x59,
        KeyCode::U => 0x55,
        KeyCode::I => 0x49,
        KeyCode::O => 0x4F,
        KeyCode::P => 0x50,
        KeyCode::A => 0x41,
        KeyCode::S => 0x53,
        KeyCode::D => 0x44,
        KeyCode::F => 0x46,
        KeyCode::G => 0x47,
        KeyCode::H => 0x48,
        KeyCode::J => 0x4A,
        KeyCode::K => 0x4B,
        KeyCode::L => 0x4C,
        KeyCode::Semicolon => 0xBA,
        KeyCode::Z => 0x5A,
        KeyCode::X => 0x58,
        KeyCode::C => 0x43,
        KeyCode::V => 0x56,
        KeyCode::B => 0x42,
        KeyCode::N => 0x4E,
        KeyCode::M => 0x4D,
        KeyCode::Comma => 0xBC,
        KeyCode::Dot => 0xBE,
        KeyCode::Slash => 0xBF,
    }
}

/// The virtual-key code to synthesize for a recognized key.
pub fn virtual_key_of(key: KeyCode) -> (vk: u16)
    ensures
        vk == virtual_code_of_key(key),
{
    match key {
        KeyCode::Q => 0x51,
        KeyCode::W => 0x57,
        KeyCode::E => 0x45,
        KeyCode::R => 0x52,
        KeyCode::T => 0x54,
        KeyCode::Y => 0x59,
        KeyCode::U => 0x55,
        KeyCode::I => 0x49,
        KeyCode::O => 0x4F,
        KeyCode::P => 0x50,
        KeyCode::A => 0x41,
        KeyCode::S => 0x53,
        KeyCode::D => 0x44,
        KeyCode::F => 0x46,
        KeyCode::G => 0x47,
        KeyCode::H => 0x48,
        KeyCode::J => 0x4A,
        KeyCode::K => 0x4B,
        KeyCode::L => 0x4C,
        KeyCode::Semicolon => 0xBA,
        KeyCode::Z => 0x5A,
        KeyCode::X => 0x58,
        KeyCode::C => 0x43,
        KeyCode::V => 0x56,
        KeyCode::B => 0x42,
        KeyCode::N => 0x4E,
        KeyCode::M => 0x4D,
        KeyCode::Comma => 0xBC,
        KeyCode::Dot => 0xBE,
        KeyCode::Slash => 0xBF,
    }
}

/// Synthesis inverts tracing: the virtual-key code emitted for a key
/// normalizes back to exactly that key, so a synthesized keystroke is
/// recognized as the key it stands for.
pub proof fn lemma_virtual_code_round_trip()
    ensures
        forall|k: KeyCode| key_of_virtual_code(#[trigger] virtual_code_of_key(k)) == Some(k),
{
}

} // verus!
