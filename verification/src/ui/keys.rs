//! What a key pressed on the board does.
//!
//! W/A/S/D move the cursor, the arrows move the view, Minus zooms out and
//! Equal zooms in, Space or Enter hit the cursor, Escape opens the game
//! menu, Backspace (or Ctrl+Z) undoes and with Shift redoes, and Home and
//! End go to the first and last state.
use super::calc::Zoom;
use vstd::prelude::*;
use vstd::string::StringSliceAdditionalSpecFns;

verus! {

/// The command a key stands for.
#[derive(Clone, Copy, Debug, Eq, PartialEq, Structural)]
pub enum KeyCommand {
    /// Open the game menu.
    Menu,
    /// Move the cursor by the offset (or put one at the view centre).
    MoveCursor(i16, i16),
    /// Move the view by the offset.
    MoveView(i16, i16),
    /// Zoom.
    Zoom(Zoom),
    /// Undo the previous move.
    Undo,
    /// Redo the next move.
    Redo,
    /// Go to the state before the first move.
    Home,
    /// Go to the state after the last move.
    End,
    /// Hit the cursor (or put one at the view centre).
    Hit,
}

/// Whether the key code `code` is `name`.
pub open spec fn is_key(code: &str, name: &str) -> bool {
    code.spec_bytes() == name.spec_bytes()
}

/// The command of the key with the code `code`, `ctrl` and `shift` telling
/// whether those keys are held and `repeat` whether the key is held down:
/// `None` for keys that do nothing.
pub open spec fn key_spec(code: &str, ctrl: bool, shift: bool, repeat: bool) -> Option<KeyCommand> {
    if is_key(code, "Escape") {
        if repeat {
            None
        } else {
            Some(KeyCommand::Menu)
        }
    } else if is_key(code, "KeyW") {
        Some(KeyCommand::MoveCursor(0, -1i16))
    } else if is_key(code, "ArrowUp") {
        Some(KeyCommand::MoveView(0, -1i16))
    } else if is_key(code, "KeyA") {
        Some(KeyCommand::MoveCursor(-1i16, 0))
    } else if is_key(code, "ArrowLeft") {
        Some(KeyCommand::MoveView(-1i16, 0))
    } else if is_key(code, "KeyS") {
        Some(KeyCommand::MoveCursor(0, 1))
    } else if is_key(code, "ArrowDown") {
        Some(KeyCommand::MoveView(0, 1))
    } else if is_key(code, "KeyD") {
        Some(KeyCommand::MoveCursor(1, 0))
    } else if is_key(code, "ArrowRight") {
        Some(KeyCommand::MoveView(1, 0))
    } else if is_key(code, "Minus") {
        Some(KeyCommand::Zoom(Zoom::Out))
    } else if is_key(code, "Equal") {
        Some(KeyCommand::Zoom(Zoom::In))
    } else if is_key(code, "Backspace") || (is_key(code, "KeyZ") && ctrl) {
        if shift {
            Some(KeyCommand::Redo)
        } else {
            Some(KeyCommand::Undo)
        }
    } else if is_key(code, "Home") {
        Some(KeyCommand::Home)
    } else if is_key(code, "End") {
        Some(KeyCommand::End)
    } else if is_key(code, "Enter") || is_key(code, "Space") {
        if repeat {
            None
        } else {
            Some(KeyCommand::Hit)
        }
    } else {
        None
    }
}

/// Whether two byte slices are equal.
fn same_bytes(a: &[u8], b: &[u8]) -> (r: bool)
    ensures
        r == (a@ == b@),
{
    if a.len() != b.len() {
        return false;
    }
    let mut i: usize = 0;
    while i < a.len()
        invariant
            a@.len() == b@.len(),
            i <= a@.len(),
            forall|j: int| 0 <= j < i ==> a@[j] == b@[j],
        decreases a@.len() - i,
    {
        if a[i] != b[i] {
            return false;
        }
        i += 1;
    }
    assert(a@ =~= b@);
    true
}

/// Whether the key code `code` is `name`.
fn key_is(code: &str, name: &str) -> (r: bool)
    ensures
        r == is_key(code, name),
{
    same_bytes(code.as_bytes(), name.as_bytes())
}

/// The command of the key with the code `code` (a `KeyboardEvent.code`),
/// `ctrl` and `shift` telling whether those keys are held and `repeat`
/// whether the key is held down: `None` for keys that do nothing.
pub fn key_command(code: &str, ctrl: bool, shift: bool, repeat: bool) -> (r: Option<KeyCommand>)
    ensures
        r == key_spec(code, ctrl, shift, repeat),
{
    if key_is(code, "Escape") {
        if repeat {
            None
        } else {
            Some(KeyCommand::Menu)
        }
    } else if key_is(code, "KeyW") {
        Some(KeyCommand::MoveCursor(0, -1))
    } else if key_is(code, "ArrowUp") {
        Some(KeyCommand::MoveView(0, -1))
    } else if key_is(code, "KeyA") {
        Some(KeyCommand::MoveCursor(-1, 0))
    } else if key_is(code, "ArrowLeft") {
        Some(KeyCommand::MoveView(-1, 0))
    } else if key_is(code, "KeyS") {
        Some(KeyCommand::MoveCursor(0, 1))
    } else if key_is(code, "ArrowDown") {
        Some(KeyCommand::MoveView(0, 1))
    } else if key_is(code, "KeyD") {
        Some(KeyCommand::MoveCursor(1, 0))
    } else if key_is(code, "ArrowRight") {
        Some(KeyCommand::MoveView(1, 0))
    } else if key_is(code, "Minus") {
        Some(KeyCommand::Zoom(Zoom::Out))
    } else if key_is(code, "Equal") {
        Some(KeyCommand::Zoom(Zoom::In))
    } else if key_is(code, "Backspace") || (key_is(code, "KeyZ") && ctrl) {
        if shift {
            Some(KeyCommand::Redo)
        } else {
            Some(KeyCommand::Undo)
        }
    } else if key_is(code, "Home") {
        Some(KeyCommand::Home)
    } else if key_is(code, "End") {
        Some(KeyCommand::End)
    } else if key_is(code, "Enter") || key_is(code, "Space") {
        if repeat {
            None
        } else {
            Some(KeyCommand::Hit)
        }
    } else {
        None
    }
}

} // verus!
