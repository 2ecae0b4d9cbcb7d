use vstd::prelude::*;

verus! {

/// A key identity as the terminal reports it: a named key or a printable
/// character.
#[derive(Clone, Copy, Debug)]
pub enum KeyCode {
    Esc,
    Enter,
    Backspace,
    Left,
    Right,
    Up,
    Down,
    Char(char),
}

/// One keyboard event: the key, whether Alt was held, and whether this is a
/// press (as opposed to a release or repeat report).
#[derive(Clone, Copy, Debug)]
pub struct KeyEvent {
    pub code: KeyCode,
    pub alt: bool,
    pub press: bool,
}

impl KeyEvent {
    /// A plain press of `code`, with no modifier held.
    pub fn press(code: KeyCode) -> (r: KeyEvent)
        ensures
            r == (KeyEvent { code, alt: false, press: true }),
    {
        KeyEvent { code, alt: false, press: true }
    }
}

} // verus!
