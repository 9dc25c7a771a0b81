//! Commands that reach the engine, and the keys that produce them.

use vstd::prelude::*;

verus! {

/// A player command.
#[derive(Clone, Copy, PartialEq, Eq, Structural, Debug)]
pub enum InputResult {
    MoveLeft,
    MoveRight,
    MoveDown,
    RotateClockwise,
    RotateCounterClockwise,
    ExitGame,
}

/// A non-blocking source of commands: `None` when nothing is pending.
pub trait InputSource {
    fn read_input(&self) -> Option<InputResult>;
}

/// A key press, as far as the game tells keys apart.
#[derive(Clone, Copy, PartialEq, Eq, Structural, Debug)]
pub enum Key {
    Left,
    Right,
    Up,
    Down,
    Esc,
    Char(char),
    Other,
}

/// The command a key stands for: the arrows move and turn clockwise, `z`
/// turns counterclockwise and escape quits; other keys stand for nothing.
pub fn convert_input(key: Key) -> (r: Option<InputResult>)
    ensures
        key == Key::Left ==> r == Some(InputResult::MoveLeft),
        key == Key::Right ==> r == Some(InputResult::MoveRight),
        key == Key::Up ==> r == Some(InputResult::RotateClockwise),
        key == Key::Char('z') ==> r == Some(InputResult::RotateCounterClockwise),
        key == Key::Down ==> r == Some(InputResult::MoveDown),
        key == Key::Esc ==> r == Some(InputResult::ExitGame),
        r is None <==> !(key is Left || key is Right || key is Up || key is Down || key is Esc
            || key == Key::Char('z')),
{
    match key {
        Key::Left => Some(InputResult::MoveLeft),
        Key::Right => Some(InputResult::MoveRight),
        Key::Up => Some(InputResult::RotateClockwise),
        Key::Char(c) => {
            if c == 'z' {
                Some(InputResult::RotateCounterClockwise)
            } else {
                None
            }
        },
        Key::Down => Some(InputResult::MoveDown),
        Key::Esc => Some(InputResult::ExitGame),
        Key::Other => None,
    }
}

} // verus!
