//! The commands behind the keys.

use vstd::prelude::*;

verus! {

/// What the user can ask for.
#[derive(Debug, Clone, Copy, PartialEq, Eq, Structural)]
pub enum Command {
    TogglePause,
    Stop,
    MoveUp,
    MoveDown,
    MoveLeft,
    MoveRight,
    PageUp,
    PageDown,
    JumpTop,
    JumpBottom,
    PlayCurrent,
    LowerVolume,
    RaiseVolume,
    Mute,
    SeekBack,
    SeekForward,
    SeekStart,
    SeekEnd,
    AddSelected,
    Shuffle,
    Next,
    Previous,
    Repeat,
    LoopBack,
    Like,
    Dislike,
    Random,
    Tired,
    Redraw,
    Quit,
    Nothing,
}

/// The button of a mouse event, as far as a command hangs on it.
#[derive(Debug, Clone, Copy, PartialEq, Eq, Structural)]
pub enum Button {
    Middle,
    WheelUp,
    WheelDown,
    Other,
}

/// What the terminal reports of the keyboard and the mouse, as far as a
/// command hangs on it.
#[derive(Debug, Clone, Copy, PartialEq, Eq, Structural)]
pub enum Key {
    Character(char),
    Down,
    Up,
    Left,
    Right,
    Redo,
    Next,
    Previous,
    Mouse(Button),
    Clear,
    Resize,
    Close,
    Exit,
    Other,
}

/// The control character of a letter: the letter's place in the alphabet.
pub fn ctrl(letter: u8) -> (code: u8)
    requires
        0x41 <= letter <= 0x5a || 0x61 <= letter <= 0x7a,
    ensures
        code == if letter >= 0x61 {
            letter - 0x61 + 1
        } else {
            letter - 0x41 + 1
        },
        1 <= code <= 26,
{
    let upper = letter & !0x20u8;
    assert(upper == if letter >= 0x61 {
        (letter - 0x20) as u8
    } else {
        letter
    }) by (bit_vector)
        requires
            upper == letter & !0x20u8,
            0x41 <= letter <= 0x5a || 0x61 <= letter <= 0x7a,
    ;
    upper - 0x41 + 1
}

/// The command of a mouse event.
pub open spec fn mouse_command(button: Button) -> Command {
    match button {
        Button::Middle => Command::TogglePause,
        Button::WheelUp => Command::MoveUp,
        Button::WheelDown => Command::MoveDown,
        Button::Other => Command::Nothing,
    }
}

/// The command of a character.
pub open spec fn character_command(c: char) -> Command {
    if c == ' ' || c == 'p' {
        Command::TogglePause
    } else if c == 'S' {
        Command::Stop
    } else if c == 'j' {
        Command::MoveDown
    } else if c == 'k' {
        Command::MoveUp
    } else if c == 'h' {
        Command::MoveLeft
    } else if c == 'l' {
        Command::MoveRight
    } else if c == '\u{2}' {
        Command::PageUp
    } else if c == '\u{6}' {
        Command::PageDown
    } else if c == 'g' {
        Command::JumpTop
    } else if c == 'G' {
        Command::JumpBottom
    } else if c == '\n' {
        Command::PlayCurrent
    } else if c == '<' {
        Command::LowerVolume
    } else if c == '>' {
        Command::RaiseVolume
    } else if c == 'm' {
        Command::Mute
    } else if c == '[' {
        Command::SeekBack
    } else if c == ']' {
        Command::SeekForward
    } else if c == '{' {
        Command::SeekStart
    } else if c == '}' {
        Command::SeekEnd
    } else if c == 'a' {
        Command::AddSelected
    } else if c == 's' {
        Command::Shuffle
    } else if c == 'n' {
        Command::Next
    } else if c == 'N' {
        Command::Previous
    } else if c == 'r' {
        Command::Repeat
    } else if c == 'o' {
        Command::LoopBack
    } else if c == '+' {
        Command::Like
    } else if c == '-' {
        Command::Dislike
    } else if c == 'R' {
        Command::Random
    } else if c == 't' {
        Command::Tired
    } else if c == '\u{c}' {
        Command::Redraw
    } else if c == 'q' {
        Command::Quit
    } else {
        Command::Nothing
    }
}

/// The command of a key; no key is no command.
pub open spec fn command_of(key: Option<Key>) -> Command {
    match key {
        Some(Key::Character(c)) => character_command(c),
        Some(Key::Down) => Command::MoveDown,
        Some(Key::Up) => Command::MoveUp,
        Some(Key::Left) => Command::MoveLeft,
        Some(Key::Right) => Command::MoveRight,
        Some(Key::Redo) => Command::Shuffle,
        Some(Key::Next) => Command::Next,
        Some(Key::Previous) => Command::Previous,
        Some(Key::Mouse(button)) => mouse_command(button),
        Some(Key::Clear) => Command::Redraw,
        Some(Key::Resize) => Command::Redraw,
        Some(Key::Close) => Command::Quit,
        Some(Key::Exit) => Command::Quit,
        Some(Key::Other) => Command::Nothing,
        None => Command::Nothing,
    }
}

/// The command of a mouse event.
pub fn process_mouse(button: Button) -> (command: Command)
    ensures
        command == mouse_command(button),
{
    match button {
        Button::Middle => Command::TogglePause,
        Button::WheelUp => Command::MoveUp,
        Button::WheelDown => Command::MoveDown,
        Button::Other => Command::Nothing,
    }
}

/// The command that the user asks for with `key`.
pub fn next_command(key: Option<Key>) -> (command: Command)
    ensures
        command == command_of(key),
{
    match key {
        Some(key) => match key {
            /* Player control */
            Key::Character(' ') | Key::Character('p') => Command::TogglePause,
            Key::Character('S') => Command::Stop,
            Key::Character('j') | Key::Down => Command::MoveDown,
            Key::Character('k') | Key::Up => Command::MoveUp,
            Key::Character('h') | Key::Left => Command::MoveLeft,
            Key::Character('l') | Key::Right => Command::MoveRight,
            Key::Character('\u{2}') => Command::PageUp,
            Key::Character('\u{6}') => Command::PageDown,
            Key::Character('g') => Command::JumpTop,
            Key::Character('G') => Command::JumpBottom,
            Key::Character('\n') => Command::PlayCurrent,
            Key::Character('<') => Command::LowerVolume,
            Key::Character('>') => Command::RaiseVolume,
            Key::Character('m') => Command::Mute,
            Key::Character('[') => Command::SeekBack,
            Key::Character(']') => Command::SeekForward,
            Key::Character('{') => Command::SeekStart,
            Key::Character('}') => Command::SeekEnd,
            /* Markov control */
            Key::Character('a') => Command::AddSelected,
            Key::Character('s') | Key::Redo => Command::Shuffle,
            Key::Character('n') | Key::Next => Command::Next,
            Key::Character('N') | Key::Previous => Command::Previous,
            Key::Character('r') => Command::Repeat,
            Key::Character('o') => Command::LoopBack,
            Key::Character('+') => Command::Like,
            Key::Character('-') => Command::Dislike,
            Key::Character('R') => Command::Random,
            Key::Character('t') => Command::Tired,
            /* Misc */
            Key::Mouse(button) => process_mouse(button),
            Key::Character('\u{c}') | Key::Clear | Key::Resize => Command::Redraw,
            Key::Character('q') | Key::Close | Key::Exit => Command::Quit,
            _ => Command::Nothing,
        },
        None => Command::Nothing,
    }
}

} // verus!
