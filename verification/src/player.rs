//! What the player does, as far as it can be said without playing: the state
//! that is shown, and the volume after a change.

use crate::text::str_eq;
use vstd::prelude::*;

verus! {

/// The players that the program can drive.
#[derive(Debug, Clone, Copy, PartialEq, Eq, Structural)]
pub enum PlayerKind {
    Mpv,
    Mpd,
}

/// The player that the settings name, if they name one that is known: `mpv` or
/// `mpd`.
pub fn player_kind(name: &str) -> (kind: Option<PlayerKind>)
    ensures
        kind == if name@ == "mpv"@ {
            Some(PlayerKind::Mpv)
        } else if name@ == "mpd"@ {
            Some(PlayerKind::Mpd)
        } else {
            None
        },
{
    if str_eq(name, "mpv") {
        Some(PlayerKind::Mpv)
    } else if str_eq(name, "mpd") {
        Some(PlayerKind::Mpd)
    } else {
        None
    }
}

/// What the player is doing.
#[derive(Debug, Clone, Copy, PartialEq, Eq, Structural)]
pub enum State {
    Playing,
    Paused,
    Stopped,
}

/// The state that is shown: a stopped player is stopped whether it pauses or
/// not.
pub fn play_state(stopped: bool, paused: bool) -> (state: State)
    ensures
        state == if stopped {
            State::Stopped
        } else if paused {
            State::Paused
        } else {
            State::Playing
        },
{
    if stopped {
        State::Stopped
    } else if paused {
        State::Paused
    } else {
        State::Playing
    }
}

/// `volume` kept between 0 and 100.
pub open spec fn clamped_volume(volume: int) -> int {
    if volume < 0 {
        0
    } else if volume > 100 {
        100
    } else {
        volume
    }
}

/// The volume after `offset` was added to `volume`: their sum, kept between 0
/// and 100.
pub fn change_volume(volume: i32, offset: i32) -> (changed: i32)
    ensures
        changed == clamped_volume(volume + offset),
{
    let sum: i64 = volume as i64 + offset as i64;
    if sum < 0 {
        0
    } else if sum > 100 {
        100
    } else {
        sum as i32
    }
}

/// Whether the player takes `volume`: it lies between 0 and 100.
pub fn is_volume(volume: i32) -> (valid: bool)
    ensures
        valid == (0 <= volume <= 100),
{
    0 <= volume && volume <= 100
}

} // verus!
