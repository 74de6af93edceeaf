//! The game's mode machine: menu, warning splash, play, screamer,
//! game-over and win, with pure transitions driven by frame events.

use vstd::prelude::*;

verus! {

/// The top-level mode the game is in.
#[derive(Clone, Copy, PartialEq, Eq, Structural, Debug)]
pub enum GameMode {
    /// The start menu.
    Menu,
    /// The warning splash shown after choosing to play.
    Warning,
    /// The game itself.
    Playing,
    /// The screamer shown after a ghost catches the player.
    Screamer,
    /// The restart prompt after the screamer.
    GameOver,
    /// All pills collected; terminal.
    Win,
}

/// A frame event that can move the mode machine.
#[derive(Clone, Copy, PartialEq, Eq, Structural, Debug)]
pub enum GameEvent {
    /// The menu's play entry was chosen.
    PlayPressed,
    /// The warning splash timer ran out.
    WarningElapsed,
    /// A ghost touched the player.
    PlayerCaught,
    /// The screamer timer ran out.
    ScreamerElapsed,
    /// The last pill was collected.
    AllPillsCollected,
    /// Restart was chosen on the game-over screen.
    RestartPressed,
}

/// The transition table: which mode follows which event. Every pairing
/// not listed leaves the mode unchanged; `Win` is terminal.
pub open spec fn next_mode(m: GameMode, e: GameEvent) -> GameMode {
    match (m, e) {
        (GameMode::Menu, GameEvent::PlayPressed) => GameMode::Warning,
        (GameMode::Warning, GameEvent::WarningElapsed) => GameMode::Playing,
        (GameMode::Playing, GameEvent::PlayerCaught) => GameMode::Screamer,
        (GameMode::Playing, GameEvent::AllPillsCollected) => GameMode::Win,
        (GameMode::Screamer, GameEvent::ScreamerElapsed) => GameMode::GameOver,
        (GameMode::GameOver, GameEvent::RestartPressed) => GameMode::Playing,
        _ => m,
    }
}

/// Step the mode machine by one event, exactly as [`next_mode`] says.
pub fn step_mode(m: GameMode, e: GameEvent) -> (r: GameMode)
    ensures
        r == next_mode(m, e),
{
    match (m, e) {
        (GameMode::Menu, GameEvent::PlayPressed) => GameMode::Warning,
        (GameMode::Warning, GameEvent::WarningElapsed) => GameMode::Playing,
        (GameMode::Playing, GameEvent::PlayerCaught) => GameMode::Screamer,
        (GameMode::Playing, GameEvent::AllPillsCollected) => GameMode::Win,
        (GameMode::Screamer, GameEvent::ScreamerElapsed) => GameMode::GameOver,
        (GameMode::GameOver, GameEvent::RestartPressed) => GameMode::Playing,
        _ => m,
    }
}

} // verus!
