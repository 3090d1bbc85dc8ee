//! The menus: what each button asks for.
use crate::settings::{Key, NamedKey};
use crate::text::same_text;
use vstd::prelude::*;

verus! {

/// What the main menu asks for.
#[derive(Debug, Clone, Copy, PartialEq, Eq, Structural)]
pub enum MenuAction {
    Nothing,
    SinglePlayer,
    Multiplayer,
    Settings,
    Exit,
}

/// What a mode menu asks for.
#[derive(Debug, Clone, Copy, PartialEq, Eq, Structural)]
pub enum ModeAction {
    Nothing,
    Sprint40L,
    Blitz,
    Versus,
    Join,
    Custom,
    Endless,
    Leaderboards,
    Profile,
}

/// The action of a main menu button, by its label.
pub open spec fn menu_action_of(label: Seq<char>) -> MenuAction {
    if label == "Single Player"@ {
        MenuAction::SinglePlayer
    } else if label == "Multiplayer"@ {
        MenuAction::Multiplayer
    } else if label == "Settings"@ {
        MenuAction::Settings
    } else if label == "Exit"@ {
        MenuAction::Exit
    } else {
        MenuAction::Nothing
    }
}

/// The action of the main menu button under the pointer, given its label;
/// none when no button is under it.
pub fn menu_action_for(label: Option<&str>) -> (a: MenuAction)
    ensures
        a == (match label {
            Some(l) => menu_action_of(l@),
            None => MenuAction::Nothing,
        }),
{
    match label {
        None => MenuAction::Nothing,
        Some(l) => if same_text(l, "Single Player") {
            MenuAction::SinglePlayer
        } else if same_text(l, "Multiplayer") {
            MenuAction::Multiplayer
        } else if same_text(l, "Settings") {
            MenuAction::Settings
        } else if same_text(l, "Exit") {
            MenuAction::Exit
        } else {
            MenuAction::Nothing
        },
    }
}

/// The action of a single-player menu button, by its label.
pub open spec fn single_player_action_of(label: Seq<char>) -> ModeAction {
    if label == "40L"@ {
        ModeAction::Sprint40L
    } else if label == "Blitz"@ {
        ModeAction::Blitz
    } else if label == "Custom"@ {
        ModeAction::Custom
    } else if label == "Endless"@ {
        ModeAction::Endless
    } else {
        ModeAction::Nothing
    }
}

/// The action of the single-player menu button under the pointer, given its
/// label; none when no button is under it.
pub fn single_player_action_for(label: Option<&str>) -> (a: ModeAction)
    ensures
        a == (match label {
            Some(l) => single_player_action_of(l@),
            None => ModeAction::Nothing,
        }),
{
    match label {
        None => ModeAction::Nothing,
        Some(l) => if same_text(l, "40L") {
            ModeAction::Sprint40L
        } else if same_text(l, "Blitz") {
            ModeAction::Blitz
        } else if same_text(l, "Custom") {
            ModeAction::Custom
        } else if same_text(l, "Endless") {
            ModeAction::Endless
        } else {
            ModeAction::Nothing
        },
    }
}

/// The action of a multiplayer menu button, by its label.
pub open spec fn multiplayer_action_of(label: Seq<char>) -> ModeAction {
    if label == "Versus"@ {
        ModeAction::Versus
    } else if label == "Join"@ {
        ModeAction::Join
    } else if label == "Leaderboards"@ {
        ModeAction::Leaderboards
    } else if label == "Profile"@ {
        ModeAction::Profile
    } else {
        ModeAction::Nothing
    }
}

/// The action of the multiplayer menu button under the pointer, given its
/// label; none when no button is under it.
pub fn multiplayer_action_for(label: Option<&str>) -> (a: ModeAction)
    ensures
        a == (match label {
            Some(l) => multiplayer_action_of(l@),
            None => ModeAction::Nothing,
        }),
{
    match label {
        None => ModeAction::Nothing,
        Some(l) => if same_text(l, "Versus") {
            ModeAction::Versus
        } else if same_text(l, "Join") {
            ModeAction::Join
        } else if same_text(l, "Leaderboards") {
            ModeAction::Leaderboards
        } else if same_text(l, "Profile") {
            ModeAction::Profile
        } else {
            ModeAction::Nothing
        },
    }
}

// ---------------------------------------------------------------------------
// Keys between screens
// ---------------------------------------------------------------------------

/// The screens of the program.
#[derive(Debug, Clone, Copy, PartialEq, Eq, Structural)]
pub enum ScreenKind {
    Menu,
    ModeSelect,
    MultiplayerSelect,
    Lobby,
    Join,
    Profile,
    Settings,
    Countdown,
    Playing,
    Paused,
    GameOver,
    EndScreen,
}

/// What a key asks of the program besides a change of screen.
#[derive(Debug, Clone, Copy, PartialEq, Eq, Structural)]
pub enum ScreenCommand {
    Nothing,
    Exit,
    SaveSettings,
    StartPause,
    EndPause,
    GameKey,
}

/// The result of a key outside the settings' key capture: whether to switch
/// full screen, the screen to go to, if another, and the command.
#[derive(Debug, Clone, Copy, PartialEq, Eq, Structural)]
pub struct ScreenStep {
    pub toggle_fullscreen: bool,
    pub next: Option<ScreenKind>,
    pub command: ScreenCommand,
}

/// F11 switches full screen on every screen. Escape leaves each screen: the
/// main menu quits, the mode menus go back to the main menu, the
/// multiplayer screens back to the multiplayer menu, the settings are saved
/// on the way back to the main menu, play pauses and a pause resumes, and the
/// countdown, game-over and end screens go back to the main menu. Enter on
/// the main menu opens the single-player menu. During play every other key
/// goes to the game.
pub open spec fn screen_step(screen: ScreenKind, key: Key, pressed: bool) -> ScreenStep {
    let fs = pressed && key == Key::Named(NamedKey::F11);
    let esc = pressed && key == Key::Named(NamedKey::Escape);
    let enter = pressed && key == Key::Named(NamedKey::Enter);
    let (next, command) = match screen {
        ScreenKind::Menu => if esc {
            (None, ScreenCommand::Exit)
        } else if enter {
            (Some(ScreenKind::ModeSelect), ScreenCommand::Nothing)
        } else {
            (None, ScreenCommand::Nothing)
        },
        ScreenKind::ModeSelect | ScreenKind::MultiplayerSelect => if esc {
            (Some(ScreenKind::Menu), ScreenCommand::Nothing)
        } else {
            (None, ScreenCommand::Nothing)
        },
        ScreenKind::Lobby | ScreenKind::Join | ScreenKind::Profile => if esc {
            (Some(ScreenKind::MultiplayerSelect), ScreenCommand::Nothing)
        } else {
            (None, ScreenCommand::Nothing)
        },
        ScreenKind::Settings => if esc {
            (Some(ScreenKind::Menu), ScreenCommand::SaveSettings)
        } else {
            (None, ScreenCommand::Nothing)
        },
        ScreenKind::Playing => if esc {
            (Some(ScreenKind::Paused), ScreenCommand::StartPause)
        } else {
            (None, ScreenCommand::GameKey)
        },
        ScreenKind::Paused => if esc {
            (Some(ScreenKind::Playing), ScreenCommand::EndPause)
        } else {
            (None, ScreenCommand::Nothing)
        },
        _ => if esc {
            (Some(ScreenKind::Menu), ScreenCommand::Nothing)
        } else {
            (None, ScreenCommand::Nothing)
        },
    };
    ScreenStep { toggle_fullscreen: fs, next, command }
}

fn is_named(key: &Key, name: NamedKey) -> (b: bool)
    ensures
        b == (*key == Key::Named(name)),
{
    match key {
        Key::Named(k) => *k == name,
        _ => false,
    }
}

/// What a key does between screens.
pub fn screen_key(screen: ScreenKind, key: &Key, pressed: bool) -> (r: ScreenStep)
    ensures
        r == screen_step(screen, *key, pressed),
{
    let fs = pressed && is_named(key, NamedKey::F11);
    let esc = pressed && is_named(key, NamedKey::Escape);
    let enter = pressed && is_named(key, NamedKey::Enter);
    let (next, command) = match screen {
        ScreenKind::Menu => if esc {
            (None, ScreenCommand::Exit)
        } else if enter {
            (Some(ScreenKind::ModeSelect), ScreenCommand::Nothing)
        } else {
            (None, ScreenCommand::Nothing)
        },
        ScreenKind::ModeSelect | ScreenKind::MultiplayerSelect => if esc {
            (Some(ScreenKind::Menu), ScreenCommand::Nothing)
        } else {
            (None, ScreenCommand::Nothing)
        },
        ScreenKind::Lobby | ScreenKind::Join | ScreenKind::Profile => if esc {
            (Some(ScreenKind::MultiplayerSelect), ScreenCommand::Nothing)
        } else {
            (None, ScreenCommand::Nothing)
        },
        ScreenKind::Settings => if esc {
            (Some(ScreenKind::Menu), ScreenCommand::SaveSettings)
        } else {
            (None, ScreenCommand::Nothing)
        },
        ScreenKind::Playing => if esc {
            (Some(ScreenKind::Paused), ScreenCommand::StartPause)
        } else {
            (None, ScreenCommand::GameKey)
        },
        ScreenKind::Paused => if esc {
            (Some(ScreenKind::Playing), ScreenCommand::EndPause)
        } else {
            (None, ScreenCommand::Nothing)
        },
        _ => if esc {
            (Some(ScreenKind::Menu), ScreenCommand::Nothing)
        } else {
            (None, ScreenCommand::Nothing)
        },
    };
    ScreenStep { toggle_fullscreen: fs, next, command }
}

} // verus!
