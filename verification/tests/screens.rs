use tetrino::graphics::{pause_action_for, PauseAction};
use tetrino::join::{JoinAction, JoinState};
use tetrino::lobby::{generate_room_code, room_code_from_indices};
use tetrino::menu::{
    menu_action_for, multiplayer_action_for, screen_key, single_player_action_for, MenuAction,
    ModeAction, ScreenCommand, ScreenKind,
};
use tetrino::settings::{Key, NamedKey};
use tetrino::network::encode_room_code;

#[test]
fn menu_labels() {
    assert_eq!(menu_action_for(Some("Single Player")), MenuAction::SinglePlayer);
    assert_eq!(menu_action_for(Some("Multiplayer")), MenuAction::Multiplayer);
    assert_eq!(menu_action_for(Some("Settings")), MenuAction::Settings);
    assert_eq!(menu_action_for(Some("Exit")), MenuAction::Exit);
    assert_eq!(menu_action_for(Some("Quit")), MenuAction::Nothing);
    assert_eq!(menu_action_for(None), MenuAction::Nothing);
    assert_eq!(single_player_action_for(Some("40L")), ModeAction::Sprint40L);
    assert_eq!(single_player_action_for(Some("Blitz")), ModeAction::Blitz);
    assert_eq!(single_player_action_for(Some("Custom")), ModeAction::Custom);
    assert_eq!(single_player_action_for(Some("Endless")), ModeAction::Endless);
    assert_eq!(single_player_action_for(Some("Versus")), ModeAction::Nothing);
    assert_eq!(multiplayer_action_for(Some("Versus")), ModeAction::Versus);
    assert_eq!(multiplayer_action_for(Some("Join")), ModeAction::Join);
    assert_eq!(multiplayer_action_for(Some("Leaderboards")), ModeAction::Leaderboards);
    assert_eq!(multiplayer_action_for(Some("Profile")), ModeAction::Profile);
    assert_eq!(multiplayer_action_for(None), ModeAction::Nothing);
}

#[test]
fn pause_buttons() {
    assert_eq!(pause_action_for(Some(0)), PauseAction::Continue);
    assert_eq!(pause_action_for(Some(1)), PauseAction::Retry);
    assert_eq!(pause_action_for(Some(2)), PauseAction::ExitToMenu);
    assert_eq!(pause_action_for(Some(3)), PauseAction::Nothing);
    assert_eq!(pause_action_for(None), PauseAction::Nothing);
}

#[test]
fn joining_with_a_code() {
    let mut s = JoinState::default();
    s.code = "   ".to_string();
    assert!(matches!(s.submit(), JoinAction::Nothing));
    assert!(s.error_message.is_none());
    s.code = "TR-0O0O0O0O0O0O0".to_string();
    assert!(matches!(s.submit(), JoinAction::Nothing));
    assert_eq!(s.error_message.as_deref(), Some("invalid character '0' in code"));
    s.code = format!(" {} ", encode_room_code("192.168.1.1", "A3F7").unwrap());
    match s.submit() {
        JoinAction::Join(ip, room) => {
            assert_eq!(ip, "192.168.1.1");
            assert_eq!(room, "A3F7");
        }
        _ => panic!("expected to join"),
    }
}

#[test]
fn room_codes_use_the_alphabet() {
    for _ in 0..50 {
        let code = generate_room_code();
        assert_eq!(code.chars().count(), 4);
        assert!(code.chars().all(|c| "ABCDEFGHJKLMNPQRSTUVWXYZ23456789".contains(c)));
        assert!(encode_room_code("127.0.0.1", &code).is_ok());
    }
}

#[test]
fn room_codes_from_positions() {
    assert_eq!(room_code_from_indices(&[0, 0, 0, 0]), "AAAA");
    assert_eq!(room_code_from_indices(&[0, 8, 23, 31]), "AJZ9");
    assert_eq!(room_code_from_indices(&[24, 25, 13, 14]), "23PQ");
    assert_eq!(room_code_from_indices(&[]), "");
}

#[test]
fn keys_between_screens() {
    let esc = Key::Named(NamedKey::Escape);
    let s = screen_key(ScreenKind::Menu, &esc, true);
    assert_eq!(s.command, ScreenCommand::Exit);
    assert_eq!(s.next, None);
    let s = screen_key(ScreenKind::Menu, &Key::Named(NamedKey::Enter), true);
    assert_eq!(s.next, Some(ScreenKind::ModeSelect));
    let s = screen_key(ScreenKind::Playing, &esc, true);
    assert_eq!((s.next, s.command), (Some(ScreenKind::Paused), ScreenCommand::StartPause));
    let s = screen_key(ScreenKind::Paused, &esc, true);
    assert_eq!((s.next, s.command), (Some(ScreenKind::Playing), ScreenCommand::EndPause));
    let s = screen_key(ScreenKind::Playing, &Key::Character("a".to_string()), false);
    assert_eq!((s.next, s.command), (None, ScreenCommand::GameKey));
    let s = screen_key(ScreenKind::Settings, &esc, true);
    assert_eq!((s.next, s.command), (Some(ScreenKind::Menu), ScreenCommand::SaveSettings));
    let s = screen_key(ScreenKind::Playing, &esc, false);
    assert_eq!((s.next, s.command), (None, ScreenCommand::GameKey));
    let s = screen_key(ScreenKind::GameOver, &Key::Named(NamedKey::F11), true);
    assert!(s.toggle_fullscreen);
    assert_eq!(s.next, None);
}
