use knobify::config::Config;
use knobify::router::{
    menu_choice, Action, Key, KnobifyApp, MenuChoice, Session, TrayClick, UserEvent,
};
use knobify::spotify::{Spotify, VolumeCommand};

fn config() -> Config {
    Config { up_key: 0x82, down_key: 0x81, increment: 5 }
}

fn logged_in(volume: u32) -> KnobifyApp {
    let mut app = KnobifyApp::new();
    assert_eq!(app.user_event(UserEvent::MenuSelect(MenuChoice::Login), &config()), Action::BeginLogin);
    app.login_finished(Some(Spotify::login(Some(volume))));
    app
}

fn volume_of(app: &KnobifyApp) -> Option<u8> {
    match &app.session {
        Session::Authenticated(s) => Some(s.volume()),
        _ => None,
    }
}

#[test]
fn menu_ids() {
    assert_eq!(menu_choice("login"), MenuChoice::Login);
    assert_eq!(menu_choice("exit"), MenuChoice::Exit);
    assert_eq!(menu_choice("Exit"), MenuChoice::Other);
    assert_eq!(menu_choice("logi"), MenuChoice::Other);
    assert_eq!(menu_choice(""), MenuChoice::Other);
}

#[test]
fn ignored_key() {
    let mut app = logged_in(40);
    let a = app.user_event(UserEvent::KeyPress(Key::Scancode(0x50)), &config());
    assert_eq!(a, Action::Nothing);
    assert_eq!(volume_of(&app), Some(40));
    let a = app.user_event(UserEvent::KeyPress(Key::Named), &config());
    assert_eq!(a, Action::Nothing);
}

#[test]
fn bound_keys_issue_commands_in_order() {
    let mut app = logged_in(98);
    let c = config();
    let presses = [0x82u32, 0x82, 0x81, 0x50, 0x81];
    let mut actions = Vec::new();
    for code in presses {
        actions.push(app.user_event(UserEvent::KeyPress(Key::Scancode(code)), &c));
    }
    assert_eq!(
        actions,
        vec![
            Action::SetVolume(VolumeCommand { previous: 98, level: 100 }),
            Action::SetVolume(VolumeCommand { previous: 100, level: 100 }),
            Action::SetVolume(VolumeCommand { previous: 100, level: 95 }),
            Action::Nothing,
            Action::SetVolume(VolumeCommand { previous: 95, level: 90 }),
        ]
    );
    assert_eq!(volume_of(&app), Some(90));
}

#[test]
fn keys_before_login_do_nothing() {
    let mut app = KnobifyApp::new();
    let a = app.user_event(UserEvent::KeyPress(Key::Scancode(0x82)), &config());
    assert_eq!(a, Action::Nothing);
    assert!(matches!(app.session, Session::Unauthenticated));
}

#[test]
fn exit_via_menu_in_any_state() {
    let mut app = KnobifyApp::new();
    assert_eq!(app.user_event(UserEvent::MenuSelect(MenuChoice::Exit), &config()), Action::Exit);
    let mut app = logged_in(50);
    assert_eq!(app.user_event(UserEvent::MenuSelect(MenuChoice::Exit), &config()), Action::Exit);
    let mut app = KnobifyApp::new();
    app.user_event(UserEvent::MenuSelect(MenuChoice::Login), &config());
    assert_eq!(app.user_event(UserEvent::MenuSelect(MenuChoice::Exit), &config()), Action::Exit);
}

#[test]
fn second_login_request_is_coalesced() {
    let mut app = KnobifyApp::new();
    let c = config();
    assert_eq!(app.user_event(UserEvent::MenuSelect(MenuChoice::Login), &c), Action::BeginLogin);
    assert_eq!(app.user_event(UserEvent::MenuSelect(MenuChoice::Login), &c), Action::Nothing);
    assert_eq!(app.user_event(UserEvent::KeyPress(Key::Scancode(0x82)), &c), Action::Nothing);
    assert!(matches!(app.session, Session::LoggingIn));
    app.login_finished(Some(Spotify::login(None)));
    assert_eq!(volume_of(&app), Some(50));
}

#[test]
fn failed_login_returns_to_unauthenticated() {
    let mut app = KnobifyApp::new();
    app.user_event(UserEvent::MenuSelect(MenuChoice::Login), &config());
    app.login_finished(None);
    assert!(matches!(app.session, Session::Unauthenticated));
    app.login_finished(Some(Spotify::login(Some(20))));
    assert!(matches!(app.session, Session::Unauthenticated));
}

#[test]
fn failed_volume_command_rolls_back() {
    let mut app = logged_in(30);
    let a = app.user_event(UserEvent::KeyPress(Key::Scancode(0x81)), &config());
    let cmd = match a {
        Action::SetVolume(cmd) => cmd,
        other => panic!("unexpected action {:?}", other),
    };
    assert_eq!(volume_of(&app), Some(25));
    app.volume_finished(cmd, false);
    assert_eq!(volume_of(&app), Some(30));
}

#[test]
fn double_click_shows_window() {
    let mut app = KnobifyApp::new();
    assert!(!app.window_visible);
    assert_eq!(app.user_event(UserEvent::TrayClick(TrayClick::Left), &config()), Action::Nothing);
    assert!(!app.window_visible);
    assert_eq!(app.user_event(UserEvent::TrayClick(TrayClick::Double), &config()), Action::ShowWindow);
    assert!(app.window_visible);
}

#[test]
fn every_bound_press_gives_one_command() {
    let mut app = logged_in(50);
    let c = config();
    let presses = [0x82u32, 0x82, 0x82, 0x81, 0x10, 0x82];
    let mut commands = 0;
    for code in presses {
        let a = app.user_event(UserEvent::KeyPress(Key::Scancode(code)), &c);
        if code == 0x82 || code == 0x81 {
            assert!(matches!(a, Action::SetVolume(_)));
            commands += 1;
        } else {
            assert_eq!(a, Action::Nothing);
        }
    }
    assert_eq!(commands, 5);
    assert_eq!(volume_of(&app), Some(65));
}
