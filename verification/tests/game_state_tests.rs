use rust_ray::game_state::{
    GameState, GameStateManager, InputEvent, Key, MenuItem, PauseItem, PlayerAction, RenderRoutine,
};

fn fresh() -> GameStateManager {
    GameStateManager::new(1280, 720, 0, 0).unwrap()
}

fn key(k: Key) -> InputEvent {
    InputEvent::KeyDown(k)
}

#[test]
fn new_controller_starts_in_the_main_menu() {
    let m = fresh();
    assert_eq!(*m.get_current_state(), GameState::MainMenu);
    assert_eq!(m.menu_selection, MenuItem::Play);
    assert_eq!(m.pause_selection, PauseItem::Continue);
    assert_eq!(m.screen_width, 1280);
    assert_eq!(m.screen_height, 720);
}

#[test]
fn main_menu_navigation_is_cyclic() {
    // three downward navigations from Play return to Play
    let mut m = fresh();
    for _ in 0..3 {
        let out = m.update(&key(Key::S));
        assert!(!out.quit);
        assert_eq!(out.action, None);
    }
    assert_eq!(m.menu_selection, MenuItem::Play);
    assert_eq!(*m.get_current_state(), GameState::MainMenu);

    // and the same upward, with the arrow keys
    for _ in 0..3 {
        m.update(&key(Key::Up));
    }
    assert_eq!(m.menu_selection, MenuItem::Play);
}

#[test]
fn main_menu_navigation_steps() {
    let mut m = fresh();
    m.update(&key(Key::Down));
    assert_eq!(m.menu_selection, MenuItem::Settings);
    m.update(&key(Key::S));
    assert_eq!(m.menu_selection, MenuItem::Exit);
    m.update(&key(Key::W));
    assert_eq!(m.menu_selection, MenuItem::Settings);
    m.update(&key(Key::Up));
    assert_eq!(m.menu_selection, MenuItem::Play);
    m.update(&key(Key::Up));
    assert_eq!(m.menu_selection, MenuItem::Exit);
}

#[test]
fn confirming_play_enters_the_playing_state() {
    let mut m = fresh();
    let out = m.update(&key(Key::Space));
    assert!(!out.quit);
    assert_eq!(*m.get_current_state(), GameState::Playing);
}

#[test]
fn confirming_settings_enters_the_settings_state() {
    let mut m = fresh();
    m.update(&key(Key::S));
    let out = m.update(&key(Key::Return));
    assert!(!out.quit);
    assert_eq!(*m.get_current_state(), GameState::Settings);
}

#[test]
fn confirming_exit_signals_quit_without_a_state_change() {
    let mut m = fresh();
    m.update(&key(Key::S));
    m.update(&key(Key::S));
    assert_eq!(m.menu_selection, MenuItem::Exit);
    let out = m.update(&key(Key::Space));
    assert!(out.quit);
    assert_eq!(out.action, None);
    assert_eq!(*m.get_current_state(), GameState::MainMenu);
}

fn playing() -> GameStateManager {
    let mut m = fresh();
    m.update(&key(Key::Space));
    assert_eq!(*m.get_current_state(), GameState::Playing);
    m
}

#[test]
fn movement_keys_ask_for_player_steps() {
    let mut m = playing();
    assert_eq!(m.update(&key(Key::W)).action, Some(PlayerAction::MoveForward));
    assert_eq!(m.update(&key(Key::S)).action, Some(PlayerAction::MoveBackward));
    assert_eq!(m.update(&key(Key::A)).action, Some(PlayerAction::StrafeLeft));
    assert_eq!(m.update(&key(Key::D)).action, Some(PlayerAction::StrafeRight));
    assert_eq!(*m.get_current_state(), GameState::Playing);
}

#[test]
fn mouse_motion_turns_the_player_and_is_remembered() {
    let mut m = playing();
    let out = m.update(&InputEvent::MouseMotion { x: 200, y: 150 });
    assert!(!out.quit);
    assert_eq!(out.action, Some(PlayerAction::FaceToward { x: 200, y: 150 }));
    assert_eq!(m.mouse_x, 200);
    assert_eq!(m.mouse_y, 150);
}

#[test]
fn escape_pauses_the_game() {
    let mut m = playing();
    let out = m.update(&key(Key::Escape));
    assert!(!out.quit);
    assert_eq!(out.action, None);
    assert_eq!(*m.get_current_state(), GameState::Paused);
}

#[test]
fn navigation_keys_do_nothing_while_playing() {
    let mut m = playing();
    let out = m.update(&key(Key::Up));
    assert_eq!(out.action, None);
    assert!(!out.quit);
    assert_eq!(*m.get_current_state(), GameState::Playing);
}

fn paused() -> GameStateManager {
    let mut m = playing();
    m.update(&key(Key::Escape));
    m
}

#[test]
fn pause_menu_navigation_is_cyclic() {
    let mut m = paused();
    for _ in 0..3 {
        m.update(&key(Key::S));
    }
    assert_eq!(m.pause_selection, PauseItem::Continue);
    m.update(&key(Key::W));
    assert_eq!(m.pause_selection, PauseItem::RTTitle);
    m.update(&key(Key::Down));
    assert_eq!(m.pause_selection, PauseItem::Continue);
}

#[test]
fn pause_menu_continue_resumes_play() {
    let mut m = paused();
    m.update(&key(Key::Return));
    assert_eq!(*m.get_current_state(), GameState::Playing);
}

#[test]
fn pause_menu_settings_opens_settings() {
    let mut m = paused();
    m.update(&key(Key::S));
    m.update(&key(Key::Space));
    assert_eq!(*m.get_current_state(), GameState::Settings);
}

#[test]
fn pause_menu_returns_to_the_title() {
    let mut m = paused();
    m.update(&key(Key::W));
    assert_eq!(m.pause_selection, PauseItem::RTTitle);
    m.update(&key(Key::Space));
    assert_eq!(*m.get_current_state(), GameState::MainMenu);
}

#[test]
fn placeholder_states_absorb_events() {
    for state in [GameState::GameOver, GameState::Settings, GameState::Transition] {
        let mut m = fresh();
        m.set_state(state);
        for event in [
            key(Key::W),
            key(Key::Space),
            InputEvent::MouseMotion { x: 5, y: 6 },
            InputEvent::Other,
        ] {
            let out = m.update(&event);
            assert!(!out.quit);
            assert_eq!(out.action, None);
            assert_eq!(*m.get_current_state(), state);
        }
    }
}

#[test]
fn render_dispatch_follows_the_state() {
    let mut m = fresh();
    assert_eq!(m.render(), RenderRoutine::MainMenuScreen(MenuItem::Play));
    m.update(&key(Key::S));
    assert_eq!(m.render(), RenderRoutine::MainMenuScreen(MenuItem::Settings));

    let mut m = playing();
    assert_eq!(m.render(), RenderRoutine::WorldScene);
    m.update(&key(Key::Escape));
    assert_eq!(m.render(), RenderRoutine::PausedScene(PauseItem::Continue));
    m.update(&key(Key::S));
    assert_eq!(m.render(), RenderRoutine::PausedScene(PauseItem::Settings));

    for state in [GameState::GameOver, GameState::Settings, GameState::Transition] {
        let mut m = fresh();
        m.set_state(state);
        assert_eq!(m.render(), RenderRoutine::Blank);
    }
}

#[test]
fn set_state_changes_only_the_state() {
    let mut m = fresh();
    m.set_state(GameState::Playing);
    assert_eq!(*m.get_current_state(), GameState::Playing);
    assert_eq!(m.menu_selection, MenuItem::Play);
    assert_eq!(m.screen_width, 1280);
}
