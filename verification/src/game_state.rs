//! The finite-state game controller: which screen is active, where the menu
//! cursors stand, and what each input event does in each state.
//!
//! The controller is a pure state machine. It owns no rendering and no
//! event polling: `update` maps an event to the next state plus an outcome
//! (a quit signal and possibly a player action for the surrounding program
//! to carry out), and `render` maps the state to the routine to draw.

use vstd::prelude::*;

verus! {

/// The states of the game. Exactly one is active at a time.
#[derive(Clone, Copy, Debug, PartialEq, Eq, Structural)]
pub enum GameState {
    MainMenu,
    Playing,
    Paused,
    GameOver,
    Settings,
    Transition,
}

/// The cursor over the main menu's entries.
#[derive(Clone, Copy, Debug, PartialEq, Eq, Structural)]
pub enum MenuItem {
    Play,
    Settings,
    Exit,
}

/// The cursor over the pause menu's entries.
#[derive(Clone, Copy, Debug, PartialEq, Eq, Structural)]
pub enum PauseItem {
    Continue,
    Settings,
    RTTitle,
}

/// The key codes the controller reacts to; everything else arrives as
/// `Other` and is absorbed.
#[derive(Clone, Copy, Debug, PartialEq, Eq, Structural)]
pub enum Key {
    W,
    A,
    S,
    D,
    Up,
    Down,
    Space,
    Return,
    Escape,
    Other,
}

/// One discrete input event, as the surrounding program polls them.
#[derive(Clone, Copy, Debug, PartialEq, Eq, Structural)]
pub enum InputEvent {
    KeyDown(Key),
    MouseMotion { x: i32, y: i32 },
    Other,
}

/// A movement the player pose should make. The controller decides which;
/// the surrounding program owns the pose and carries the action out.
#[derive(Clone, Copy, Debug, PartialEq, Eq, Structural)]
pub enum PlayerAction {
    /// Turn the heading toward this point.
    FaceToward { x: i32, y: i32 },
    MoveForward,
    MoveBackward,
    StrafeLeft,
    StrafeRight,
}

/// What one `update` call asks of its caller: quit, and possibly move the
/// player.
#[derive(Clone, Copy, Debug, PartialEq, Eq, Structural)]
pub struct UpdateOutcome {
    pub quit: bool,
    pub action: Option<PlayerAction>,
}

/// The render routine one state maps to. `Playing` and `Paused` both show
/// the scene; the paused screen overlays its menu on it; the placeholder
/// states draw nothing.
#[derive(Clone, Copy, Debug, PartialEq, Eq, Structural)]
pub enum RenderRoutine {
    MainMenuScreen(MenuItem),
    WorldScene,
    PausedScene(PauseItem),
    Blank,
}

/// The game controller's whole state: the active game state, the two menu
/// cursors, the screen extent, and the last seen mouse position.
#[derive(Clone, Copy, Debug, PartialEq, Eq, Structural)]
pub struct GameStateManager {
    pub menu_selection: MenuItem,
    pub pause_selection: PauseItem,
    pub current_state: GameState,
    pub screen_width: i32,
    pub screen_height: i32,
    pub mouse_x: i32,
    pub mouse_y: i32,
}

pub open spec fn spec_menu_up(m: MenuItem) -> MenuItem {
    match m {
        MenuItem::Play => MenuItem::Exit,
        MenuItem::Settings => MenuItem::Play,
        MenuItem::Exit => MenuItem::Settings,
    }
}

pub open spec fn spec_menu_down(m: MenuItem) -> MenuItem {
    match m {
        MenuItem::Play => MenuItem::Settings,
        MenuItem::Settings => MenuItem::Exit,
        MenuItem::Exit => MenuItem::Play,
    }
}

pub open spec fn spec_pause_up(p: PauseItem) -> PauseItem {
    match p {
        PauseItem::Continue => PauseItem::RTTitle,
        PauseItem::Settings => PauseItem::Continue,
        PauseItem::RTTitle => PauseItem::Settings,
    }
}

pub open spec fn spec_pause_down(p: PauseItem) -> PauseItem {
    match p {
        PauseItem::Continue => PauseItem::Settings,
        PauseItem::Settings => PauseItem::RTTitle,
        PauseItem::RTTitle => PauseItem::Continue,
    }
}

/// The outcome that asks nothing of the caller.
pub open spec fn spec_no_action() -> UpdateOutcome {
    UpdateOutcome { quit: false, action: None::<PlayerAction> }
}

/// The main menu's transition table: navigation moves the cursor
/// cyclically, confirmation enters the chosen state or signals quit.
pub open spec fn spec_update_main_menu(pre: GameStateManager, event: InputEvent) -> (
    GameStateManager,
    UpdateOutcome,
) {
    match event {
        InputEvent::KeyDown(k) => match k {
            Key::W | Key::Up => (
                GameStateManager { menu_selection: spec_menu_up(pre.menu_selection), ..pre },
                spec_no_action(),
            ),
            Key::S | Key::Down => (
                GameStateManager { menu_selection: spec_menu_down(pre.menu_selection), ..pre },
                spec_no_action(),
            ),
            Key::Space | Key::Return => match pre.menu_selection {
                MenuItem::Play => (
                    GameStateManager { current_state: GameState::Playing, ..pre },
                    spec_no_action(),
                ),
                MenuItem::Settings => (
                    GameStateManager { current_state: GameState::Settings, ..pre },
                    spec_no_action(),
                ),
                MenuItem::Exit => (
                    pre,
                    UpdateOutcome { quit: true, action: None::<PlayerAction> },
                ),
            },
            _ => (pre, spec_no_action()),
        },
        _ => (pre, spec_no_action()),
    }
}

/// The playing state's transition table: the mouse turns the player, the
/// movement keys ask for a step, escape pauses.
pub open spec fn spec_update_playing(pre: GameStateManager, event: InputEvent) -> (
    GameStateManager,
    UpdateOutcome,
) {
    match event {
        InputEvent::MouseMotion { x, y } => (
            GameStateManager { mouse_x: x, mouse_y: y, ..pre },
            UpdateOutcome { quit: false, action: Some(PlayerAction::FaceToward { x, y }) },
        ),
        InputEvent::KeyDown(k) => match k {
            Key::W => (
                pre,
                UpdateOutcome { quit: false, action: Some(PlayerAction::MoveForward) },
            ),
            Key::S => (
                pre,
                UpdateOutcome { quit: false, action: Some(PlayerAction::MoveBackward) },
            ),
            Key::A => (
                pre,
                UpdateOutcome { quit: false, action: Some(PlayerAction::StrafeLeft) },
            ),
            Key::D => (
                pre,
                UpdateOutcome { quit: false, action: Some(PlayerAction::StrafeRight) },
            ),
            Key::Escape => (
                GameStateManager { current_state: GameState::Paused, ..pre },
                spec_no_action(),
            ),
            _ => (pre, spec_no_action()),
        },
        _ => (pre, spec_no_action()),
    }
}

/// The pause menu's transition table, mirroring the main menu's cyclic
/// cursor: continue, open the settings, or return to the title screen.
pub open spec fn spec_update_paused(pre: GameStateManager, event: InputEvent) -> (
    GameStateManager,
    UpdateOutcome,
) {
    match event {
        InputEvent::KeyDown(k) => match k {
            Key::W | Key::Up => (
                GameStateManager { pause_selection: spec_pause_up(pre.pause_selection), ..pre },
                spec_no_action(),
            ),
            Key::S | Key::Down => (
                GameStateManager { pause_selection: spec_pause_down(pre.pause_selection), ..pre },
                spec_no_action(),
            ),
            Key::Space | Key::Return => match pre.pause_selection {
                PauseItem::Continue => (
                    GameStateManager { current_state: GameState::Playing, ..pre },
                    spec_no_action(),
                ),
                PauseItem::Settings => (
                    GameStateManager { current_state: GameState::Settings, ..pre },
                    spec_no_action(),
                ),
                PauseItem::RTTitle => (
                    GameStateManager { current_state: GameState::MainMenu, ..pre },
                    spec_no_action(),
                ),
            },
            _ => (pre, spec_no_action()),
        },
        _ => (pre, spec_no_action()),
    }
}

/// The whole transition function: dispatch on the active state. The
/// placeholder states absorb every event and never fail on one.
pub open spec fn spec_update(pre: GameStateManager, event: InputEvent) -> (
    GameStateManager,
    UpdateOutcome,
) {
    match pre.current_state {
        GameState::MainMenu => spec_update_main_menu(pre, event),
        GameState::Playing => spec_update_playing(pre, event),
        GameState::Paused => spec_update_paused(pre, event),
        GameState::GameOver => (pre, spec_no_action()),
        GameState::Settings => (pre, spec_no_action()),
        GameState::Transition => (pre, spec_no_action()),
    }
}

/// The render dispatch table: each state maps to exactly one routine.
pub open spec fn spec_render(m: GameStateManager) -> RenderRoutine {
    match m.current_state {
        GameState::MainMenu => RenderRoutine::MainMenuScreen(m.menu_selection),
        GameState::Playing => RenderRoutine::WorldScene,
        GameState::Paused => RenderRoutine::PausedScene(m.pause_selection),
        GameState::GameOver => RenderRoutine::Blank,
        GameState::Settings => RenderRoutine::Blank,
        GameState::Transition => RenderRoutine::Blank,
    }
}

/// Menu cursor navigation is cyclic over the three entries: three steps in
/// one direction return to the start, and one step back undoes one step
/// forward.
pub proof fn lemma_menu_cycle(m: MenuItem)
    ensures
        spec_menu_down(spec_menu_down(spec_menu_down(m))) == m,
        spec_menu_up(spec_menu_up(spec_menu_up(m))) == m,
        spec_menu_up(spec_menu_down(m)) == m,
        spec_menu_down(spec_menu_up(m)) == m,
{
}

/// The pause menu cursor cycles the same way.
pub proof fn lemma_pause_cycle(p: PauseItem)
    ensures
        spec_pause_down(spec_pause_down(spec_pause_down(p))) == p,
        spec_pause_up(spec_pause_up(spec_pause_up(p))) == p,
        spec_pause_up(spec_pause_down(p)) == p,
        spec_pause_down(spec_pause_up(p)) == p,
{
}

/// In the main menu, three downward navigations leave the whole controller
/// exactly where it started, whatever entry the cursor stood on.
pub proof fn lemma_menu_navigation_cyclic(m: GameStateManager, k: Key)
    requires
        m.current_state is MainMenu,
        k == Key::S || k == Key::Down,
    ensures
        ({
            let e = InputEvent::KeyDown(k);
            let s1 = spec_update(m, e).0;
            let s2 = spec_update(s1, e).0;
            let s3 = spec_update(s2, e).0;
            s3 == m
        }),
{
    lemma_menu_cycle(m.menu_selection);
}

/// Quit is a terminal signal in the update outcome, never a state: the
/// controller signals it exactly when the main menu's Exit entry is
/// confirmed, and the state machine itself stays where it is.
pub proof fn lemma_quit_exactly_on_exit_confirm(m: GameStateManager, e: InputEvent)
    ensures
        spec_update(m, e).1.quit <==> (m.current_state is MainMenu && m.menu_selection is Exit && (
        e == InputEvent::KeyDown(Key::Space) || e == InputEvent::KeyDown(Key::Return))),
        spec_update(m, e).1.quit ==> spec_update(m, e).0 == m,
{
}

/// No event touches the screen extent: updates move only the game state,
/// the cursors and the remembered mouse position.
pub proof fn lemma_update_keeps_the_screen(m: GameStateManager, e: InputEvent)
    ensures
        spec_update(m, e).0.screen_width == m.screen_width,
        spec_update(m, e).0.screen_height == m.screen_height,
{
}

/// The states with no defined behavior silently absorb every event: the
/// controller neither changes nor asks anything of its caller.
pub proof fn lemma_placeholder_states_absorb(m: GameStateManager, e: InputEvent)
    requires
        m.current_state is GameOver || m.current_state is Settings || m.current_state
            is Transition,
    ensures
        spec_update(m, e).0 == m,
        spec_update(m, e).1 == spec_no_action(),
{
}

fn menu_up(m: MenuItem) -> (r: MenuItem)
    ensures
        r == spec_menu_up(m),
{
    match m {
        MenuItem::Play => MenuItem::Exit,
        MenuItem::Settings => MenuItem::Play,
        MenuItem::Exit => MenuItem::Settings,
    }
}

fn menu_down(m: MenuItem) -> (r: MenuItem)
    ensures
        r == spec_menu_down(m),
{
    match m {
        MenuItem::Play => MenuItem::Settings,
        MenuItem::Settings => MenuItem::Exit,
        MenuItem::Exit => MenuItem::Play,
    }
}

fn pause_up(p: PauseItem) -> (r: PauseItem)
    ensures
        r == spec_pause_up(p),
{
    match p {
        PauseItem::Continue => PauseItem::RTTitle,
        PauseItem::Settings => PauseItem::Continue,
        PauseItem::RTTitle => PauseItem::Settings,
    }
}

fn pause_down(p: PauseItem) -> (r: PauseItem)
    ensures
        r == spec_pause_down(p),
{
    match p {
        PauseItem::Continue => PauseItem::Settings,
        PauseItem::Settings => PauseItem::RTTitle,
        PauseItem::RTTitle => PauseItem::Continue,
    }
}

impl GameStateManager {
    /// A fresh controller: main menu active, both cursors on their first
    /// entry, the given screen extent and mouse position remembered.
    pub fn new(screen_width: i32, screen_height: i32, mouse_x: i32, mouse_y: i32) -> (r: Result<
        GameStateManager,
        String,
    >)
        ensures
            match r {
                Ok(m) => m == (GameStateManager {
                    menu_selection: MenuItem::Play,
                    pause_selection: PauseItem::Continue,
                    current_state: GameState::MainMenu,
                    screen_width,
                    screen_height,
                    mouse_x,
                    mouse_y,
                }),
                Err(_) => false,
            },
    {
        Ok(
            GameStateManager {
                menu_selection: MenuItem::Play,
                pause_selection: PauseItem::Continue,
                current_state: GameState::MainMenu,
                screen_width,
                screen_height,
                mouse_x,
                mouse_y,
            },
        )
    }

    pub fn get_current_state(&self) -> (r: &GameState)
        ensures
            *r == self.current_state,
    {
        &self.current_state
    }

    pub fn set_state(&mut self, new_state: GameState)
        ensures
            *final(self) == (GameStateManager { current_state: new_state, ..*old(self) }),
    {
        self.current_state = new_state;
    }

    fn update_main_menu(&mut self, event: &InputEvent) -> (out: UpdateOutcome)
        ensures
            *final(self) == spec_update_main_menu(*old(self), *event).0,
            out == spec_update_main_menu(*old(self), *event).1,
    {
        match event {
            InputEvent::KeyDown(k) => match k {
                Key::W | Key::Up => {
                    self.menu_selection = menu_up(self.menu_selection);
                },
                Key::S | Key::Down => {
                    self.menu_selection = menu_down(self.menu_selection);
                },
                Key::Space | Key::Return => match self.menu_selection {
                    MenuItem::Play => {
                        self.set_state(GameState::Playing);
                    },
                    MenuItem::Settings => {
                        self.set_state(GameState::Settings);
                    },
                    MenuItem::Exit => {
                        return UpdateOutcome { quit: true, action: None };
                    },
                },
                _ => {},
            },
            _ => {},
        }
        UpdateOutcome { quit: false, action: None }
    }

    fn update_playing(&mut self, event: &InputEvent) -> (out: UpdateOutcome)
        ensures
            *final(self) == spec_update_playing(*old(self), *event).0,
            out == spec_update_playing(*old(self), *event).1,
    {
        match event {
            InputEvent::MouseMotion { x, y } => {
                self.mouse_x = *x;
                self.mouse_y = *y;
                UpdateOutcome { quit: false, action: Some(PlayerAction::FaceToward { x: *x, y: *y }) }
            },
            InputEvent::KeyDown(Key::W) => {
                UpdateOutcome { quit: false, action: Some(PlayerAction::MoveForward) }
            },
            InputEvent::KeyDown(Key::S) => {
                UpdateOutcome { quit: false, action: Some(PlayerAction::MoveBackward) }
            },
            InputEvent::KeyDown(Key::A) => {
                UpdateOutcome { quit: false, action: Some(PlayerAction::StrafeLeft) }
            },
            InputEvent::KeyDown(Key::D) => {
                UpdateOutcome { quit: false, action: Some(PlayerAction::StrafeRight) }
            },
            InputEvent::KeyDown(Key::Escape) => {
                self.set_state(GameState::Paused);
                UpdateOutcome { quit: false, action: None }
            },
            _ => UpdateOutcome { quit: false, action: None },
        }
    }

    fn update_paused(&mut self, event: &InputEvent) -> (out: UpdateOutcome)
        ensures
            *final(self) == spec_update_paused(*old(self), *event).0,
            out == spec_update_paused(*old(self), *event).1,
    {
        match event {
            InputEvent::KeyDown(k) => match k {
                Key::W | Key::Up => {
                    self.pause_selection = pause_up(self.pause_selection);
                },
                Key::S | Key::Down => {
                    self.pause_selection = pause_down(self.pause_selection);
                },
                Key::Space | Key::Return => match self.pause_selection {
                    PauseItem::Continue => {
                        self.set_state(GameState::Playing);
                    },
                    PauseItem::Settings => {
                        self.set_state(GameState::Settings);
                    },
                    PauseItem::RTTitle => {
                        self.set_state(GameState::MainMenu);
                    },
                },
                _ => {},
            },
            _ => {},
        }
        UpdateOutcome { quit: false, action: None }
    }

    /// Feeds one event to the active state's update routine. The outcome
    /// carries the quit signal and any player action; the surrounding
    /// program applies the action to the pose it owns.
    pub fn update(&mut self, event: &InputEvent) -> (out: UpdateOutcome)
        ensures
            *final(self) == spec_update(*old(self), *event).0,
            out == spec_update(*old(self), *event).1,
    {
        match self.current_state {
            GameState::MainMenu => self.update_main_menu(event),
            GameState::Playing => self.update_playing(event),
            GameState::Paused => self.update_paused(event),
            GameState::GameOver => UpdateOutcome { quit: false, action: None },
            GameState::Settings => UpdateOutcome { quit: false, action: None },
            GameState::Transition => UpdateOutcome { quit: false, action: None },
        }
    }

    /// Names the routine the active state renders with; the surrounding
    /// program draws it.
    pub fn render(&self) -> (r: RenderRoutine)
        ensures
            r == spec_render(*self),
    {
        match self.current_state {
            GameState::MainMenu => RenderRoutine::MainMenuScreen(self.menu_selection),
            GameState::Playing => RenderRoutine::WorldScene,
            GameState::Paused => RenderRoutine::PausedScene(self.pause_selection),
            GameState::GameOver => RenderRoutine::Blank,
            GameState::Settings => RenderRoutine::Blank,
            GameState::Transition => RenderRoutine::Blank,
        }
    }
}

} // verus!
