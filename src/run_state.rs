//! The run-state machine that sequences turn phases and menu screens.

use vstd::prelude::*;

verus! {

/// The current state of the game.
#[derive(Debug, Clone, Copy, PartialEq, Eq, Hash, Structural)]
pub enum RunState {
    MainMenu,
    ShowInventory,
    ShowDropItem,
    AwaitingInput,
    Player,
    Monster,
}

#[derive(Debug, Clone, Copy, PartialEq, Eq, Structural)]
pub enum MainMenuSelection {
    NewGame,
    LoadGame,
    Quit,
}

/// What the main menu reported this tick.
#[derive(Debug, Clone, Copy, PartialEq, Eq, Structural)]
pub enum MainMenuResult {
    NoSelection { selected: MainMenuSelection },
    Selected { selected: MainMenuSelection },
}

/// What the inventory screen reported this tick.
#[derive(Debug, Clone, Copy, PartialEq, Eq, Structural)]
pub enum ItemMenuResult {
    Cancel,
    NoResponse,
    Selected,
}

/// What the drop screen reported this tick.
#[derive(Debug, Clone, Copy, PartialEq, Eq, Structural)]
pub enum DropItemResult {
    Cancel,
    NoResponse,
    Selected,
}

/// What the caller's loop must do once the state has been advanced.
#[derive(Debug, Clone, Copy, PartialEq, Eq, Structural)]
pub enum TurnAction {
    Continue,
    LoadGame,
    Quit,
}

impl RunState {
    /// The game loop's successor of a state; menus and the main menu stay where they are.
    pub open spec fn spec_advance(self) -> RunState {
        match self {
            RunState::AwaitingInput => RunState::Player,
            RunState::Player => RunState::Monster,
            RunState::Monster => RunState::AwaitingInput,
            other => other,
        }
    }

    /// Moves the game loop one phase on.
    pub fn advance_state(state: &mut RunState)
        ensures
            *final(state) == old(state).spec_advance(),
    {
        let next = match *state {
            RunState::AwaitingInput => RunState::Player,
            RunState::Player => RunState::Monster,
            RunState::Monster => RunState::AwaitingInput,
            other => other,
        };
        *state = next;
    }
}

/// The state after a tick, given what the menus reported.
pub open spec fn spec_next_turn_state(
    state: RunState,
    main_menu: MainMenuResult,
    item_menu: ItemMenuResult,
    drop_menu: DropItemResult,
) -> RunState {
    match state {
        RunState::MainMenu => match main_menu {
            MainMenuResult::Selected { selected: MainMenuSelection::NewGame } => RunState::AwaitingInput,
            _ => RunState::MainMenu,
        },
        RunState::ShowInventory => match item_menu {
            ItemMenuResult::Cancel => RunState::AwaitingInput,
            ItemMenuResult::NoResponse => RunState::ShowInventory,
            ItemMenuResult::Selected => RunState::Player,
        },
        RunState::ShowDropItem => match drop_menu {
            DropItemResult::Cancel => RunState::AwaitingInput,
            DropItemResult::NoResponse => RunState::ShowDropItem,
            DropItemResult::Selected => RunState::Player,
        },
        RunState::AwaitingInput => RunState::AwaitingInput,
        other => other.spec_advance(),
    }
}

/// Advances the state at the end of a tick. Using or dropping an item takes a turn; input
/// itself moves `AwaitingInput` on.
pub fn next_turn_state_system(
    state: &mut RunState,
    main_menu: MainMenuResult,
    item_menu: ItemMenuResult,
    drop_menu: DropItemResult,
) -> (r: TurnAction)
    ensures
        *final(state) == spec_next_turn_state(*old(state), main_menu, item_menu, drop_menu),
        r == (match (*old(state), main_menu) {
            (RunState::MainMenu, MainMenuResult::Selected { selected: MainMenuSelection::LoadGame }) => TurnAction::LoadGame,
            (RunState::MainMenu, MainMenuResult::Selected { selected: MainMenuSelection::Quit }) => TurnAction::Quit,
            _ => TurnAction::Continue,
        }),
{
    match *state {
        RunState::MainMenu => {
            if let MainMenuResult::Selected { selected } = main_menu {
                match selected {
                    MainMenuSelection::NewGame => {
                        *state = RunState::AwaitingInput;
                    },
                    MainMenuSelection::LoadGame => {
                        return TurnAction::LoadGame;
                    },
                    MainMenuSelection::Quit => {
                        return TurnAction::Quit;
                    },
                }
            }
        },
        RunState::ShowInventory => match item_menu {
            ItemMenuResult::Cancel => {
                *state = RunState::AwaitingInput;
            },
            ItemMenuResult::NoResponse => {},
            ItemMenuResult::Selected => {
                *state = RunState::Player;
            },
        },
        RunState::ShowDropItem => match drop_menu {
            DropItemResult::Cancel => {
                *state = RunState::AwaitingInput;
            },
            DropItemResult::NoResponse => {},
            DropItemResult::Selected => {
                *state = RunState::Player;
            },
        },
        RunState::AwaitingInput => {},
        _ => {
            RunState::advance_state(state);
        },
    }
    TurnAction::Continue
}

/// Whether the in-game systems run: in every state but the main menu.
pub fn run_if_in_game(state: RunState) -> (r: bool)
    ensures
        r == (state != RunState::MainMenu),
{
    state != RunState::MainMenu
}

/// Turn-state cycle: `Player` always passes to `Monster`, and `Monster` always returns to
/// `AwaitingInput`, whatever the menus report; `AwaitingInput` stays until input moves it to
/// `Player`.
pub proof fn lemma_turn_cycle(
    main_menu: MainMenuResult,
    item_menu: ItemMenuResult,
    drop_menu: DropItemResult,
)
    ensures
        RunState::AwaitingInput.spec_advance() == RunState::Player,
        spec_next_turn_state(RunState::Player, main_menu, item_menu, drop_menu) == RunState::Monster,
        spec_next_turn_state(RunState::Monster, main_menu, item_menu, drop_menu)
            == RunState::AwaitingInput,
        spec_next_turn_state(RunState::AwaitingInput, main_menu, item_menu, drop_menu)
            == RunState::AwaitingInput,
{
}

} // verus!
