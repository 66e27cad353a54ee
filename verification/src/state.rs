//! The states of the game and what moves it from one to the next.

use vstd::prelude::*;

verus! {

/// The states of the game.
#[derive(Clone, Copy, Debug, PartialEq, Eq, Structural)]
pub enum GameState {
    Menu,
    Running,
    GameOver,
}

/// What the player asks for outside the running game.
#[derive(Clone, Copy, Debug, PartialEq, Eq, Structural)]
pub enum Intent {
    Start,
    Retry,
    Exit,
}

/// What follows from an event in a state.
#[derive(Clone, Copy, Debug, PartialEq, Eq, Structural)]
pub enum Step {
    /// Nothing changes.
    Stay,
    /// The game leaves its state for the given one.
    Go(GameState),
    /// The program ends.
    Quit,
}

impl Default for GameState {
    fn default() -> (state: GameState)
        ensures
            state == GameState::Menu,
    {
        GameState::Menu
    }
}

impl GameState {
    /// The menu starts the game, and when the game is over the player may
    /// try again or leave. Any other intent is ignored.
    pub open spec fn spec_on_intent(self, intent: Intent) -> Step {
        match (self, intent) {
            (GameState::Menu, Intent::Start) => Step::Go(GameState::Running),
            (GameState::GameOver, Intent::Retry) => Step::Go(GameState::Running),
            (GameState::GameOver, Intent::Exit) => Step::Quit,
            _ => Step::Stay,
        }
    }

    #[verifier::when_used_as_spec(spec_on_intent)]
    pub fn on_intent(self, intent: Intent) -> (step: Step)
        ensures
            step == self.spec_on_intent(intent),
    {
        match (self, intent) {
            (GameState::Menu, Intent::Start) => Step::Go(GameState::Running),
            (GameState::GameOver, Intent::Retry) => Step::Go(GameState::Running),
            (GameState::GameOver, Intent::Exit) => Step::Quit,
            _ => Step::Stay,
        }
    }

    /// The running game is over as soon as no hit point is left.
    pub open spec fn spec_on_hit_points(self, hp: u8) -> Step {
        if self == GameState::Running && hp == 0 {
            Step::Go(GameState::GameOver)
        } else {
            Step::Stay
        }
    }

    #[verifier::when_used_as_spec(spec_on_hit_points)]
    pub fn on_hit_points(self, hp: u8) -> (step: Step)
        ensures
            step == self.spec_on_hit_points(hp),
    {
        match self {
            GameState::Running => if hp == 0 {
                Step::Go(GameState::GameOver)
            } else {
                Step::Stay
            },
            _ => Step::Stay,
        }
    }
}

} // verus!
