//! The screens the application passes through.
use vstd::prelude::*;

verus! {

/// The screen the application is on.
#[derive(Clone, Copy, Debug, PartialEq, Eq, Hash, Structural)]
pub enum AppState {
    Splashscreen,
    Loading,
    MainMenu,
    WorldGeneration,
    MainGame,
}

/// The screen that follows `s`; the game screen is the last.
pub open spec fn next_spec(s: AppState) -> AppState {
    match s {
        AppState::Splashscreen => AppState::Loading,
        AppState::Loading => AppState::MainMenu,
        AppState::MainMenu => AppState::WorldGeneration,
        AppState::WorldGeneration => AppState::MainGame,
        AppState::MainGame => AppState::MainGame,
    }
}

impl AppState {
    /// The screen that follows this one once it is done.
    pub fn next(&self) -> (r: AppState)
        ensures
            r == next_spec(*self),
    {
        match self {
            AppState::Splashscreen => AppState::Loading,
            AppState::Loading => AppState::MainMenu,
            AppState::MainMenu => AppState::WorldGeneration,
            AppState::WorldGeneration => AppState::MainGame,
            AppState::MainGame => AppState::MainGame,
        }
    }
}

impl Default for AppState {
    /// The application starts on the splash screen.
    fn default() -> (r: AppState)
        ensures
            r == AppState::Splashscreen,
    {
        AppState::Splashscreen
    }
}

} // verus!
