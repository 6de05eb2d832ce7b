use vstd::prelude::*;

verus! {

/// The screens of the game.
#[derive(Clone, Copy, Debug, PartialEq, Eq, Structural)]
pub enum AppState {
    MainMenu,
    InGame,
    GameOver,
}

/// What can move the game from one screen to another.
#[derive(Clone, Copy, Debug, PartialEq, Eq, Structural)]
pub enum SceneAction {
    /// "Start Game" on the main menu.
    StartGame,
    /// "Restart" on the game-over screen.
    Restart,
    /// "Main menu" on the battlefield or on the game-over screen.
    BackToMainMenu,
    /// The base was destroyed during a game.
    BaseDestroyed,
}

/// The screen that `action` leads to from `state`, or `None` when that
/// action does not exist on that screen.
pub open spec fn spec_next_state(state: AppState, action: SceneAction) -> Option<AppState> {
    match (state, action) {
        (AppState::MainMenu, SceneAction::StartGame) => Some(AppState::InGame),
        (AppState::GameOver, SceneAction::Restart) => Some(AppState::InGame),
        (AppState::InGame, SceneAction::BackToMainMenu) => Some(AppState::MainMenu),
        (AppState::GameOver, SceneAction::BackToMainMenu) => Some(AppState::MainMenu),
        (AppState::InGame, SceneAction::BaseDestroyed) => Some(AppState::GameOver),
        _ => None,
    }
}

impl AppState {
    /// The game starts on the main menu.
    pub fn initial() -> (s: AppState)
        ensures
            s == AppState::MainMenu,
    {
        AppState::MainMenu
    }

    /// The screen that `action` leads to, or `None` when the action does not
    /// exist on this screen.
    pub fn next(self, action: SceneAction) -> (r: Option<AppState>)
        ensures
            r == spec_next_state(self, action),
    {
        match (self, action) {
            (AppState::MainMenu, SceneAction::StartGame) => Some(AppState::InGame),
            (AppState::GameOver, SceneAction::Restart) => Some(AppState::InGame),
            (AppState::InGame, SceneAction::BackToMainMenu) => Some(AppState::MainMenu),
            (AppState::GameOver, SceneAction::BackToMainMenu) => Some(AppState::MainMenu),
            (AppState::InGame, SceneAction::BaseDestroyed) => Some(AppState::GameOver),
            _ => None,
        }
    }
}

/// The best score once the game-over screen has shown a game's score.
pub open spec fn spec_best_after(current: u32, best: u32) -> u32 {
    if current > best { current } else { best }
}

/// The score of the last game and the best score so far.
pub struct Score {
    pub current: u32,
    pub best: u32,
}

impl Score {
    /// No game played yet.
    pub fn new() -> (s: Score)
        ensures
            s.current == 0,
            s.best == 0,
    {
        Score { current: 0, best: 0 }
    }

    /// The base was destroyed while `wave_count` was the number of the next
    /// wave: the game's score is the number of waves launched.
    pub fn base_destroyed(&mut self, wave_count: u32)
        requires
            wave_count >= 1,
        ensures
            final(self).current == wave_count - 1,
            final(self).best == old(self).best,
    {
        self.current = wave_count - 1;
    }

    /// Shown on the game-over screen: the best score becomes the current one
    /// when the current one beats it.
    pub fn record_best(&mut self)
        ensures
            final(self).current == old(self).current,
            final(self).best == spec_best_after(old(self).current, old(self).best),
            final(self).best == old(self).current || final(self).best == old(self).best,
            final(self).best >= old(self).current,
            final(self).best >= old(self).best,
    {
        if self.current > self.best {
            self.best = self.current;
        }
    }
}

/// The best score never goes down, after a game-over screen it is at least
/// the score of that game, it is always one of the scores seen (so the larger
/// of the two), and showing the same score again changes nothing.
pub proof fn lemma_best_score_monotone(current: u32, best: u32)
    ensures
        spec_best_after(current, best) >= best,
        spec_best_after(current, best) >= current,
        spec_best_after(current, spec_best_after(current, best)) == spec_best_after(current, best),
        spec_best_after(current, best) == current || spec_best_after(current, best) == best,
{
}

} // verus!
