use vstd::prelude::*;

verus! {

/// The two phases of the scene: assets and scene parts are still being set
/// up, or everything is ready and the simulation runs.
#[derive(Clone, Copy, Debug, PartialEq, Eq, Hash, Structural)]
pub enum GameState {
    Loading,
    Game,
}

impl Default for GameState {
    fn default() -> (s: Self)
        ensures
            s == GameState::Loading,
    {
        GameState::Loading
    }
}

/// The state after one readiness check, given how many not-ready markers are
/// still present: loading ends exactly when none is left.
pub open spec fn spec_next_state(state: GameState, not_ready: nat) -> GameState {
    match state {
        GameState::Loading => if not_ready == 0 {
            GameState::Game
        } else {
            GameState::Loading
        },
        GameState::Game => GameState::Game,
    }
}

/// The state after a series of readiness checks, one per frame, each seeing
/// the given number of not-ready markers.
pub open spec fn spec_run_checks(state: GameState, counts: Seq<nat>) -> GameState
    decreases counts.len(),
{
    if counts.len() == 0 {
        state
    } else {
        spec_next_state(spec_run_checks(state, counts.drop_last()), counts.last())
    }
}

/// One readiness check: while loading, the scene switches to `Game` as soon
/// as no not-ready marker is left; once running, it stays running.
pub fn check_ready(state: GameState, not_ready: usize) -> (next: GameState)
    ensures
        next == spec_next_state(state, not_ready as nat),
{
    match state {
        GameState::Loading => {
            if not_ready == 0 {
                GameState::Game
            } else {
                GameState::Loading
            }
        },
        GameState::Game => GameState::Game,
    }
}

/// Once the scene runs, no readiness check brings it back to loading.
pub proof fn law_game_is_final(counts: Seq<nat>)
    ensures
        spec_run_checks(GameState::Game, counts) == GameState::Game,
    decreases counts.len(),
{
    if counts.len() > 0 {
        law_game_is_final(counts.drop_last());
    }
}

/// Starting from loading, the scene runs after a series of checks exactly
/// when one of those checks saw no not-ready marker left.
pub proof fn law_loading_ends_when_all_ready(counts: Seq<nat>)
    ensures
        (spec_run_checks(GameState::Loading, counts) == GameState::Game) <==> (exists|i: int|
            0 <= i < counts.len() && #[trigger] counts[i] == 0),
    decreases counts.len(),
{
    if counts.len() > 0 {
        let init = counts.drop_last();
        law_loading_ends_when_all_ready(init);
        if exists|i: int| 0 <= i < init.len() && #[trigger] init[i] == 0 {
            let i = choose|i: int| 0 <= i < init.len() && #[trigger] init[i] == 0;
            assert(counts[i] == 0);
        }
        if exists|i: int| 0 <= i < counts.len() && #[trigger] counts[i] == 0 {
            let i = choose|i: int| 0 <= i < counts.len() && #[trigger] counts[i] == 0;
            if i < init.len() {
                assert(init[i] == 0);
            }
        }
    }
}

} // verus!
