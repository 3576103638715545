use vstd::prelude::*;

use crate::coord::{Direction, Pos};
use crate::level::Level;
use crate::pos_set::PosSet;
use crate::state::{GameState, StepResult};

verus! {

/// The square the player tries to enter.
pub open spec fn target_of(state: &GameState, dir: Direction) -> Pos {
    state.player.stepped(dir)
}

/// The square a pushed box would enter.
pub open spec fn beyond_of(state: &GameState, dir: Direction) -> Pos {
    state.player.stepped(dir).stepped(dir)
}

/// The step in `dir` is refused: a wall is in the way, or a box that
/// cannot move because a wall or another box is behind it.
pub open spec fn step_blocked(state: &GameState, level: &Level, dir: Direction) -> bool {
    let t = target_of(state, dir);
    let b = beyond_of(state, dir);
    level.walls@.contains(t) || (state.boxes@.contains(t) && (level.walls@.contains(b)
        || state.boxes@.contains(b)))
}

/// The step in `dir` moves a box.
pub open spec fn step_pushes(state: &GameState, level: &Level, dir: Direction) -> bool {
    !step_blocked(state, level, dir) && state.boxes@.contains(target_of(state, dir))
}

/// The coordinates the step computes stay inside `i32`, and the counters
/// it raises stay inside `u32`.
pub open spec fn step_in_range(state: &GameState, level: &Level, dir: Direction) -> bool {
    &&& state.player.can_step(dir)
    &&& (!level.walls@.contains(target_of(state, dir)) && state.boxes@.contains(target_of(state, dir)))
        ==> target_of(state, dir).can_step(dir)
    &&& !step_blocked(state, level, dir) ==> state.moves < u32::MAX
    &&& step_pushes(state, level, dir) ==> state.pushes < u32::MAX
}

/// Tries to move the player one square in `dir`, pushing a box that is in
/// the way when the square behind it is free.
pub fn try_step(state: &mut GameState, level: &Level, dir: Direction) -> (r: StepResult)
    requires
        step_in_range(old(state), level, dir),
    ensures
        r.moved == !step_blocked(old(state), level, dir),
        r.pushed == step_pushes(old(state), level, dir),
        !r.moved ==> {
            &&& final(state).player == old(state).player
            &&& final(state).boxes@ == old(state).boxes@
            &&& final(state).moves == old(state).moves
            &&& final(state).pushes == old(state).pushes
        },
        r.moved ==> {
            &&& final(state).player == target_of(old(state), dir)
            &&& final(state).moves == old(state).moves + 1
        },
        r.moved && !r.pushed ==> {
            &&& final(state).boxes@ == old(state).boxes@
            &&& final(state).pushes == old(state).pushes
        },
        r.pushed ==> {
            &&& final(state).boxes@ == old(state).boxes@.remove(target_of(old(state), dir)).insert(
                beyond_of(old(state), dir),
            )
            &&& final(state).pushes == old(state).pushes + 1
        },
        r.won == (r.moved && final(state).won(level)),
        // the number of boxes never changes
        final(state).boxes@.len() == old(state).boxes@.len(),
        // a consistent state stays consistent
        old(state).consistent_with(level) ==> final(state).consistent_with(level),
{
    let target = state.player.move_dir(dir);

    if level.is_wall(target) {
        return StepResult::default();
    }

    if state.boxes.contains(&target) {
        let beyond = target.move_dir(dir);

        if level.is_wall(beyond) || state.boxes.contains(&beyond) {
            return StepResult::default();
        }

        proof {
            state.boxes.lemma_finite();
        }
        state.boxes.remove(&target);
        state.boxes.insert(beyond);
        state.player = target;
        state.moves += 1;
        state.pushes += 1;

        let won = state.is_won(level);
        return StepResult { moved: true, pushed: true, won };
    }

    state.player = target;
    state.moves += 1;

    let won = state.is_won(level);
    StepResult { moved: true, pushed: false, won }
}


/// Goals never decide a step: a step onto a box whose far square is neither
/// a wall nor a box moves the player and pushes the box; a step onto a
/// square with neither wall nor box moves the player without a push; a step
/// into a wall is refused; and two levels with the same walls decide every
/// step alike, whatever their goals.
pub proof fn lemma_steps_ignore_goals(state: &GameState, level: &Level, other: &Level, dir: Direction)
    requires
        other.walls@ == level.walls@,
    ensures
        ({
            let t = state.player.stepped(dir);
            let b = t.stepped(dir);
            &&& (state.boxes@.contains(t) && !level.walls@.contains(t) && !level.walls@.contains(b)
                && !state.boxes@.contains(b)) ==> !step_blocked(state, level, dir) && step_pushes(state, level, dir)
            &&& (!state.boxes@.contains(t) && !level.walls@.contains(t)) ==> !step_blocked(state, level, dir)
                && !step_pushes(state, level, dir)
            &&& level.walls@.contains(t) ==> step_blocked(state, level, dir)
        }),
        step_blocked(state, other, dir) == step_blocked(state, level, dir),
        step_pushes(state, other, dir) == step_pushes(state, level, dir),
{
}

} // verus!
