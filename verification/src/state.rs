use vstd::prelude::*;

use crate::coord::Pos;
use crate::level::Level;
use crate::pos_set::PosSet;

verus! {

/// The moving part of a game: where the player and the boxes are, and
/// how many moves and pushes were made.
#[derive(Debug)]
pub struct GameState {
    pub player: Pos,
    pub boxes: PosSet,
    pub moves: u32,
    pub pushes: u32,
}

impl GameState {
    pub fn from_level(level: &Level) -> (s: GameState)
        ensures
            s.player == level.start_player,
            s.boxes@ == level.start_boxes@,
            s.moves == 0,
            s.pushes == 0,
    {
        GameState { player: level.start_player, boxes: level.start_boxes.clone(), moves: 0, pushes: 0 }
    }

    /// Every box stands on a goal.
    pub open spec fn won(&self, level: &Level) -> bool {
        self.boxes@.subset_of(level.goals@)
    }

    pub fn is_won(&self, level: &Level) -> (b: bool)
        ensures
            b == self.won(level),
    {
        self.boxes.is_subset(&level.goals)
    }

    /// The state is one the rules can reach: the player stands on neither a
    /// wall nor a box, and no box stands on a wall.
    pub open spec fn consistent_with(&self, level: &Level) -> bool {
        &&& !level.walls@.contains(self.player)
        &&& !self.boxes@.contains(self.player)
        &&& self.boxes@.disjoint(level.walls@)
    }
}

impl Clone for GameState {
    fn clone(&self) -> (s: GameState)
        ensures
            s.player == self.player,
            s.boxes@ == self.boxes@,
            s.moves == self.moves,
            s.pushes == self.pushes,
    {
        GameState { player: self.player, boxes: self.boxes.clone(), moves: self.moves, pushes: self.pushes }
    }
}

/// What one step did.
#[derive(Clone, Copy, Debug, PartialEq, Eq, Structural)]
pub struct StepResult {
    pub moved: bool,
    pub pushed: bool,
    pub won: bool,
}

impl Default for StepResult {
    fn default() -> (r: StepResult)
        ensures
            !r.moved && !r.pushed && !r.won,
    {
        StepResult { moved: false, pushed: false, won: false }
    }
}

} // verus!
