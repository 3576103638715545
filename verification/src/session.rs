use vstd::prelude::*;

use std::collections::VecDeque;

use crate::coord::{Direction, Pos};
use crate::level::Level;
use crate::rules::{beyond_of, step_blocked, step_in_range, step_pushes, target_of, try_step};
use crate::state::GameState;

verus! {

/// How many earlier states the undo history keeps.
pub const UNDO_LIMIT: usize = 10000;

/// The content of a game state: player, boxes, moves and pushes.
pub type StateModel = (Pos, Set<Pos>, u32, u32);

pub open spec fn state_model(s: GameState) -> StateModel {
    (s.player, s.boxes@, s.moves, s.pushes)
}

/// The states before the most recent moves, oldest first, at most
/// `UNDO_LIMIT` of them.
pub struct UndoHistory {
    states: VecDeque<GameState>,
}

/// The history after recording `s`: the oldest state is dropped when the
/// history is full.
pub open spec fn recorded(h: Seq<StateModel>, s: StateModel) -> Seq<StateModel> {
    if h.len() >= UNDO_LIMIT { h.drop_first().push(s) } else { h.push(s) }
}

impl UndoHistory {
    /// The recorded states, oldest first.
    pub closed spec fn states(&self) -> Seq<StateModel> {
        self.states@.map_values(|s: GameState| state_model(s))
    }

    #[verifier::type_invariant]
    closed spec fn bounded(self) -> bool {
        self.states@.len() <= UNDO_LIMIT
    }

    pub fn new() -> (h: UndoHistory)
        ensures
            h.states() == Seq::<StateModel>::empty(),
    {
        let h = UndoHistory { states: VecDeque::new() };
        assert(h.states() =~= Seq::<StateModel>::empty());
        h
    }

    pub fn len(&self) -> (n: usize)
        ensures
            n == self.states().len(),
            n <= UNDO_LIMIT,
    {
        proof {
            use_type_invariant(self);
        }
        self.states.len()
    }

    /// Forgets every recorded state.
    pub fn clear(&mut self)
        ensures
            final(self).states() == Seq::<StateModel>::empty(),
    {
        self.states = VecDeque::new();
        assert(self.states() =~= Seq::<StateModel>::empty());
    }

    /// Records the state before a move.
    pub fn record(&mut self, before: GameState)
        ensures
            final(self).states() == recorded(old(self).states(), state_model(before)),
    {
        proof {
            use_type_invariant(&*self);
        }
        let ghost h = self.states();
        let mut states: VecDeque<GameState> = VecDeque::new();
        std::mem::swap(&mut states, &mut self.states);
        if states.len() >= UNDO_LIMIT {
            states.pop_front();
        }
        let ghost model = state_model(before);
        states.push_back(before);
        assert(states@.len() <= UNDO_LIMIT);
        self.states = states;
        assert(self.states() =~= recorded(h, model));
    }

    /// Takes back the most recently recorded state.
    pub fn undo(&mut self) -> (r: Option<GameState>)
        ensures
            old(self).states().len() == 0 ==> r is None && final(self).states() == old(self).states(),
            old(self).states().len() > 0 ==> (r matches Some(s) && state_model(s) == old(self).states().last()
                && final(self).states() == old(self).states().drop_last()),
    {
        proof {
            use_type_invariant(&*self);
        }
        let ghost h = self.states();
        let mut states: VecDeque<GameState> = VecDeque::new();
        std::mem::swap(&mut states, &mut self.states);
        let r = states.pop_back();
        self.states = states;
        assert(self.states() =~= if h.len() == 0 { h } else { h.drop_last() });
        r
    }
}

/// Undoing right after recording a state gives that state back, and leaves
/// the history as it was before the recording, less its oldest state when
/// it was full.
pub proof fn lemma_undo_after_record(h: Seq<StateModel>, s: StateModel)
    ensures
        recorded(h, s).len() > 0,
        recorded(h, s).last() == s,
        recorded(h, s).drop_last() == (if h.len() >= UNDO_LIMIT { h.drop_first() } else { h }),
{
    assert(recorded(h, s).drop_last() =~= (if h.len() >= UNDO_LIMIT { h.drop_first() } else { h }));
}

/// A key command of a game session.
#[derive(Clone, Copy, Debug, PartialEq, Eq, Structural)]
pub enum Command {
    Quit,
    Restart,
    NextLevel,
    PreviousLevel,
    Undo,
    Move(Direction),
}

/// What the runtime does after a command.
#[derive(Clone, Copy, Debug, PartialEq, Eq, Structural)]
pub struct Outcome {
    pub quit: bool,
    pub redraw: bool,
    pub won: bool,
}

/// A game in progress over a list of levels: the level played, its state,
/// and the states to go back to.
pub struct Session {
    pub level_index: usize,
    pub state: GameState,
    pub history: UndoHistory,
}

/// The level a game starts on, counted from one and kept in range.
pub open spec fn start_index(start_level: usize, count: usize) -> usize {
    if start_level < 1 { 0 } else if start_level > count { (count - 1) as usize } else { (start_level - 1) as usize }
}

/// The index of the next level, wrapping to the first.
pub open spec fn next_index(i: usize, count: usize) -> usize {
    ((i + 1) % (count as int)) as usize
}

/// The index of the previous level, wrapping to the last.
pub open spec fn previous_index(i: usize, count: usize) -> usize {
    if i == 0 { (count - 1) as usize } else { (i - 1) as usize }
}

/// Going to the previous level undoes going to the next one, and the other
/// way round; with more than one level both always change the level, and
/// both stay inside the pack.
pub proof fn lemma_previous_undoes_next(i: usize, count: usize)
    requires
        i < count,
    ensures
        next_index(i, count) < count,
        previous_index(i, count) < count,
        previous_index(next_index(i, count), count) == i,
        next_index(previous_index(i, count), count) == i,
        count > 1 ==> next_index(i, count) != i && previous_index(i, count) != i,
{
    if i + 1 < count {
        assert((i + 1) % (count as int) == i + 1) by {
            vstd::arithmetic::div_mod::lemma_small_mod((i + 1) as nat, count as nat);
        }
    } else {
        assert((i + 1) % (count as int) == 0) by {
            vstd::arithmetic::div_mod::lemma_mod_self_0(count as int);
        }
    }
    let p = previous_index(i, count);
    if p + 1 < count {
        assert((p + 1) % (count as int) == p + 1) by {
            vstd::arithmetic::div_mod::lemma_small_mod((p + 1) as nat, count as nat);
        }
    } else {
        assert((p + 1) % (count as int) == 0) by {
            vstd::arithmetic::div_mod::lemma_mod_self_0(count as int);
        }
    }
}

/// The state at the start of `level`.
pub open spec fn start_state(level: &Level) -> StateModel {
    (level.start_player, level.start_boxes@, 0u32, 0u32)
}

pub fn first_level_index(start_level: usize, count: usize) -> (i: usize)
    requires
        count > 0,
    ensures
        i == start_index(start_level, count),
        i < count,
{
    if start_level < 1 {
        0
    } else if start_level > count {
        count - 1
    } else {
        start_level - 1
    }
}

/// Whether `try_step` can be called for this move without leaving the
/// range of `i32` coordinates or `u32` counters.
pub fn step_fits(state: &GameState, level: &Level, dir: Direction) -> (b: bool)
    ensures
        b == step_in_range(state, level, dir),
{
    let p = state.player;
    let fits1 = match dir {
        Direction::Up => p.y > i32::MIN,
        Direction::Down => p.y < i32::MAX,
        Direction::Left => p.x > i32::MIN,
        Direction::Right => p.x < i32::MAX,
    };
    if !fits1 {
        return false;
    }
    let t = p.move_dir(dir);
    if level.is_wall(t) {
        return true;
    }
    let has_box = state.boxes.contains(&t);
    if has_box {
        let fits2 = match dir {
            Direction::Up => t.y > i32::MIN,
            Direction::Down => t.y < i32::MAX,
            Direction::Left => t.x > i32::MIN,
            Direction::Right => t.x < i32::MAX,
        };
        if !fits2 {
            return false;
        }
        let b = t.move_dir(dir);
        if level.is_wall(b) || state.boxes.contains(&b) {
            return true;
        }
        state.moves < u32::MAX && state.pushes < u32::MAX
    } else {
        state.moves < u32::MAX
    }
}

/// A state of this content could arise on `level` by the rules: the
/// player stands on neither a wall nor a box, and no box on a wall.
pub open spec fn model_consistent(m: StateModel, level: &Level) -> bool {
    &&& !level.walls@.contains(m.0)
    &&& !m.1.contains(m.0)
    &&& m.1.disjoint(level.walls@)
}

/// Every level can be played.
pub open spec fn all_playable(levels: Seq<Level>) -> bool {
    forall|i: int| 0 <= i < levels.len() ==> (#[trigger] levels[i])@.playable()
}

/// A game that starts on a playable level starts in a state the rules could
/// reach.
pub proof fn lemma_start_state_consistent(level: &Level)
    requires
        level@.playable(),
    ensures
        model_consistent(start_state(level), level),
{
}

impl Session {
    /// The current state, and every state the history can bring back, could
    /// arise on the current level.
    pub open spec fn sound(&self, levels: Seq<Level>) -> bool {
        &&& self.on(levels)
        &&& model_consistent(state_model(self.state), &levels[self.level_index as int])
        &&& forall|k: int| 0 <= k < self.history.states().len() ==> model_consistent(
            #[trigger] self.history.states()[k],
            &levels[self.level_index as int],
        )
    }

    /// The session is playing one of `levels`.
    pub open spec fn on(&self, levels: Seq<Level>) -> bool {
        self.level_index < levels.len()
    }

    /// Starts on level `start_level` (counted from one, kept in range).
    pub fn new(levels: &[Level], start_level: usize) -> (s: Session)
        requires
            levels@.len() > 0,
        ensures
            s.level_index == start_index(start_level, levels@.len() as usize),
            s.on(levels@),
            state_model(s.state) == start_state(&levels@[s.level_index as int]),
            s.history.states() == Seq::<StateModel>::empty(),
            all_playable(levels@) ==> s.sound(levels@),
    {
        let i = first_level_index(start_level, levels.len());
        Session { level_index: i, state: GameState::from_level(&levels[i]), history: UndoHistory::new() }
    }

    fn reset(&mut self, levels: &[Level], index: usize)
        requires
            index < levels@.len(),
        ensures
            final(self).level_index == index,
            state_model(final(self).state) == start_state(&levels@[index as int]),
            final(self).history.states() == Seq::<StateModel>::empty(),
    {
        self.level_index = index;
        self.state = GameState::from_level(&levels[index]);
        self.history.clear();
    }

    /// Carries out one command: quit; restart the level; go to the next or
    /// previous level (wrapping around); undo the last move; or try a move,
    /// recording the state before it when the player moved.
    pub fn apply(&mut self, levels: &[Level], cmd: Command) -> (out: Outcome)
        requires
            old(self).on(levels@),
            cmd matches Command::Move(dir) ==> step_in_range(&old(self).state, &levels@[old(self).level_index as int], dir),
        ensures
            final(self).on(levels@),
            out.quit == (cmd == Command::Quit),
            cmd == Command::Quit ==> final(self).level_index == old(self).level_index
                && state_model(final(self).state) == state_model(old(self).state)
                && final(self).history.states() == old(self).history.states() && !out.redraw,
            cmd == Command::Restart ==> final(self).level_index == old(self).level_index
                && state_model(final(self).state) == start_state(&levels@[old(self).level_index as int])
                && final(self).history.states().len() == 0 && out.redraw,
            cmd == Command::NextLevel ==> final(self).level_index == next_index(old(self).level_index, levels@.len() as usize)
                && state_model(final(self).state) == start_state(&levels@[final(self).level_index as int])
                && final(self).history.states().len() == 0 && out.redraw,
            cmd == Command::PreviousLevel ==> final(self).level_index == previous_index(old(self).level_index, levels@.len() as usize)
                && state_model(final(self).state) == start_state(&levels@[final(self).level_index as int])
                && final(self).history.states().len() == 0 && out.redraw,
            cmd == Command::Undo ==> final(self).level_index == old(self).level_index && if old(self).history.states().len() == 0 {
                state_model(final(self).state) == state_model(old(self).state) && !out.redraw
                    && final(self).history.states() == old(self).history.states()
            } else {
                state_model(final(self).state) == old(self).history.states().last()
                    && final(self).history.states() == old(self).history.states().drop_last() && out.redraw
            },
            cmd matches Command::Move(dir) ==> {
                let lv = &levels@[old(self).level_index as int];
                let moved = !step_blocked(&old(self).state, lv, dir);
                &&& final(self).level_index == old(self).level_index
                &&& out.redraw == moved
                &&& out.won == (moved && final(self).state.won(lv))
                &&& moved ==> final(self).history.states() == recorded(old(self).history.states(), state_model(old(self).state))
                &&& !moved ==> final(self).history.states() == old(self).history.states()
                        && state_model(final(self).state) == state_model(old(self).state)
                &&& moved ==> final(self).state.player == target_of(&old(self).state, dir)
                &&& moved ==> final(self).state.moves == old(self).state.moves + 1
                &&& moved ==> final(self).state.pushes == old(self).state.pushes + (if step_pushes(
                    &old(self).state,
                    lv,
                    dir,
                ) {
                    1int
                } else {
                    0int
                })
                &&& moved ==> final(self).state.boxes@ == (if step_pushes(&old(self).state, lv, dir) {
                    old(self).state.boxes@.remove(target_of(&old(self).state, dir)).insert(
                        beyond_of(&old(self).state, dir),
                    )
                } else {
                    old(self).state.boxes@
                })
                &&& old(self).state.consistent_with(lv) ==> final(self).state.consistent_with(lv)
            },
            !(cmd matches Command::Move(_)) ==> !out.won,
            // on playable levels, every reachable state could arise by the rules
            all_playable(levels@) && old(self).sound(levels@) ==> final(self).sound(levels@),
    {
        let n = levels.len();
        match cmd {
            Command::Quit => Outcome { quit: true, redraw: false, won: false },
            Command::Restart => {
                let i = self.level_index;
                self.reset(levels, i);
                Outcome { quit: false, redraw: true, won: false }
            },
            Command::NextLevel => {
                let i = (self.level_index + 1) % n;
                self.reset(levels, i);
                Outcome { quit: false, redraw: true, won: false }
            },
            Command::PreviousLevel => {
                let i = if self.level_index == 0 { n - 1 } else { self.level_index - 1 };
                self.reset(levels, i);
                Outcome { quit: false, redraw: true, won: false }
            },
            Command::Undo => {
                match self.history.undo() {
                    Some(previous) => {
                        proof {
                            let h = old(self).history.states();
                            if all_playable(levels@) && old(self).sound(levels@) {
                                assert(model_consistent(h[h.len() - 1], &levels@[self.level_index as int]));
                                assert forall|k: int| 0 <= k < self.history.states().len() implies model_consistent(
                                    #[trigger] self.history.states()[k], &levels@[self.level_index as int]) by {
                                    assert(self.history.states()[k] == h[k]);
                                }
                            }
                        }
                        self.state = previous;
                        Outcome { quit: false, redraw: true, won: false }
                    },
                    None => Outcome { quit: false, redraw: false, won: false },
                }
            },
            Command::Move(dir) => {
                let before = self.state.clone();
                let level = &levels[self.level_index];
                let ghost h = self.history.states();
                let result = try_step(&mut self.state, level, dir);
                if result.moved {
                    self.history.record(before);
                    proof {
                        let h2 = self.history.states();
                        if all_playable(levels@) && old(self).sound(levels@) {
                            assert forall|k: int| 0 <= k < h2.len() implies model_consistent(#[trigger] h2[k], level) by {
                                if k < h2.len() - 1 {
                                    if h.len() >= UNDO_LIMIT {
                                        assert(h2[k] == h[k + 1]);
                                    } else {
                                        assert(h2[k] == h[k]);
                                    }
                                }
                            }
                        }
                    }
                }
                Outcome { quit: false, redraw: result.moved, won: result.won }
            },
        }
    }
}

} // verus!
