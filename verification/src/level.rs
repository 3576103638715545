use vstd::prelude::*;

use crate::coord::Pos;
use crate::editor::{max_len, rows_of, lemma_row_le_max};
use crate::pos_set::PosSet;
use crate::text::{chars_of, copy_range, is_space_char, string_from_chars, trim, trim_chars};

verus! {

/// A playable level: its board and where the pieces start.
#[derive(Clone, Debug)]
pub struct Level {
    pub width: i32,
    pub height: i32,
    pub walls: PosSet,
    pub goals: PosSet,
    pub start_player: Pos,
    pub start_boxes: PosSet,
    pub name: Option<String>,
}

/// The mathematical content of a level.
pub struct LevelModel {
    pub width: int,
    pub height: int,
    pub walls: Set<Pos>,
    pub goals: Set<Pos>,
    pub start_player: Pos,
    pub start_boxes: Set<Pos>,
    pub name: Option<Seq<char>>,
}

pub open spec fn opt_string_view(s: Option<String>) -> Option<Seq<char>> {
    match s {
        Some(t) => Some(t@),
        None => None,
    }
}

impl View for Level {
    type V = LevelModel;

    open spec fn view(&self) -> LevelModel {
        LevelModel {
            width: self.width as int,
            height: self.height as int,
            walls: self.walls@,
            goals: self.goals@,
            start_player: self.start_player,
            start_boxes: self.start_boxes@,
            name: opt_string_view(self.name),
        }
    }
}

impl Level {
    pub fn is_wall(&self, pos: Pos) -> (b: bool)
        ensures
            b == self.walls@.contains(pos),
    {
        self.walls.contains(&pos)
    }

    pub fn is_goal(&self, pos: Pos) -> (b: bool)
        ensures
            b == self.goals@.contains(pos),
    {
        self.goals.contains(&pos)
    }
}

impl LevelModel {
    /// A level a game can start on: the player stands on neither a wall
    /// nor a box, no box or goal is a wall, there is a box, and there are
    /// at least as many goals as boxes.
    pub open spec fn playable(self) -> bool {
        &&& !self.walls.contains(self.start_player)
        &&& !self.start_boxes.contains(self.start_player)
        &&& self.start_boxes.disjoint(self.walls)
        &&& self.goals.disjoint(self.walls)
        &&& self.start_boxes.len() > 0
        &&& self.goals.len() >= self.start_boxes.len()
    }
}

/// Why a grid is not a level.
#[derive(Clone, Copy, Debug, PartialEq, Eq, Structural)]
pub enum LevelError {
    NoGridLines,
    InvalidChar { ch: char, line: usize, column: usize },
    DuplicatePlayer { line: usize, column: usize },
    MissingPlayer,
    NoBoxes,
    TooFewGoals { goals: usize, boxes: usize },
}

/// A level as read from a pack: its rows of characters and its name.
#[derive(Clone, Debug)]
pub struct RawLevel {
    pub name: Option<String>,
    pub lines: Vec<String>,
}

/// A level pack: where it was read from and its levels in order.
#[derive(Clone, Debug)]
pub struct LevelPack {
    pub source: String,
    pub levels: Vec<RawLevel>,
}

/// The first level of a pack that could not be read, counted from one.
#[derive(Clone, Copy, Debug, PartialEq, Eq, Structural)]
pub struct ParseLevelsError {
    pub level: usize,
    pub error: LevelError,
}

// ---------------------------------------------------------------- the grid format

/// A character that may stand in a level grid.
pub open spec fn is_level_char(c: char) -> bool {
    c == '#' || c == ' ' || c == '-' || c == '.' || c == '@' || c == '+' || c == '$' || c == '*'
}

pub open spec fn is_player_char(c: char) -> bool {
    c == '@' || c == '+'
}

pub open spec fn is_wall_char(c: char) -> bool {
    c == '#'
}

pub open spec fn is_goal_char(c: char) -> bool {
    c == '.' || c == '+' || c == '*'
}

pub open spec fn is_box_char(c: char) -> bool {
    c == '$' || c == '*'
}

/// `(r, c)` names a character of `rows`.
pub open spec fn in_rows(rows: Seq<Seq<char>>, r: int, c: int) -> bool {
    0 <= r < rows.len() && 0 <= c < rows[r].len()
}

/// `(r2, c2)` comes before `(r, c)` in reading order.
pub open spec fn before(r2: int, c2: int, r: int, c: int) -> bool {
    r2 < r || (r2 == r && c2 < c)
}

/// A player character stands before `(r, c)`.
pub open spec fn player_before_pos(rows: Seq<Seq<char>>, r: int, c: int) -> bool {
    exists|r2: int, c2: int| before(r2, c2, r, c) && in_rows(rows, r2, c2) && #[trigger] is_player_char(rows[r2][c2])
}

/// Reading stops at `(r, c)`: the character there is not a grid
/// character, or it is a second player.
pub open spec fn stop_at(rows: Seq<Seq<char>>, r: int, c: int) -> bool {
    in_rows(rows, r, c) && (!is_level_char(rows[r][c]) || (is_player_char(rows[r][c])
        && player_before_pos(rows, r, c)))
}

/// `(r, c)` is the first place where reading stops.
pub open spec fn first_stop(rows: Seq<Seq<char>>, r: int, c: int) -> bool {
    stop_at(rows, r, c) && forall|r2: int, c2: int| before(r2, c2, r, c) ==> !#[trigger] stop_at(rows, r2, c2)
}

pub open spec fn has_stop(rows: Seq<Seq<char>>) -> bool {
    exists|r: int, c: int| #[trigger] stop_at(rows, r, c)
}

pub open spec fn wall_chars() -> spec_fn(char) -> bool {
    |c: char| is_wall_char(c)
}

pub open spec fn goal_chars() -> spec_fn(char) -> bool {
    |c: char| is_goal_char(c)
}

pub open spec fn box_chars() -> spec_fn(char) -> bool {
    |c: char| is_box_char(c)
}

/// The position of row `r`, column `c`.
pub open spec fn pos_of(r: int, c: int) -> Pos {
    Pos { x: c as i32, y: r as i32 }
}

/// `p` names a character of `rows` that satisfies `pred`.
pub open spec fn char_where(rows: Seq<Seq<char>>, p: Pos, pred: spec_fn(char) -> bool) -> bool {
    in_rows(rows, p.y as int, p.x as int) && pred(rows[p.y as int][p.x as int])
}

/// The positions of the characters of `rows` that satisfy `pred`.
pub open spec fn positions_where(rows: Seq<Seq<char>>, pred: spec_fn(char) -> bool) -> Set<Pos> {
    Set::new(|p: Pos| char_where(rows, p, pred))
}

pub open spec fn has_player(rows: Seq<Seq<char>>) -> bool {
    exists|r: int, c: int| in_rows(rows, r, c) && #[trigger] is_player_char(rows[r][c])
}

/// The level that `rows` describe, or the first reason they describe none.
pub open spec fn parse_grid(rows: Seq<Seq<char>>, name: Option<Seq<char>>) -> Result<LevelModel, LevelError> {
    let walls = positions_where(rows, wall_chars());
    let goals = positions_where(rows, goal_chars());
    let boxes = positions_where(rows, box_chars());
    if rows.len() == 0 {
        Err(LevelError::NoGridLines)
    } else if has_stop(rows) {
        let (r, c) = choose|r: int, c: int| first_stop(rows, r, c);
        if !is_level_char(rows[r][c]) {
            Err(LevelError::InvalidChar { ch: rows[r][c], line: (r + 1) as usize, column: (c + 1) as usize })
        } else {
            Err(LevelError::DuplicatePlayer { line: (r + 1) as usize, column: (c + 1) as usize })
        }
    } else if !has_player(rows) {
        Err(LevelError::MissingPlayer)
    } else if boxes.len() == 0 {
        Err(LevelError::NoBoxes)
    } else if goals.len() < boxes.len() {
        Err(LevelError::TooFewGoals { goals: goals.len() as usize, boxes: boxes.len() as usize })
    } else {
        let (r, c) = choose|r: int, c: int| in_rows(rows, r, c) && is_player_char(rows[r][c]);
        Ok(
            LevelModel {
                width: max_len(rows) as int,
                height: rows.len() as int,
                walls,
                goals,
                start_player: pos_of(r, c),
                start_boxes: boxes,
                name,
            },
        )
    }
}

/// The grid is small enough for its coordinates to be `i32` values.
pub open spec fn grid_fits(rows: Seq<Seq<char>>) -> bool {
    rows.len() <= i32::MAX && max_len(rows) <= i32::MAX
}

pub open spec fn level_result_view(r: Result<Level, LevelError>) -> Result<LevelModel, LevelError> {
    match r {
        Ok(l) => Ok(l@),
        Err(e) => Err(e),
    }
}


/// The positions satisfying `pred` among the characters read before `(y, x)`.
pub open spec fn scanned(rows: Seq<Seq<char>>, pred: spec_fn(char) -> bool, y: int, x: int) -> Set<Pos> {
    Set::new(|p: Pos| char_where(rows, p, pred) && before(p.y as int, p.x as int, y, x))
}

proof fn lemma_scanned_step(rows: Seq<Seq<char>>, pred: spec_fn(char) -> bool, y: int, x: int)
    requires
        0 <= y <= i32::MAX,
        0 <= x <= i32::MAX,
    ensures
        scanned(rows, pred, y, x + 1) == (if in_rows(rows, y, x) && pred(rows[y][x]) {
            scanned(rows, pred, y, x).insert(pos_of(y, x))
        } else {
            scanned(rows, pred, y, x)
        }),
{
    let a = scanned(rows, pred, y, x + 1);
    let b = if in_rows(rows, y, x) && pred(rows[y][x]) {
        scanned(rows, pred, y, x).insert(pos_of(y, x))
    } else {
        scanned(rows, pred, y, x)
    };
    assert forall|p: Pos| a.contains(p) <==> b.contains(p) by {
        if p == pos_of(y, x) {
            assert(p.x as int == x && p.y as int == y);
        }
        if p.x as int == x && p.y as int == y {
            assert(p == pos_of(y, x));
        }
    }
    assert(a =~= b);
}

proof fn lemma_scanned_row(rows: Seq<Seq<char>>, pred: spec_fn(char) -> bool, y: int)
    requires
        0 <= y < rows.len(),
    ensures
        scanned(rows, pred, y, max_len(rows) as int) == scanned(rows, pred, y + 1, 0),
{
    lemma_row_le_max(rows, y);
    assert(scanned(rows, pred, y, max_len(rows) as int) =~= scanned(rows, pred, y + 1, 0));
}

proof fn lemma_scanned_all(rows: Seq<Seq<char>>, pred: spec_fn(char) -> bool)
    ensures
        scanned(rows, pred, rows.len() as int, 0) == positions_where(rows, pred),
{
    assert(scanned(rows, pred, rows.len() as int, 0) =~= positions_where(rows, pred));
}

proof fn lemma_first_stop_unique(rows: Seq<Seq<char>>, r: int, c: int)
    requires
        first_stop(rows, r, c),
    ensures
        (choose|r2: int, c2: int| first_stop(rows, r2, c2)) == (r, c),
{
    let (r2, c2) = choose|r2: int, c2: int| first_stop(rows, r2, c2);
    assert(first_stop(rows, r2, c2));
    if before(r2, c2, r, c) {
        assert(!stop_at(rows, r2, c2));
    } else if before(r, c, r2, c2) {
        assert(!stop_at(rows, r, c));
    }
}

fn level_error_at(ch: char, y: usize, x: usize, player_seen: bool) -> (e: LevelError)
    requires
        y < usize::MAX,
        x < usize::MAX,
    ensures
        !is_level_char(ch) ==> e == (LevelError::InvalidChar { ch, line: (y + 1) as usize, column: (x + 1) as usize }),
        is_level_char(ch) ==> e == (LevelError::DuplicatePlayer { line: (y + 1) as usize, column: (x + 1) as usize }),
{
    if ch == '#' || ch == ' ' || ch == '-' || ch == '.' || ch == '@' || ch == '+' || ch == '$' || ch == '*' {
        LevelError::DuplicatePlayer { line: y + 1, column: x + 1 }
    } else {
        LevelError::InvalidChar { ch, line: y + 1, column: x + 1 }
    }
}

/// Every level read from a grid can be played: the player stands on
/// neither a wall nor a box, no box or goal is a wall, there is a box, and
/// there are at least as many goals as boxes.
pub proof fn lemma_parsed_level_playable(rows: Seq<Seq<char>>, name: Option<Seq<char>>)
    requires
        grid_fits(rows),
        parse_grid(rows, name) is Ok,
    ensures
        parse_grid(rows, name)->Ok_0.playable(),
{
    let m = parse_grid(rows, name)->Ok_0;
    let (r, c) = choose|r: int, c: int| in_rows(rows, r, c) && is_player_char(rows[r][c]);
    assert(m.start_player == pos_of(r, c));
    let p = m.start_player;
    lemma_row_le_max(rows, r);
    assert(p.x as int == c && p.y as int == r);
    assert(!m.walls.contains(p)) by {
        if m.walls.contains(p) {
            assert(char_where(rows, p, wall_chars()));
        }
    }
    assert(!m.start_boxes.contains(p)) by {
        if m.start_boxes.contains(p) {
            assert(char_where(rows, p, box_chars()));
        }
    }
    assert(m.start_boxes.disjoint(m.walls)) by {
        assert forall|q: Pos| !(m.start_boxes.contains(q) && m.walls.contains(q)) by {
            if m.start_boxes.contains(q) {
                assert(char_where(rows, q, box_chars()));
            }
        }
    }
    assert(m.goals.disjoint(m.walls)) by {
        assert forall|q: Pos| !(m.goals.contains(q) && m.walls.contains(q)) by {
            if m.goals.contains(q) {
                assert(char_where(rows, q, goal_chars()));
            }
        }
    }
}

impl RawLevel {
    /// Reads the level grid. Short rows are padded with floor. The grid is
    /// refused when it has no rows, holds a character that is not a grid
    /// character, holds two players or none, holds no box, or has fewer goals
    /// than boxes.
    pub fn to_level(&self) -> (r: Result<Level, LevelError>)
        requires
            grid_fits(rows_of(self.lines@)),
        ensures
            level_result_view(r) == parse_grid(rows_of(self.lines@), opt_string_view(self.name)),
    {
        let ghost rows = rows_of(self.lines@);
        if self.lines.len() == 0 {
            return Err(LevelError::NoGridLines);
        }
        let mut chars: Vec<Vec<char>> = Vec::new();
        let mut width: usize = 0;
        let mut i: usize = 0;
        while i < self.lines.len()
            invariant
                i <= self.lines@.len(),
                rows == rows_of(self.lines@),
                chars@.len() == i,
                forall|k: int| 0 <= k < i ==> #[trigger] chars@[k]@ == rows[k],
                width == max_len(rows.take(i as int)),
            decreases self.lines@.len() - i,
        {
            let cs = chars_of(self.lines[i].as_str());
            assert(rows.take(i + 1).drop_last() =~= rows.take(i as int));
            if cs.len() > width {
                width = cs.len();
            }
            chars.push(cs);
            i += 1;
        }
        assert(rows.take(self.lines@.len() as int) =~= rows);
        let height = self.lines.len();

        let mut walls = PosSet::new();
        let mut goals = PosSet::new();
        let mut boxes = PosSet::new();
        let mut player: Option<Pos> = None;
        assert(walls@ =~= scanned(rows, wall_chars(), 0, 0));
        assert(goals@ =~= scanned(rows, goal_chars(), 0, 0));
        assert(boxes@ =~= scanned(rows, box_chars(), 0, 0));

        let mut y: usize = 0;
        while y < height
            invariant
                y <= height,
                height == rows.len(),
                rows == rows_of(self.lines@),
                grid_fits(rows),
                width == max_len(rows),
                chars@.len() == height,
                forall|k: int| 0 <= k < height ==> #[trigger] chars@[k]@ == rows[k],
                walls@ == scanned(rows, wall_chars(), y as int, 0),
                goals@ == scanned(rows, goal_chars(), y as int, 0),
                boxes@ == scanned(rows, box_chars(), y as int, 0),
                player is Some <==> player_before_pos(rows, y as int, 0),
                player matches Some(p) ==> p == pos_of(p.y as int, p.x as int) && in_rows(rows, p.y as int, p.x as int)
                    && is_player_char(rows[p.y as int][p.x as int]) && before(p.y as int, p.x as int, y as int, 0),
                forall|r2: int, c2: int| before(r2, c2, y as int, 0) ==> !#[trigger] stop_at(rows, r2, c2),
            decreases height - y,
        {
            let row = &chars[y];
            proof {
                lemma_row_le_max(rows, y as int);
            }
            let mut x: usize = 0;
            while x < width
                invariant
                    y < height,
                    x <= width,
                    height == rows.len(),
                    rows == rows_of(self.lines@),
                    grid_fits(rows),
                    width == max_len(rows),
                    row@ == rows[y as int],
                    row@.len() <= width,
                    walls@ == scanned(rows, wall_chars(), y as int, x as int),
                    goals@ == scanned(rows, goal_chars(), y as int, x as int),
                    boxes@ == scanned(rows, box_chars(), y as int, x as int),
                    player is Some <==> player_before_pos(rows, y as int, x as int),
                    player matches Some(p) ==> p == pos_of(p.y as int, p.x as int) && in_rows(rows, p.y as int, p.x as int)
                        && is_player_char(rows[p.y as int][p.x as int]) && before(p.y as int, p.x as int, y as int, x as int),
                    forall|r2: int, c2: int| before(r2, c2, y as int, x as int) ==> !#[trigger] stop_at(rows, r2, c2),
                decreases width - x,
            {
                let ch = if x < row.len() { row[x] } else { ' ' };
                let pos = Pos::new(x as i32, y as i32);
                let ghost yi = y as int;
                let ghost xi = x as int;
                assert(pos == pos_of(yi, xi));
                proof {
                    lemma_scanned_step(rows, wall_chars(), yi, xi);
                    lemma_scanned_step(rows, goal_chars(), yi, xi);
                    lemma_scanned_step(rows, box_chars(), yi, xi);
                }
                let ghost in_r = in_rows(rows, yi, xi);
                assert(in_r ==> ch == rows[yi][xi]);
                assert(!in_r ==> ch == ' ');
                let is_player = ch == '@' || ch == '+';
                let valid = ch == '#' || ch == ' ' || ch == '-' || ch == '.' || ch == '@' || ch == '+' || ch == '$' || ch == '*';
                if !valid || (is_player && player.is_some()) {
                    assert(stop_at(rows, yi, xi));
                    assert(first_stop(rows, yi, xi));
                    proof {
                        lemma_first_stop_unique(rows, yi, xi);
                    }
                    return Err(level_error_at(ch, y, x, player.is_some()));
                }
                if ch == '#' {
                    walls.insert(pos);
                }
                if ch == '.' || ch == '+' || ch == '*' {
                    goals.insert(pos);
                }
                if ch == '$' || ch == '*' {
                    boxes.insert(pos);
                }
                if is_player {
                    player = Some(pos);
                }
                proof {
                    assert forall|r2: int, c2: int| before(r2, c2, yi, xi + 1) implies !#[trigger] stop_at(rows, r2, c2) by {
                        if r2 == yi && c2 == xi {
                        }
                    }
                    if is_player {
                        assert(player_before_pos(rows, yi, xi + 1));
                    } else {
                        if player_before_pos(rows, yi, xi + 1) {
                            let (r2, c2) = choose|r2: int, c2: int| before(r2, c2, yi, xi + 1) && in_rows(rows, r2, c2) && #[trigger] is_player_char(rows[r2][c2]);
                            assert(before(r2, c2, yi, xi));
                        }
                    }
                }
                x += 1;
            }
            proof {
                lemma_scanned_row(rows, wall_chars(), y as int);
                lemma_scanned_row(rows, goal_chars(), y as int);
                lemma_scanned_row(rows, box_chars(), y as int);
                assert forall|r2: int, c2: int| before(r2, c2, y + 1, 0) implies !#[trigger] stop_at(rows, r2, c2) by {
                    if r2 == y && c2 >= x {
                        assert(!in_rows(rows, r2, c2));
                    }
                }
                if player_before_pos(rows, y + 1, 0) {
                    let (r2, c2) = choose|r2: int, c2: int| before(r2, c2, y + 1, 0) && in_rows(rows, r2, c2) && #[trigger] is_player_char(rows[r2][c2]);
                    if r2 == y {
                        assert(c2 < rows[y as int].len());
                    }
                    assert(before(r2, c2, y as int, x as int));
                }
                match player {
                    Some(p) => {
                        assert(before(p.y as int, p.x as int, y + 1, 0));
                    },
                    None => {},
                }
            }
            y += 1;
        }
        proof {
            lemma_scanned_all(rows, wall_chars());
            lemma_scanned_all(rows, goal_chars());
            lemma_scanned_all(rows, box_chars());
            assert(!has_stop(rows)) by {
                if has_stop(rows) {
                    let (r2, c2) = choose|r2: int, c2: int| #[trigger] stop_at(rows, r2, c2);
                    assert(before(r2, c2, rows.len() as int, 0));
                }
            }
        }
        let start_player = match player {
            Some(p) => p,
            None => {
                assert(!has_player(rows)) by {
                    if has_player(rows) {
                        let (r2, c2) = choose|r2: int, c2: int| in_rows(rows, r2, c2) && #[trigger] is_player_char(rows[r2][c2]);
                        assert(before(r2, c2, rows.len() as int, 0));
                    }
                }
                return Err(LevelError::MissingPlayer);
            },
        };
        proof {
            assert(has_player(rows)) by {
                assert(in_rows(rows, start_player.y as int, start_player.x as int));
            }
        }
        if boxes.is_empty() {
            return Err(LevelError::NoBoxes);
        }
        let goal_count = goals.len();
        let box_count = boxes.len();
        if goal_count < box_count {
            return Err(LevelError::TooFewGoals { goals: goal_count, boxes: box_count });
        }
        proof {
            let (r, c) = choose|r: int, c: int| in_rows(rows, r, c) && is_player_char(rows[r][c]);
            let pr = start_player.y as int;
            let pc = start_player.x as int;
            if r != pr || c != pc {
                if before(r, c, pr, pc) {
                    assert(player_before_pos(rows, pr, pc));
                    assert(stop_at(rows, pr, pc));
                } else {
                    assert(before(pr, pc, r, c));
                    assert(player_before_pos(rows, r, c));
                    assert(stop_at(rows, r, c));
                }
            }
        }
        let name = match &self.name {
            Some(n) => Some(n.clone()),
            None => None,
        };
        Ok(Level {
            width: width as i32,
            height: height as i32,
            walls,
            goals,
            start_player,
            start_boxes: boxes,
            name,
        })
    }
}

impl RawLevel {
    /// The grid is small enough for its coordinates to be `i32` values.
    pub fn fits(&self) -> (b: bool)
        ensures
            b == grid_fits(rows_of(self.lines@)),
    {
        let ghost rows = rows_of(self.lines@);
        let mut width: usize = 0;
        let mut i: usize = 0;
        while i < self.lines.len()
            invariant
                i <= self.lines@.len(),
                rows == rows_of(self.lines@),
                width == max_len(rows.take(i as int)),
            decreases self.lines@.len() - i,
        {
            let cs = chars_of(self.lines[i].as_str());
            assert(rows.take(i + 1).drop_last() =~= rows.take(i as int));
            assert(rows.take(i + 1).last() == cs@);
            if cs.len() > width {
                width = cs.len();
            }
            i += 1;
        }
        assert(rows.take(self.lines@.len() as int) =~= rows);
        self.lines.len() <= 2147483647 && width <= 2147483647
    }
}

impl LevelPack {
    /// Every level's grid is small enough for `i32` coordinates.
    pub fn fits(&self) -> (b: bool)
        ensures
            b == self.levels_fit(),
    {
        let mut i: usize = 0;
        while i < self.levels.len()
            invariant
                i <= self.levels@.len(),
                forall|j: int| 0 <= j < i ==> grid_fits(#[trigger] rows_of(self.levels@[j].lines@)),
            decreases self.levels@.len() - i,
        {
            if !self.levels[i].fits() {
                return false;
            }
            i += 1;
        }
        true
    }

    /// What reading level `i` of the pack gives.
    pub open spec fn level_at(self, i: int) -> Result<LevelModel, LevelError> {
        parse_grid(rows_of(self.levels@[i].lines@), opt_string_view(self.levels@[i].name))
    }

    /// Every level of the pack is small enough for `i32` coordinates.
    pub open spec fn levels_fit(self) -> bool {
        forall|i: int| 0 <= i < self.levels@.len() ==> grid_fits(#[trigger] rows_of(self.levels@[i].lines@))
    }

    /// Reads every level of the pack, stopping at the first one that is
    /// not a valid level.
    pub fn parse_levels(&self) -> (r: Result<Vec<Level>, ParseLevelsError>)
        requires
            self.levels_fit(),
        ensures
            r is Ok <==> forall|i: int| 0 <= i < self.levels@.len() ==> #[trigger] self.level_at(i) is Ok,
            r matches Ok(v) ==> v@.len() == self.levels@.len() && forall|i: int|
                0 <= i < v@.len() ==> Ok::<LevelModel, LevelError>(#[trigger] v@[i]@) == self.level_at(i),
            r matches Err(e) ==> 1 <= e.level <= self.levels@.len() && self.level_at(e.level - 1) == Err::<
                LevelModel,
                LevelError,
            >(e.error) && forall|j: int| 0 <= j < e.level - 1 ==> #[trigger] self.level_at(j) is Ok,
    {
        let mut out: Vec<Level> = Vec::new();
        let mut i: usize = 0;
        while i < self.levels.len()
            invariant
                i <= self.levels@.len(),
                self.levels_fit(),
                out@.len() == i,
                forall|k: int| 0 <= k < i ==> Ok::<LevelModel, LevelError>(#[trigger] out@[k]@) == self.level_at(k),
            decreases self.levels@.len() - i,
        {
            assert(grid_fits(rows_of(self.levels@[i as int].lines@)));
            match self.levels[i].to_level() {
                Ok(level) => out.push(level),
                Err(error) => {
                    assert forall|j: int| 0 <= j < i implies #[trigger] self.level_at(j) is Ok by {
                        assert(Ok::<LevelModel, LevelError>(out@[j]@) == self.level_at(j));
                    }
                    return Err(ParseLevelsError { level: i + 1, error });
                },
            }
            i += 1;
        }
        assert forall|k: int| 0 <= k < self.levels@.len() implies #[trigger] self.level_at(k) is Ok by {
            assert(Ok::<LevelModel, LevelError>(out@[k]@) == self.level_at(k));
        }
        Ok(out)
    }
}


// ---------------------------------------------------------------- the pack format

/// `s` without trailing carriage returns.
pub open spec fn strip_cr(s: Seq<char>) -> Seq<char>
    decreases s.len(),
{
    if s.len() > 0 && s.last() == '\r' {
        strip_cr(s.drop_last())
    } else {
        s
    }
}

/// Splitting `s[i..]` into lines, given the partial line `cur` and the
/// lines `acc` already split off. A final empty line is dropped.
pub open spec fn split_lines_from(s: Seq<char>, i: int, cur: Seq<char>, acc: Seq<Seq<char>>) -> Seq<Seq<char>>
    decreases s.len() - i,
{
    if i >= s.len() {
        if cur.len() == 0 { acc } else { acc.push(strip_cr(cur)) }
    } else if s[i] == '\n' {
        split_lines_from(s, i + 1, Seq::empty(), acc.push(strip_cr(cur)))
    } else {
        split_lines_from(s, i + 1, cur.push(s[i]), acc)
    }
}

/// The lines of a text, each without its line break and trailing carriage
/// returns.
pub open spec fn text_lines(s: Seq<char>) -> Seq<Seq<char>> {
    split_lines_from(s, 0, Seq::empty(), Seq::empty())
}

/// `s` begins with `prefix`.
pub open spec fn has_prefix(s: Seq<char>, prefix: Seq<char>) -> bool {
    s.len() >= prefix.len() && s.take(prefix.len() as int) == prefix
}

pub open spec fn title_prefix() -> Seq<char> {
    seq!['T', 'i', 't', 'l', 'e', ':']
}

pub open spec fn name_prefix() -> Seq<char> {
    seq!['n', 'a', 'm', 'e', ':']
}

/// The title a `Title:` line gives, if it gives a non-blank one.
pub open spec fn title_of(s: Seq<char>) -> Option<Seq<char>> {
    if has_prefix(s, title_prefix()) && trim(s.skip(6)).len() > 0 {
        Some(trim(s.skip(6)))
    } else {
        None
    }
}

/// Every character of `line` may stand in a level grid.
pub open spec fn grid_line(line: Seq<char>) -> bool {
    forall|i: int| 0 <= i < line.len() ==> is_level_char(#[trigger] line[i])
}

/// A level being gathered while a pack is read.
pub type RawLevelModel = (Option<Seq<char>>, Seq<Seq<char>>);

/// The state of reading a pack: the levels so far, the name for the next
/// level, and the grid lines of the level being read.
pub struct PackState {
    pub levels: Seq<RawLevelModel>,
    pub pending: Option<Seq<char>>,
    pub current: Seq<Seq<char>>,
}

/// Ends the level being read, if it has grid lines; the pending name is
/// spent either way.
pub open spec fn flush(st: PackState) -> PackState {
    if st.current.len() == 0 {
        PackState { levels: st.levels, pending: None, current: st.current }
    } else {
        PackState { levels: st.levels.push((st.pending, st.current)), pending: None, current: Seq::empty() }
    }
}

/// Reads one line: a blank line ends the level; `; name:` sets the next
/// name; `Title:` sets the name and ends a level in progress; a grid line
/// joins the level; any other line ends the level.
pub open spec fn pack_step(st: PackState, line: Seq<char>) -> PackState {
    let trimmed = trim(line);
    if trimmed.len() == 0 {
        flush(st)
    } else if line[0] == ';' {
        let rest = trim(line.skip(1));
        if has_prefix(rest, name_prefix()) {
            PackState { pending: Some(trim(rest.skip(5))), ..st }
        } else {
            st
        }
    } else if title_of(trimmed) is Some {
        let named = PackState { pending: title_of(trimmed), ..st };
        if st.current.len() == 0 { named } else { flush(named) }
    } else if grid_line(line) {
        PackState { current: st.current.push(line), ..st }
    } else {
        flush(st)
    }
}

pub open spec fn pack_start() -> PackState {
    PackState { levels: Seq::empty(), pending: None, current: Seq::empty() }
}

pub open spec fn pack_step_fn() -> spec_fn(PackState, Seq<char>) -> PackState {
    |st: PackState, line: Seq<char>| pack_step(st, line)
}

/// The levels that a pack's text holds.
pub open spec fn pack_levels(text: Seq<char>) -> Seq<RawLevelModel> {
    flush(text_lines(text).fold_left(pack_start(), pack_step_fn())).levels
}

pub open spec fn raw_level_view(r: RawLevel) -> RawLevelModel {
    (opt_string_view(r.name), rows_of(r.lines@))
}

/// The title of a `Title:` line (already trimmed), when it is not blank.
pub fn parse_title_line(line: &str) -> (r: Option<String>)
    ensures
        opt_string_view(r) == title_of(line@),
{
    let cs = chars_of(line);
    let t = title_of_chars(cs.as_slice());
    match t {
        Some(v) => Some(string_from_chars(v.as_slice())),
        None => None,
    }
}

fn starts_with_chars(s: &[char], prefix: &[char]) -> (b: bool)
    ensures
        b == has_prefix(s@, prefix@),
{
    if s.len() < prefix.len() {
        return false;
    }
    let mut i: usize = 0;
    while i < prefix.len()
        invariant
            i <= prefix@.len() <= s@.len(),
            forall|j: int| 0 <= j < i ==> s@[j] == prefix@[j],
        decreases prefix@.len() - i,
    {
        if s[i] != prefix[i] {
            assert(s@.take(prefix@.len() as int)[i as int] != prefix@[i as int]);
            return false;
        }
        i += 1;
    }
    assert(s@.take(prefix@.len() as int) =~= prefix@);
    true
}

fn title_of_chars(s: &[char]) -> (r: Option<Vec<char>>)
    ensures
        match r {
            Some(v) => title_of(s@) == Some(v@),
            None => title_of(s@) is None,
        },
{
    let prefix = chars_of("Title:");
    proof {
        reveal_strlit("Title:");
    }
    assert(prefix@ =~= title_prefix());
    if !starts_with_chars(s, prefix.as_slice()) {
        return None;
    }
    let rest = copy_range(s, 6, s.len());
    assert(rest@ =~= s@.skip(6));
    let t = trim_chars(rest.as_slice());
    if t.len() == 0 {
        return None;
    }
    Some(t)
}

fn is_level_char_exec(ch: char) -> (b: bool)
    ensures
        b == is_level_char(ch),
{
    ch == '#' || ch == ' ' || ch == '-' || ch == '.' || ch == '@' || ch == '+' || ch == '$' || ch == '*'
}

fn is_grid_chars(line: &[char]) -> (b: bool)
    ensures
        b == grid_line(line@),
{
    let mut i: usize = 0;
    while i < line.len()
        invariant
            i <= line@.len(),
            forall|j: int| 0 <= j < i ==> is_level_char(#[trigger] line@[j]),
        decreases line@.len() - i,
    {
        if !is_level_char_exec(line[i]) {
            return false;
        }
        i += 1;
    }
    true
}

/// Every character of the line may stand in a level grid.
pub fn is_grid_line(line: &str) -> (b: bool)
    ensures
        b == grid_line(line@),
{
    let cs = chars_of(line);
    is_grid_chars(cs.as_slice())
}

fn strip_cr_chars(s: &[char]) -> (r: Vec<char>)
    ensures
        r@ == strip_cr(s@),
{
    let mut end = s.len();
    assert(s@.take(end as int) =~= s@);
    while end > 0 && s[end - 1] == '\r'
        invariant
            end <= s@.len(),
            strip_cr(s@) == strip_cr(s@.take(end as int)),
        decreases end,
    {
        assert(s@.take(end as int).drop_last() =~= s@.take(end - 1));
        end -= 1;
    }
    assert(strip_cr(s@.take(end as int)) == s@.take(end as int));
    copy_range(s, 0, end)
}

/// Splits a text into lines, as `text_lines` describes.
pub fn split_lines(text: &[char]) -> (lines: Vec<Vec<char>>)
    ensures
        lines@.map_values(|l: Vec<char>| l@) == text_lines(text@),
{
    let mut acc: Vec<Vec<char>> = Vec::new();
    let mut cur: Vec<char> = Vec::new();
    let mut i: usize = 0;
    assert(acc@.map_values(|l: Vec<char>| l@) =~= Seq::<Seq<char>>::empty());
    assert(cur@ =~= Seq::<char>::empty());
    while i < text.len()
        invariant
            i <= text@.len(),
            split_lines_from(text@, i as int, cur@, acc@.map_values(|l: Vec<char>| l@)) == text_lines(text@),
        decreases text@.len() - i,
    {
        if text[i] == '\n' {
            let line = strip_cr_chars(cur.as_slice());
            let ghost before = acc@.map_values(|l: Vec<char>| l@);
            acc.push(line);
            assert(acc@.map_values(|l: Vec<char>| l@) =~= before.push(strip_cr(cur@)));
            cur = Vec::new();
            assert(cur@ =~= Seq::<char>::empty());
        } else {
            cur.push(text[i]);
        }
        i += 1;
    }
    if cur.len() > 0 {
        let line = strip_cr_chars(cur.as_slice());
        let ghost before = acc@.map_values(|l: Vec<char>| l@);
        acc.push(line);
        assert(acc@.map_values(|l: Vec<char>| l@) =~= before.push(strip_cr(cur@)));
    }
    acc
}


pub open spec fn opt_chars_view(o: Option<Vec<char>>) -> Option<Seq<char>> {
    match o {
        Some(v) => Some(v@),
        None => None,
    }
}

pub open spec fn state_view(levels: Seq<RawLevel>, pending: Option<Vec<char>>, current: Seq<String>) -> PackState {
    PackState {
        levels: levels.map_values(|r: RawLevel| raw_level_view(r)),
        pending: opt_chars_view(pending),
        current: rows_of(current),
    }
}

fn flush_level(levels: &mut Vec<RawLevel>, pending: &mut Option<Vec<char>>, current: &mut Vec<String>)
    ensures
        state_view(final(levels)@, *final(pending), final(current)@) == flush(
            state_view(old(levels)@, *old(pending), old(current)@),
        ),
{
    let ghost st = state_view(levels@, *pending, current@);
    if current.len() == 0 {
        *pending = None;
        return;
    }
    let name = match pending.take() {
        Some(v) => Some(string_from_chars(v.as_slice())),
        None => None,
    };
    let mut lines: Vec<String> = Vec::new();
    std::mem::swap(&mut lines, current);
    let raw = RawLevel { name, lines };
    let ghost before = levels@;
    levels.push(raw);
    assert(levels@.map_values(|r: RawLevel| raw_level_view(r)) =~= st.levels.push((st.pending, st.current)));
    assert(rows_of(current@) =~= Seq::<Seq<char>>::empty());
}

impl LevelPack {
    /// Reads a level pack from its text. Levels are runs of grid lines; a
    /// level's name comes from a `; name:` comment before it or a `Title:`
    /// line before or after it. Blank lines and any other lines end a level.
    pub fn from_text(source: String, text: &str) -> (pack: LevelPack)
        ensures
            pack.source == source,
            pack.levels@.map_values(|r: RawLevel| raw_level_view(r)) == pack_levels(text@),
    {
        let chars = chars_of(text);
        let lines = split_lines(chars.as_slice());
        let ghost all = text_lines(text@);
        let mut levels: Vec<RawLevel> = Vec::new();
        let mut pending: Option<Vec<char>> = None;
        let mut current: Vec<String> = Vec::new();
        assert(state_view(levels@, pending, current@) =~= pack_start()) by {
            assert(levels@.map_values(|r: RawLevel| raw_level_view(r)) =~= Seq::<RawLevelModel>::empty());
            assert(rows_of(current@) =~= Seq::<Seq<char>>::empty());
        }
        let name_key = chars_of("name:");
        proof {
            reveal_strlit("name:");
        }
        assert(name_key@ =~= name_prefix());
        let mut i: usize = 0;
        while i < lines.len()
            invariant
                i <= lines@.len(),
                lines@.map_values(|l: Vec<char>| l@) == all,
                all == text_lines(text@),
                name_key@ == name_prefix(),
                state_view(levels@, pending, current@) == all.take(i as int).fold_left(pack_start(), pack_step_fn()),
            decreases lines@.len() - i,
        {
            let line = &lines[i];
            let ghost lv = line@;
            assert(lv == all[i as int]);
            let ghost st = state_view(levels@, pending, current@);
            let trimmed = trim_chars(line.as_slice());
            if trimmed.len() == 0 {
                flush_level(&mut levels, &mut pending, &mut current);
            } else if line[0] == ';' {
                let after = copy_range(line.as_slice(), 1, line.len());
                assert(after@ =~= lv.skip(1));
                let rest = trim_chars(after.as_slice());
                if starts_with_chars(rest.as_slice(), name_key.as_slice()) {
                    let name_part = copy_range(rest.as_slice(), 5, rest.len());
                    assert(name_part@ =~= rest@.skip(5));
                    pending = Some(trim_chars(name_part.as_slice()));
                }
            } else {
                match title_of_chars(trimmed.as_slice()) {
                    Some(t) => {
                        pending = Some(t);
                        if current.len() != 0 {
                            flush_level(&mut levels, &mut pending, &mut current);
                        }
                    },
                    None => {
                        if is_grid_chars(line.as_slice()) {
                            current.push(string_from_chars(line.as_slice()));
                            assert(rows_of(current@) =~= st.current.push(lv));
                        } else {
                            flush_level(&mut levels, &mut pending, &mut current);
                        }
                    },
                }
            }
            assert(state_view(levels@, pending, current@) == pack_step(st, lv));
            assert(all.take(i + 1).drop_last() =~= all.take(i as int));
            i += 1;
        }
        assert(all.take(lines@.len() as int) =~= all);
        flush_level(&mut levels, &mut pending, &mut current);
        LevelPack { source, levels }
    }
}

} // verus!
