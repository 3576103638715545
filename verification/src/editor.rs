use vstd::prelude::*;

use crate::editor_model::{map_name_result, name_view, normalize_map_name, NameError};
use crate::text::{chars_of, string_from_chars, trim, trim_chars};

verus! {

/// A brush of the map editor.
#[derive(Clone, Copy, Debug, PartialEq, Eq, Structural)]
pub enum EditorTile {
    Box,
    BoxOnGoal,
    Floor,
    Goal,
    Wall,
    Player,
    PlayerOnGoal,
}

/// One square of an edited map.
#[derive(Clone, Copy, Debug, PartialEq, Eq, Structural)]
pub enum Cell {
    Floor,
    Goal,
    Wall,
    Box,
    BoxOnGoal,
    Player,
    PlayerOnGoal,
}

/// A map being edited: `cells` holds the rows one after the other.
#[derive(Debug)]
pub struct EditorMap {
    pub width: usize,
    pub height: usize,
    pub cells: Vec<Cell>,
    pub map_name: String,
}

/// A map that a player could not play, or would find already solved.
#[derive(Clone, Copy, Debug, PartialEq, Eq, Structural)]
pub enum SimpleWarning {
    MissingBoxes,
    BoxesMoreThanGoals { boxes: usize, goals: usize },
    AlreadySolved,
    MissingPlayer,
}

/// Why an edit was refused.
#[derive(Clone, Copy, Debug, PartialEq, Eq, Structural)]
pub enum EditorError {
    NoRows,
    NoColumns,
    InvalidChar { ch: char },
    OutOfBounds,
    SizeNotPositive,
    AreaTooSmall,
    Name(NameError),
}

// ---------------------------------------------------------------- cells

pub open spec fn is_player_cell(c: Cell) -> bool {
    c == Cell::Player || c == Cell::PlayerOnGoal
}

/// The cell with the player taken off it.
pub open spec fn without_player(c: Cell) -> Cell {
    match c {
        Cell::Player => Cell::Floor,
        Cell::PlayerOnGoal => Cell::Goal,
        other => other,
    }
}

/// A player stands somewhere in `cells[0..i]`.
pub open spec fn player_before(cells: Seq<Cell>, i: int) -> bool {
    exists|j: int| 0 <= j < i && #[trigger] is_player_cell(cells[j])
}

/// `cells` with every player but the first one removed.
pub open spec fn single_player(cells: Seq<Cell>) -> Seq<Cell> {
    Seq::new(
        cells.len(),
        |i: int|
            if is_player_cell(cells[i]) && player_before(cells, i) {
                without_player(cells[i])
            } else {
                cells[i]
            },
    )
}

/// No two cells hold a player.
pub open spec fn at_most_one_player(cells: Seq<Cell>) -> bool {
    forall|i: int, j: int|
        0 <= i < cells.len() && 0 <= j < cells.len() && #[trigger] is_player_cell(cells[i])
            && #[trigger] is_player_cell(cells[j]) ==> i == j
}

/// Exactly one cell holds a player.
pub open spec fn exactly_one_player(cells: Seq<Cell>) -> bool {
    at_most_one_player(cells) && exists|i: int| 0 <= i < cells.len() && #[trigger] is_player_cell(cells[i])
}

/// Keeping only the first player leaves at most one player and the same
/// number of cells, keeps a player when there was one, and changes nothing
/// when there was at most one already.
pub proof fn lemma_single_player(cells: Seq<Cell>)
    ensures
        at_most_one_player(single_player(cells)),
        single_player(cells).len() == cells.len(),
        (exists|i: int| 0 <= i < cells.len() && #[trigger] is_player_cell(cells[i]))
            ==> exactly_one_player(single_player(cells)),
        at_most_one_player(cells) ==> single_player(cells) == cells,
{
    let r = single_player(cells);
    assert forall|i: int, j: int|
        0 <= i < r.len() && 0 <= j < r.len() && #[trigger] is_player_cell(r[i]) && #[trigger] is_player_cell(r[j])
        implies i == j by {
        if i < j {
            assert(is_player_cell(cells[i]));
            assert(player_before(cells, j));
        } else if j < i {
            assert(is_player_cell(cells[j]));
            assert(player_before(cells, i));
        }
    }
    if exists|i: int| 0 <= i < cells.len() && #[trigger] is_player_cell(cells[i]) {
        let k = choose|i: int| 0 <= i < cells.len() && #[trigger] is_player_cell(cells[i]);
        lemma_first_player(cells, k);
    }
    if at_most_one_player(cells) {
        assert forall|i: int| 0 <= i < cells.len() implies r[i] == cells[i] by {
            if is_player_cell(cells[i]) && player_before(cells, i) {
                let j = choose|j: int| 0 <= j < i && #[trigger] is_player_cell(cells[j]);
                assert(false);
            }
        }
        assert(r =~= cells);
    }
}

proof fn lemma_first_player(cells: Seq<Cell>, k: int)
    requires
        0 <= k < cells.len(),
        is_player_cell(cells[k]),
    ensures
        exists|i: int| 0 <= i < cells.len() && #[trigger] is_player_cell(single_player(cells)[i]),
    decreases k,
{
    if player_before(cells, k) {
        let j = choose|j: int| 0 <= j < k && #[trigger] is_player_cell(cells[j]);
        lemma_first_player(cells, j);
    } else {
        assert(is_player_cell(single_player(cells)[k]));
    }
}

/// The cell painted by a brush.
pub open spec fn cell_of_tile(tile: EditorTile) -> Cell {
    match tile {
        EditorTile::Box => Cell::Box,
        EditorTile::BoxOnGoal => Cell::BoxOnGoal,
        EditorTile::Floor => Cell::Floor,
        EditorTile::Goal => Cell::Goal,
        EditorTile::Wall => Cell::Wall,
        EditorTile::Player => Cell::Player,
        EditorTile::PlayerOnGoal => Cell::PlayerOnGoal,
    }
}

pub fn tile_to_cell(tile: EditorTile) -> (c: Cell)
    ensures
        c == cell_of_tile(tile),
{
    match tile {
        EditorTile::Box => Cell::Box,
        EditorTile::BoxOnGoal => Cell::BoxOnGoal,
        EditorTile::Floor => Cell::Floor,
        EditorTile::Goal => Cell::Goal,
        EditorTile::Wall => Cell::Wall,
        EditorTile::Player => Cell::Player,
        EditorTile::PlayerOnGoal => Cell::PlayerOnGoal,
    }
}

/// The cell a map character stands for, if any.
pub open spec fn cell_of_char(ch: char) -> Option<Cell> {
    if ch == '#' {
        Some(Cell::Wall)
    } else if ch == ' ' || ch == '-' {
        Some(Cell::Floor)
    } else if ch == '.' {
        Some(Cell::Goal)
    } else if ch == '@' {
        Some(Cell::Player)
    } else if ch == '+' {
        Some(Cell::PlayerOnGoal)
    } else if ch == '$' {
        Some(Cell::Box)
    } else if ch == '*' {
        Some(Cell::BoxOnGoal)
    } else {
        None
    }
}

pub fn char_to_cell(ch: char) -> (r: Result<Cell, EditorError>)
    ensures
        match cell_of_char(ch) {
            Some(c) => r == Ok::<Cell, EditorError>(c),
            None => r == Err::<Cell, EditorError>(EditorError::InvalidChar { ch }),
        },
{
    if ch == '#' {
        Ok(Cell::Wall)
    } else if ch == ' ' || ch == '-' {
        Ok(Cell::Floor)
    } else if ch == '.' {
        Ok(Cell::Goal)
    } else if ch == '@' {
        Ok(Cell::Player)
    } else if ch == '+' {
        Ok(Cell::PlayerOnGoal)
    } else if ch == '$' {
        Ok(Cell::Box)
    } else if ch == '*' {
        Ok(Cell::BoxOnGoal)
    } else {
        Err(EditorError::InvalidChar { ch })
    }
}

/// The character a cell is saved as.
pub open spec fn char_of_cell(cell: Cell) -> char {
    match cell {
        Cell::Wall => '#',
        Cell::Floor => '-',
        Cell::Goal => '.',
        Cell::Player => '@',
        Cell::PlayerOnGoal => '+',
        Cell::Box => '$',
        Cell::BoxOnGoal => '*',
    }
}

pub fn cell_to_char(cell: Cell) -> (ch: char)
    ensures
        ch == char_of_cell(cell),
        cell_of_char(ch) == Some(cell),
{
    match cell {
        Cell::Wall => '#',
        Cell::Floor => '-',
        Cell::Goal => '.',
        Cell::Player => '@',
        Cell::PlayerOnGoal => '+',
        Cell::Box => '$',
        Cell::BoxOnGoal => '*',
    }
}

// ---------------------------------------------------------------- sizes

/// What `validate_canvas_size` decides for a requested size.
pub open spec fn canvas_size_error(width: usize, height: usize) -> Option<EditorError> {
    if width == 0 || height == 0 {
        Some(EditorError::SizeNotPositive)
    } else if width * height < 3 {
        Some(EditorError::AreaTooSmall)
    } else {
        None
    }
}

/// A canvas must have a positive width and height and at least three cells.
pub fn validate_canvas_size(width: usize, height: usize) -> (r: Result<(), EditorError>)
    requires
        width * height <= usize::MAX,
    ensures
        match canvas_size_error(width, height) {
            Some(e) => r == Err::<(), EditorError>(e),
            None => r is Ok,
        },
{
    if width == 0 || height == 0 {
        return Err(EditorError::SizeNotPositive);
    }
    if width * height < 3 {
        return Err(EditorError::AreaTooSmall);
    }
    Ok(())
}


// ---------------------------------------------------------------- grid arithmetic

/// Row-major indexing: `(x, y)` with `x < w` is cell `y * w + x`, and back.
pub proof fn lemma_grid_index(x: int, y: int, w: int)
    requires
        0 <= x < w,
        0 <= y,
    ensures
        (y * w + x) / w == y,
        (y * w + x) % w == x,
        y * w + x >= 0,
{
    vstd::arithmetic::div_mod::lemma_fundamental_div_mod_converse(y * w + x, w, y, x);
    assert(y * w >= 0) by (nonlinear_arith)
        requires
            0 <= y,
            0 < w,
    ;
}

/// An index inside a `w` by `h` grid.
pub proof fn lemma_index_bound(x: int, y: int, w: int, h: int)
    requires
        0 <= x < w,
        0 <= y < h,
    ensures
        0 <= y * w + x < h * w,
        y * w + x < w * h,
        0 <= y * w,
{
    assert(0 <= y * w && 0 <= y * w + x < h * w && h * w == w * h) by (nonlinear_arith)
        requires
            0 <= x < w,
            0 <= y < h,
    ;
}

/// Every index of a `w` by `h` grid names one `(x, y)`.
pub proof fn lemma_index_split(i: int, w: int, h: int)
    requires
        0 <= i < h * w,
        w > 0,
    ensures
        0 <= i % w < w,
        0 <= i / w < h,
        i == (i / w) * w + i % w,
{
    vstd::arithmetic::div_mod::lemma_fundamental_div_mod(i, w);
    vstd::arithmetic::mul::lemma_mul_is_commutative(w, i / w);
    vstd::arithmetic::div_mod::lemma_mod_bound(i, w);
    vstd::arithmetic::div_mod::lemma_div_pos_is_pos(i, w);
    assert((i / w) < h) by (nonlinear_arith)
        requires
            0 <= i < h * w,
            w > 0,
            i == (i / w) * w + i % w,
            0 <= i % w,
    ;
}

// ---------------------------------------------------------------- parsing

/// The characters of each line.
pub open spec fn rows_of(lines: Seq<String>) -> Seq<Seq<char>> {
    lines.map_values(|s: String| s@)
}

/// The length of the longest row.
pub open spec fn max_len(rows: Seq<Seq<char>>) -> nat
    decreases rows.len(),
{
    if rows.len() == 0 {
        0
    } else {
        let m = max_len(rows.drop_last());
        if rows.last().len() > m { rows.last().len() } else { m }
    }
}

/// The character at column `x` of `row` once the row is padded with spaces.
pub open spec fn padded_char(row: Seq<char>, x: int) -> char {
    if x < row.len() { row[x] } else { ' ' }
}

/// The cell read from column `x` of `row`.
pub open spec fn read_cell(row: Seq<char>, x: int) -> Cell {
    match cell_of_char(padded_char(row, x)) {
        Some(c) => c,
        None => Cell::Floor,
    }
}

/// The cells read from `rows`, each row padded to width `w`.
pub open spec fn grid_cells(rows: Seq<Seq<char>>, w: nat) -> Seq<Cell> {
    Seq::new(rows.len() * w, |i: int| read_cell(rows[i / (w as int)], i % (w as int)))
}

/// Row `r`, column `c` holds a character that is no map character.
pub open spec fn bad_char_at(rows: Seq<Seq<char>>, r: int, c: int) -> bool {
    0 <= r < rows.len() && 0 <= c < rows[r].len() && cell_of_char(rows[r][c]) is None
}

/// `(r, c)` is the first bad character in reading order.
pub open spec fn first_bad_char(rows: Seq<Seq<char>>, r: int, c: int) -> bool {
    &&& bad_char_at(rows, r, c)
    &&& forall|r2: int, c2: int| (r2 < r || (r2 == r && c2 < c)) ==> !#[trigger] bad_char_at(rows, r2, c2)
}

pub open spec fn has_bad_char(rows: Seq<Seq<char>>) -> bool {
    exists|r: int, c: int| #[trigger] bad_char_at(rows, r, c)
}

/// The name a new map gets: the given one when it is not blank, else `Map`.
pub open spec fn map_name_or_default(name: Option<Seq<char>>) -> Result<Seq<char>, NameError> {
    match name {
        Some(n) => if trim(n).len() != 0 { map_name_result(n) } else { Ok(seq!['M', 'a', 'p']) },
        None => Ok(seq!['M', 'a', 'p']),
    }
}

pub open spec fn opt_str_view(name: Option<&str>) -> Option<Seq<char>> {
    match name {
        Some(n) => Some(n@),
        None => None,
    }
}

fn normalize_or_default_name(name: Option<&str>) -> (r: Result<String, NameError>)
    ensures
        name_view(r) == map_name_or_default(opt_str_view(name)),
{
    match name {
        Some(n) => {
            let cs = chars_of(n);
            let t = trim_chars(cs.as_slice());
            if t.len() != 0 {
                return normalize_map_name(n);
            }
        },
        None => {},
    }
    let v = chars_of("Map");
    proof {
        reveal_strlit("Map");
    }
    assert(v@ =~= seq!['M', 'a', 'p']);
    Ok(string_from_chars(v.as_slice()))
}

// ---------------------------------------------------------------- the map

/// The cell count matches the size.
pub open spec fn grid_wf(width: usize, height: usize, cells: Seq<Cell>) -> bool {
    cells.len() == width * height
}

/// The cell at `(x, y)` of a `w`-wide grid.
pub open spec fn cell_at(cells: Seq<Cell>, w: int, x: int, y: int) -> Cell {
    cells[y * w + x]
}

/// The cell a resize puts at `(x, y)`: the old cell where there was one;
/// a wall on the border of a grown canvas; floor elsewhere.
pub open spec fn resized_cell(old: Seq<Cell>, ow: int, oh: int, nw: int, nh: int, x: int, y: int) -> Cell {
    if x < ow && y < oh {
        cell_at(old, ow, x, y)
    } else if (nw > ow || nh > oh) && (x == 0 || y == 0 || x == nw - 1 || y == nh - 1) {
        Cell::Wall
    } else {
        Cell::Floor
    }
}

/// All cells of a resized canvas, before duplicate players are removed.
pub open spec fn resized_cells(old: Seq<Cell>, ow: int, oh: int, nw: int, nh: int) -> Seq<Cell> {
    Seq::new((nw * nh) as nat, |i: int| resized_cell(old, ow, oh, nw, nh, i % nw, i / nw))
}

/// The characters of saved row `y`.
pub open spec fn saved_row(cells: Seq<Cell>, w: int, y: int) -> Seq<char> {
    Seq::new(w as nat, |x: int| char_of_cell(cell_at(cells, w, x, y)))
}

pub open spec fn is_box_cell(c: Cell) -> bool {
    c == Cell::Box || c == Cell::BoxOnGoal
}

pub open spec fn is_goal_cell(c: Cell) -> bool {
    c == Cell::Goal || c == Cell::BoxOnGoal || c == Cell::PlayerOnGoal
}

/// How many cells satisfy `p`.
pub open spec fn count_cells(cells: Seq<Cell>, p: spec_fn(Cell) -> bool) -> nat
    decreases cells.len(),
{
    if cells.len() == 0 {
        0
    } else {
        count_cells(cells.drop_last(), p) + if p(cells.last()) { 1nat } else { 0nat }
    }
}

/// The warning for a map whose cells are `cells`, if any.
pub open spec fn warning_for(cells: Seq<Cell>) -> Option<SimpleWarning> {
    let boxes = count_cells(cells, |c: Cell| is_box_cell(c));
    let off_goal = count_cells(cells, |c: Cell| c == Cell::Box);
    let goals = count_cells(cells, |c: Cell| is_goal_cell(c));
    let players = count_cells(cells, |c: Cell| is_player_cell(c));
    if boxes == 0 {
        Some(SimpleWarning::MissingBoxes)
    } else if boxes > goals {
        Some(SimpleWarning::BoxesMoreThanGoals { boxes: boxes as usize, goals: goals as usize })
    } else if off_goal == 0 {
        Some(SimpleWarning::AlreadySolved)
    } else if players == 0 {
        Some(SimpleWarning::MissingPlayer)
    } else {
        None
    }
}

impl Clone for EditorMap {
    fn clone(&self) -> (m: EditorMap)
        ensures
            m.width == self.width,
            m.height == self.height,
            m.cells@ == self.cells@,
            m.map_name@ == self.map_name@,
    {
        let mut cells: Vec<Cell> = Vec::new();
        let mut i: usize = 0;
        while i < self.cells.len()
            invariant
                i <= self.cells@.len(),
                cells@ == self.cells@.take(i as int),
            decreases self.cells@.len() - i,
        {
            cells.push(self.cells[i]);
            assert(self.cells@.take(i + 1) =~= self.cells@.take(i as int).push(self.cells@[i as int]));
            i += 1;
        }
        assert(self.cells@.take(self.cells@.len() as int) =~= self.cells@);
        EditorMap { width: self.width, height: self.height, cells, map_name: self.map_name.clone() }
    }
}

impl EditorMap {
    /// The cells fill the whole `width` by `height` canvas.
    pub open spec fn wf(&self) -> bool {
        grid_wf(self.width, self.height, self.cells@)
    }

    /// The cells cover the whole `width` by `height` canvas; cells past its
    /// end are kept as they are but lie outside the canvas.
    pub open spec fn covers(&self) -> bool {
        self.cells@.len() >= self.width * self.height
    }

    /// Reads a map from its rows of characters. Short rows are padded with
    /// floor; only one player is kept, the first in reading order.
    #[verifier::spinoff_prover]
    pub fn from_raw_lines(name: Option<&str>, raw_lines: &[String]) -> (r: Result<EditorMap, EditorError>)
        ensures
            ({
                let rows = rows_of(raw_lines@);
                let w = max_len(rows);
                &&& (rows.len() == 0 <==> r == Err::<EditorMap, EditorError>(EditorError::NoRows))
                &&& (rows.len() != 0 && w == 0 <==> r == Err::<EditorMap, EditorError>(EditorError::NoColumns))
                &&& (rows.len() != 0 && w != 0 && has_bad_char(rows)) ==> exists|br: int, bc: int|
                    first_bad_char(rows, br, bc) && r == Err::<EditorMap, EditorError>(
                        EditorError::InvalidChar { ch: rows[br][bc] },
                    )
                &&& (rows.len() != 0 && w != 0 && !has_bad_char(rows)) ==> match map_name_or_default(opt_str_view(name)) {
                    Err(e) => r == Err::<EditorMap, EditorError>(EditorError::Name(e)),
                    Ok(n) => r matches Ok(m) && m.width == w && m.height == rows.len() && m.wf()
                        && m.cells@ == single_player(grid_cells(rows, w)) && m.map_name@ == n,
                }
            }),
    {
        let ghost rows = rows_of(raw_lines@);
        if raw_lines.len() == 0 {
            return Err(EditorError::NoRows);
        }
        let mut chars: Vec<Vec<char>> = Vec::new();
        let mut width: usize = 0;
        let mut i: usize = 0;
        while i < raw_lines.len()
            invariant
                i <= raw_lines@.len(),
                rows == rows_of(raw_lines@),
                chars@.len() == i,
                forall|k: int| 0 <= k < i ==> #[trigger] chars@[k]@ == rows[k],
                width == max_len(rows.take(i as int)),
            decreases raw_lines@.len() - i,
        {
            let cs = chars_of(raw_lines[i].as_str());
            assert(rows.take(i + 1).drop_last() =~= rows.take(i as int));
            if cs.len() > width {
                width = cs.len();
            }
            chars.push(cs);
            i += 1;
        }
        assert(rows.take(raw_lines@.len() as int) =~= rows);
        if width == 0 {
            return Err(EditorError::NoColumns);
        }
        let height = raw_lines.len();
        let ghost w = width as int;

        let mut cells: Vec<Cell> = Vec::new();
        let mut y: usize = 0;
        while y < height
            invariant
                0 <= y <= height,
                height == rows.len(),
                w == width,
                width > 0,
                width == max_len(rows),
                rows == rows_of(raw_lines@),
                chars@.len() == height,
                forall|k: int| 0 <= k < height ==> #[trigger] chars@[k]@ == rows[k],
                cells@.len() == y * w,
                forall|k: int| 0 <= k < cells@.len() ==> cells@[k] == read_cell(rows[k / w], k % w),
                forall|r2: int, c2: int| r2 < y ==> !#[trigger] bad_char_at(rows, r2, c2),
            decreases height - y,
        {
            let row = &chars[y];
            proof {
                lemma_row_le_max(rows, y as int);
            }
            let mut x: usize = 0;
            while x < width
                invariant
                    0 <= y < height,
                    0 <= x <= width,
                    height == rows.len(),
                    w == width,
                    width > 0,
                    row@ == rows[y as int],
                    width == max_len(rows),
                    rows == rows_of(raw_lines@),
                    row@.len() <= width,
                    cells@.len() == y * w + x,
                    forall|k: int| 0 <= k < cells@.len() ==> cells@[k] == read_cell(rows[k / w], k % w),
                    forall|r2: int, c2: int| r2 < y ==> !#[trigger] bad_char_at(rows, r2, c2),
                    forall|c2: int| c2 < x ==> !#[trigger] bad_char_at(rows, y as int, c2),
                decreases width - x,
            {
                let ch = if x < row.len() { row[x] } else { ' ' };
                assert(ch == padded_char(rows[y as int], x as int));
                match char_to_cell(ch) {
                    Ok(cell) => {
                        proof {
                            lemma_grid_index(x as int, y as int, w);
                        }
                        cells.push(cell);
                        assert(!bad_char_at(rows, y as int, x as int));
                        assert forall|c2: int| c2 < x + 1 implies !#[trigger] bad_char_at(rows, y as int, c2) by {
                            if c2 < x {
                            }
                        }
                    },
                    Err(e) => {
                        assert(x < row@.len());
                        assert(ch == rows[y as int][x as int]);
                        assert(bad_char_at(rows, y as int, x as int));
                        assert(first_bad_char(rows, y as int, x as int)) by {
                            assert forall|r2: int, c2: int| (r2 < y || (r2 == y && c2 < x)) implies !#[trigger] bad_char_at(rows, r2, c2) by {
                                if r2 < y {
                                } else {
                                }
                            }
                        }
                        return Err(e);
                    },
                }
                x += 1;
            }
            assert forall|r2: int, c2: int| r2 < y + 1 implies !#[trigger] bad_char_at(rows, r2, c2) by {
                if r2 == y {
                    if c2 >= x {
                        assert(c2 >= rows[y as int].len());
                    }
                }
            }
            assert(cells@.len() == (y + 1) * w) by (nonlinear_arith)
                requires cells@.len() == y * w + w;
            y += 1;
        }
        assert(!has_bad_char(rows));
        let map_name = match normalize_or_default_name(name) {
            Ok(n) => n,
            Err(e) => return Err(EditorError::Name(e)),
        };
        assert(cells@ =~= grid_cells(rows, width as nat));
        let mut map = EditorMap { width, height: height, cells, map_name };
        map.ensure_single_player();
        Ok(map)
    }

    /// The map as rows of characters, floor written as `-`.
    pub fn to_raw_lines(&self) -> (out: Vec<String>)
        requires
            self.covers(),
        ensures
            out@.len() == self.height,
            forall|y: int| 0 <= y < self.height ==> #[trigger] out@[y]@ == saved_row(self.cells@, self.width as int, y),
    {
        let mut out: Vec<String> = Vec::new();
        let mut y: usize = 0;
        while y < self.height
            invariant
                y <= self.height,
                self.covers(),
                out@.len() == y,
                forall|k: int| 0 <= k < y ==> #[trigger] out@[k]@ == saved_row(self.cells@, self.width as int, k),
            decreases self.height - y,
        {
            let mut line: Vec<char> = Vec::new();
            let mut x: usize = 0;
            while x < self.width
                invariant
                    x <= self.width,
                    y < self.height,
                    self.covers(),
                    line@ == Seq::new(x as nat, |i: int| char_of_cell(cell_at(self.cells@, self.width as int, i, y as int))),
                decreases self.width - x,
            {
                proof {
                    lemma_index_bound(x as int, y as int, self.width as int, self.height as int);
                }
                let n = self.cells.len();
                let c = self.cells[y * self.width + x];
                line.push(cell_to_char(c));
                assert(line@ =~= Seq::new((x + 1) as nat, |i: int| char_of_cell(cell_at(self.cells@, self.width as int, i, y as int))));
                x += 1;
            }
            out.push(string_from_chars(line.as_slice()));
            y += 1;
        }
        out
    }

    pub fn in_bounds(&self, x: usize, y: usize) -> (b: bool)
        ensures
            b == (x < self.width && y < self.height),
    {
        x < self.width && y < self.height
    }

    pub fn get(&self, x: usize, y: usize) -> (r: Option<Cell>)
        requires
            self.covers(),
        ensures
            r == (if x < self.width && y < self.height {
                Some(cell_at(self.cells@, self.width as int, x as int, y as int))
            } else {
                None
            }),
    {
        if !self.in_bounds(x, y) {
            return None;
        }
        proof {
            lemma_index_bound(x as int, y as int, self.width as int, self.height as int);
        }
        let n = self.cells.len();
        Some(self.cells[y * self.width + x])
    }

    fn set(&mut self, x: usize, y: usize, cell: Cell) -> (r: Result<(), EditorError>)
        requires
            old(self).covers(),
        ensures
            final(self).width == old(self).width,
            final(self).height == old(self).height,
            final(self).map_name == old(self).map_name,
            x < old(self).width && y < old(self).height ==> r is Ok && final(self).cells@ == old(
                self,
            ).cells@.update(y * old(self).width + x, cell),
            !(x < old(self).width && y < old(self).height) ==> r == Err::<(), EditorError>(
                EditorError::OutOfBounds,
            ) && final(self).cells@ == old(self).cells@,
    {
        if !self.in_bounds(x, y) {
            return Err(EditorError::OutOfBounds);
        }
        proof {
            lemma_index_bound(x as int, y as int, self.width as int, self.height as int);
        }
        let n = self.cells.len();
        let idx = y * self.width + x;
        self.cells.set(idx, cell);
        Ok(())
    }

    fn remove_all_players(&mut self)
        ensures
            final(self).width == old(self).width,
            final(self).height == old(self).height,
            final(self).map_name == old(self).map_name,
            final(self).cells@ == old(self).cells@.map_values(|c: Cell| without_player(c)),
    {
        let mut i: usize = 0;
        while i < self.cells.len()
            invariant
                i <= self.cells@.len(),
                self.width == old(self).width,
                self.height == old(self).height,
                self.map_name == old(self).map_name,
                self.cells@.len() == old(self).cells@.len(),
                forall|k: int| 0 <= k < i ==> self.cells@[k] == without_player(old(self).cells@[k]),
                forall|k: int| i <= k < self.cells@.len() ==> self.cells@[k] == old(self).cells@[k],
            decreases self.cells@.len() - i,
        {
            let c = self.cells[i];
            let n = match c {
                Cell::Player => Cell::Floor,
                Cell::PlayerOnGoal => Cell::Goal,
                other => other,
            };
            self.cells.set(i, n);
            i += 1;
        }
        assert(self.cells@ =~= old(self).cells@.map_values(|c: Cell| without_player(c)));
    }

    fn ensure_single_player(&mut self)
        ensures
            final(self).width == old(self).width,
            final(self).height == old(self).height,
            final(self).map_name == old(self).map_name,
            final(self).cells@ == single_player(old(self).cells@),
    {
        let ghost orig = self.cells@;
        let mut seen = false;
        let mut i: usize = 0;
        while i < self.cells.len()
            invariant
                i <= self.cells@.len(),
                self.width == old(self).width,
                self.height == old(self).height,
                self.map_name == old(self).map_name,
                orig == old(self).cells@,
                self.cells@.len() == orig.len(),
                seen == player_before(orig, i as int),
                forall|k: int| 0 <= k < i ==> self.cells@[k] == single_player(orig)[k],
                forall|k: int| i <= k < self.cells@.len() ==> self.cells@[k] == orig[k],
            decreases self.cells@.len() - i,
        {
            let c = self.cells[i];
            match c {
                Cell::Player => {
                    if seen {
                        self.cells.set(i, Cell::Floor);
                    }
                },
                Cell::PlayerOnGoal => {
                    if seen {
                        self.cells.set(i, Cell::Goal);
                    }
                },
                _ => {},
            }
            proof {
                if is_player_cell(orig[i as int]) {
                    assert(player_before(orig, i + 1));
                } else {
                    if player_before(orig, i + 1) {
                        let j = choose|j: int| 0 <= j < i + 1 && #[trigger] is_player_cell(orig[j]);
                        assert(player_before(orig, i as int));
                    }
                }
            }
            seen = seen || c == Cell::Player || c == Cell::PlayerOnGoal;
            i += 1;
        }
        assert(self.cells@ =~= single_player(orig));
    }

    /// Paints `tile` at `(x, y)`. Painting a player first removes every
    /// other player.
    pub fn paint(&mut self, x: usize, y: usize, tile: EditorTile) -> (r: Result<(), EditorError>)
        requires
            old(self).covers(),
        ensures
            final(self).width == old(self).width,
            final(self).height == old(self).height,
            final(self).map_name == old(self).map_name,
            final(self).covers(),
            !(x < old(self).width && y < old(self).height) ==> r == Err::<(), EditorError>(
                EditorError::OutOfBounds,
            ) && final(self).cells@ == old(self).cells@,
            (x < old(self).width && y < old(self).height) ==> r is Ok && final(self).cells@ == (if is_player_cell(
                cell_of_tile(tile),
            ) {
                old(self).cells@.map_values(|c: Cell| without_player(c))
            } else {
                old(self).cells@
            }).update(y * old(self).width + x, cell_of_tile(tile)),
            // painting a player leaves exactly that one player
            (x < old(self).width && y < old(self).height && is_player_cell(cell_of_tile(tile)))
                ==> exactly_one_player(final(self).cells@),
    {
        if !self.in_bounds(x, y) {
            return Err(EditorError::OutOfBounds);
        }
        let target = tile_to_cell(tile);
        if target == Cell::Player || target == Cell::PlayerOnGoal {
            self.remove_all_players();
        }
        let r = self.set(x, y, target);
        proof {
            lemma_index_bound(x as int, y as int, self.width as int, self.height as int);
            let n = self.cells.len();
        let idx = y * self.width + x;
            if is_player_cell(target) {
                let cs = self.cells@;
                assert forall|i: int, j: int|
                    0 <= i < cs.len() && 0 <= j < cs.len() && #[trigger] is_player_cell(cs[i]) && #[trigger] is_player_cell(cs[j])
                    implies i == j by {
                    assert(i == idx && j == idx);
                }
                assert(is_player_cell(cs[idx]));
            }
        }
        r
    }

    /// Changes the canvas to `new_width` by `new_height`, keeping the cells
    /// that still fit. When the canvas grows, its new border cells become
    /// walls and its other new cells floor.
    pub fn resize(&mut self, new_width: usize, new_height: usize) -> (r: Result<(), EditorError>)
        requires
            old(self).covers(),
            new_width * new_height <= usize::MAX,
        ensures
            final(self).map_name == old(self).map_name,
            match canvas_size_error(new_width, new_height) {
                Some(e) => r == Err::<(), EditorError>(e) && final(self).width == old(self).width
                    && final(self).height == old(self).height && final(self).cells@ == old(self).cells@,
                None => r is Ok && final(self).width == new_width && final(self).height == new_height
                    && final(self).wf() && final(self).cells@ == single_player(
                    resized_cells(
                        old(self).cells@,
                        old(self).width as int,
                        old(self).height as int,
                        new_width as int,
                        new_height as int,
                    ),
                ),
            },
    {
        validate_canvas_size(new_width, new_height)?;
        let old_width = self.width;
        let old_height = self.height;
        let growing = new_width > old_width || new_height > old_height;
        let ghost old_cells = self.cells@;
        let ghost nw = new_width as int;

        let mut cells: Vec<Cell> = Vec::new();
        let mut y: usize = 0;
        while y < new_height
            invariant
                y <= new_height,
                new_width > 0,
                nw == new_width,
                self.covers(),
                self.cells@ == old_cells,
                self.width == old_width,
                self.height == old_height,
                growing == (new_width > old_width || new_height > old_height),
                cells@.len() == y * nw,
                forall|k: int| 0 <= k < cells@.len() ==> cells@[k] == resized_cell(old_cells, old_width as int, old_height as int, nw, new_height as int, k % nw, k / nw),
            decreases new_height - y,
        {
            let mut x: usize = 0;
            while x < new_width
                invariant
                    x <= new_width,
                    y < new_height,
                    new_width > 0,
                    nw == new_width,
                    self.covers(),
                    self.cells@ == old_cells,
                    self.width == old_width,
                    self.height == old_height,
                    growing == (new_width > old_width || new_height > old_height),
                    cells@.len() == y * nw + x,
                    forall|k: int| 0 <= k < cells@.len() ==> cells@[k] == resized_cell(old_cells, old_width as int, old_height as int, nw, new_height as int, k % nw, k / nw),
                decreases new_width - x,
            {
                let cell = if x < old_width && y < old_height {
                    proof {
                        lemma_index_bound(x as int, y as int, old_width as int, old_height as int);
                    }
                    let n = self.cells.len();
                    self.cells[y * old_width + x]
                } else if growing && (x == 0 || y == 0 || x == new_width - 1 || y == new_height - 1) {
                    Cell::Wall
                } else {
                    Cell::Floor
                };
                proof {
                    lemma_grid_index(x as int, y as int, nw);
                }
                cells.push(cell);
                x += 1;
            }
            assert(cells@.len() == (y + 1) * nw) by (nonlinear_arith)
                requires cells@.len() == y * nw + nw;
            y += 1;
        }
        assert(cells@.len() == nw * new_height) by (nonlinear_arith)
            requires cells@.len() == new_height * nw;
        assert(cells@ =~= resized_cells(old_cells, old_width as int, old_height as int, nw, new_height as int));
        self.width = new_width;
        self.height = new_height;
        self.cells = cells;
        self.ensure_single_player();
        Ok(())
    }

    /// Renames the map; the name is checked as a map name.
    pub fn rename_map(&mut self, raw_name: &str) -> (r: Result<(), NameError>)
        ensures
            final(self).width == old(self).width,
            final(self).height == old(self).height,
            final(self).cells == old(self).cells,
            match map_name_result(raw_name@) {
                Ok(n) => r is Ok && final(self).map_name@ == n,
                Err(e) => r == Err::<(), NameError>(e) && final(self).map_name == old(self).map_name,
            },
    {
        let n = normalize_map_name(raw_name)?;
        self.map_name = n;
        Ok(())
    }

    /// The first problem that makes the map unplayable or trivial: no
    /// boxes, more boxes than goals, every box already on a goal, or no
    /// player.
    pub fn simple_warning(&self) -> (w: Option<SimpleWarning>)
        ensures
            w == warning_for(self.cells@),
    {
        let ghost cs = self.cells@;
        let mut boxes: usize = 0;
        let mut boxes_off_goal: usize = 0;
        let mut goals: usize = 0;
        let mut players: usize = 0;
        let mut i: usize = 0;
        while i < self.cells.len()
            invariant
                i <= cs.len(),
                cs == self.cells@,
                boxes == count_cells(cs.take(i as int), |c: Cell| is_box_cell(c)),
                boxes_off_goal == count_cells(cs.take(i as int), |c: Cell| c == Cell::Box),
                goals == count_cells(cs.take(i as int), |c: Cell| is_goal_cell(c)),
                players == count_cells(cs.take(i as int), |c: Cell| is_player_cell(c)),
                boxes <= i && boxes_off_goal <= i && goals <= i && players <= i,
            decreases cs.len() - i,
        {
            let c = self.cells[i];
            assert(cs.take(i + 1).drop_last() =~= cs.take(i as int));
            assert(cs.take(i + 1).last() == c);
            match c {
                Cell::Box => {
                    boxes += 1;
                    boxes_off_goal += 1;
                },
                Cell::BoxOnGoal => {
                    boxes += 1;
                    goals += 1;
                },
                Cell::Goal => goals += 1,
                Cell::Player => players += 1,
                Cell::PlayerOnGoal => {
                    players += 1;
                    goals += 1;
                },
                Cell::Floor | Cell::Wall => {},
            }
            i += 1;
        }
        assert(cs.take(cs.len() as int) == cs);
        if boxes == 0 {
            return Some(SimpleWarning::MissingBoxes);
        }
        if boxes > goals {
            return Some(SimpleWarning::BoxesMoreThanGoals { boxes, goals });
        }
        if boxes > 0 && boxes_off_goal == 0 {
            return Some(SimpleWarning::AlreadySolved);
        }
        if players == 0 {
            return Some(SimpleWarning::MissingPlayer);
        }
        None
    }
}

/// When every row has length `w`, the longest row has length `w`.
pub proof fn lemma_max_len_uniform(rows: Seq<Seq<char>>, w: nat)
    requires
        rows.len() > 0,
        forall|y: int| 0 <= y < rows.len() ==> (#[trigger] rows[y]).len() == w,
    ensures
        max_len(rows) == w,
    decreases rows.len(),
{
    if rows.len() > 1 {
        let d = rows.drop_last();
        assert forall|y: int| 0 <= y < d.len() implies (#[trigger] d[y]).len() == w by {
            assert(d[y] == rows[y]);
        }
        lemma_max_len_uniform(d, w);
        assert(rows.last().len() == w);
    } else {
        assert(rows.drop_last().len() == 0);
        assert(max_len(rows.drop_last()) == 0);
        assert(rows.last() == rows[0]);
    }
}

/// Saving a map as rows of characters and reading those rows back gives the
/// same size and the same cells, for every map with at most one player.
pub proof fn lemma_raw_round_trip(map: EditorMap, lines: Seq<String>)
    requires
        map.wf(),
        map.width > 0,
        map.height > 0,
        at_most_one_player(map.cells@),
        lines.len() == map.height,
        forall|y: int| 0 <= y < map.height ==> #[trigger] lines[y]@ == saved_row(map.cells@, map.width as int, y),
    ensures
        rows_of(lines).len() == map.height,
        max_len(rows_of(lines)) == map.width,
        !has_bad_char(rows_of(lines)),
        single_player(grid_cells(rows_of(lines), map.width as nat)) == map.cells@,
{
    let rows = rows_of(lines);
    let w = map.width as int;
    let h = map.height as int;
    let cells = map.cells@;
    assert forall|y: int| 0 <= y < rows.len() implies (#[trigger] rows[y]).len() == map.width by {
        assert(rows[y] == lines[y]@);
    }
    lemma_max_len_uniform(rows, map.width as nat);
    assert forall|r: int, c: int| !#[trigger] bad_char_at(rows, r, c) by {
        if 0 <= r < rows.len() && 0 <= c < rows[r].len() {
            assert(rows[r] == lines[r]@);
            assert(rows[r][c] == char_of_cell(cell_at(cells, w, c, r)));
        }
    }
    let g = grid_cells(rows, map.width as nat);
    assert(g.len() == cells.len()) by (nonlinear_arith)
        requires
            g.len() == h * w,
            cells.len() == map.width * map.height,
            w == map.width,
            h == map.height,
    ;
    assert forall|i: int| 0 <= i < g.len() implies g[i] == cells[i] by {
        lemma_index_split(i, w, h);
        let y = i / w;
        let x = i % w;
        assert(rows[y] == lines[y]@);
        assert(rows[y][x] == char_of_cell(cell_at(cells, w, x, y)));
    }
    assert(g =~= cells);
    lemma_single_player(cells);
}

/// Reading a cell right after painting it gives the painted cell.
pub proof fn lemma_paint_then_get(cells: Seq<Cell>, w: int, h: int, x: int, y: int, c: Cell)
    requires
        0 <= x < w,
        0 <= y < h,
        cells.len() >= w * h,
    ensures
        cell_at(cells.update(y * w + x, c), w, x, y) == c,
        cells.update(y * w + x, c).len() == cells.len(),
{
    lemma_index_bound(x, y, w, h);
}

/// A row is never longer than the longest row.
pub proof fn lemma_row_le_max(rows: Seq<Seq<char>>, k: int)
    requires
        0 <= k < rows.len(),
    ensures
        rows[k].len() <= max_len(rows),
    decreases rows.len(),
{
    if k < rows.len() - 1 {
        assert(rows.drop_last()[k] == rows[k]);
        lemma_row_le_max(rows.drop_last(), k);
    }
}


/// After a resize to `nw` by `nh`, a cell that was on the old canvas keeps
/// its content (a player may only be dropped when another player comes
/// first), and every cell outside the old canvas is a wall when it lies on
/// the border of the new canvas and floor when it does not.
pub proof fn lemma_resize_keeps_cells_and_walls_new_border(
    old: Seq<Cell>,
    ow: int,
    oh: int,
    nw: int,
    nh: int,
    x: int,
    y: int,
)
    requires
        0 <= ow,
        0 <= oh,
        old.len() >= ow * oh,
        0 <= x < nw,
        0 <= y < nh,
    ensures
        ({
            let r = single_player(resized_cells(old, ow, oh, nw, nh));
            &&& r.len() == nw * nh
            &&& y * nw + x < r.len()
            &&& (x < ow && y < oh) ==> (cell_at(r, nw, x, y) == cell_at(old, ow, x, y) || (is_player_cell(
                cell_at(old, ow, x, y),
            ) && cell_at(r, nw, x, y) == without_player(cell_at(old, ow, x, y))))
            &&& (x < ow && y < oh && !is_player_cell(cell_at(old, ow, x, y))) ==> cell_at(r, nw, x, y)
                == cell_at(old, ow, x, y)
            &&& (x >= ow || y >= oh) && (x == 0 || y == 0 || x == nw - 1 || y == nh - 1) ==> cell_at(r, nw, x, y)
                == Cell::Wall
            &&& (x >= ow || y >= oh) && !(x == 0 || y == 0 || x == nw - 1 || y == nh - 1) ==> cell_at(
                r,
                nw,
                x,
                y,
            ) == Cell::Floor
        }),
{
    lemma_grid_index(x, y, nw);
    lemma_index_bound(x, y, nw, nh);
    let cells = resized_cells(old, ow, oh, nw, nh);
    let i = y * nw + x;
    assert(cells.len() == nw * nh);
    assert(cells[i] == resized_cell(old, ow, oh, nw, nh, x, y));
}

/// How many cells satisfy `p` is the length of the cells filtered by `p`.
proof fn lemma_count_is_filter(cells: Seq<Cell>, p: spec_fn(Cell) -> bool)
    ensures
        count_cells(cells, p) == cells.filter(p).len(),
    decreases cells.len(),
{
    reveal(Seq::filter);
    if cells.len() > 0 {
        lemma_count_is_filter(cells.drop_last(), p);
    }
}

/// The warning counts the cells themselves: boxes are `Box` and
/// `BoxOnGoal` cells, goals are `Goal`, `BoxOnGoal` and `PlayerOnGoal`
/// cells, players are `Player` and `PlayerOnGoal` cells. A map is warned of missing boxes when it has none; of too many boxes
/// exactly when it has more boxes than goals; of being solved already when
/// it has boxes, no more than goals, and none off a goal; of a missing
/// player when otherwise fine but without a player; and not at all exactly
/// when it has a box, no more boxes than goals, a box off its goal and a
/// player.
pub proof fn lemma_warning_counts(cells: Seq<Cell>)
    requires
        cells.len() <= usize::MAX,
    ensures
        ({
            let boxes = cells.filter(|c: Cell| c == Cell::Box || c == Cell::BoxOnGoal).len();
            let goals = cells.filter(|c: Cell| c == Cell::Goal || c == Cell::BoxOnGoal || c == Cell::PlayerOnGoal).len();
            let loose = cells.filter(|c: Cell| c == Cell::Box).len();
            let players = cells.filter(|c: Cell| c == Cell::Player || c == Cell::PlayerOnGoal).len();
            &&& (warning_for(cells) == Some(SimpleWarning::MissingBoxes)) == (boxes == 0)
            &&& warning_for(cells) matches Some(SimpleWarning::BoxesMoreThanGoals { boxes: b, goals: g })
                ==> b == boxes && g == goals && boxes > goals
            &&& boxes <= goals ==> !(warning_for(cells) is Some && warning_for(cells)->0 is BoxesMoreThanGoals)
            &&& (warning_for(cells) is Some && warning_for(cells)->0 is BoxesMoreThanGoals) == (boxes > goals)
            &&& (warning_for(cells) == Some(SimpleWarning::AlreadySolved)) == (boxes > 0 && boxes <= goals
                && loose == 0)
            &&& (warning_for(cells) == Some(SimpleWarning::MissingPlayer)) == (boxes > 0 && boxes <= goals
                && loose > 0 && players == 0)
            &&& (warning_for(cells) is None) == (boxes > 0 && boxes <= goals && loose > 0 && players > 0)
        }),
{
    let pb = |c: Cell| c == Cell::Box || c == Cell::BoxOnGoal;
    let pg = |c: Cell| c == Cell::Goal || c == Cell::BoxOnGoal || c == Cell::PlayerOnGoal;
    let pl = |c: Cell| c == Cell::Box;
    let pp = |c: Cell| c == Cell::Player || c == Cell::PlayerOnGoal;
    let qb = |c: Cell| is_box_cell(c);
    let qg = |c: Cell| is_goal_cell(c);
    let qp = |c: Cell| is_player_cell(c);
    lemma_count_is_filter(cells, qb);
    lemma_count_is_filter(cells, qg);
    lemma_count_is_filter(cells, pl);
    lemma_count_is_filter(cells, qp);
    assert(qb =~= pb);
    assert(qg =~= pg);
    assert(qp =~= pp);
    assert(cells.filter(qb) == cells.filter(pb));
    assert(cells.filter(qg) == cells.filter(pg));
    assert(cells.filter(qp) == cells.filter(pp));
    cells.lemma_filter_len(pb);
    cells.lemma_filter_len(pg);
    assert(count_cells(cells, qb) == cells.filter(pb).len());
    assert(count_cells(cells, qg) == cells.filter(pg).len());
    assert(count_cells(cells, pl) == cells.filter(pl).len());
    assert(count_cells(cells, qp) == cells.filter(pp).len());
}

} // verus!
