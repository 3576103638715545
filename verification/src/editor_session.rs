use vstd::prelude::*;

use crate::editor::{
    canvas_size_error, cell_of_tile, is_player_cell, lemma_max_len_uniform, resized_cells, rows_of,
    saved_row, single_player, without_player, Cell, EditorError, EditorMap, EditorTile,
};
use crate::editor_model::{map_name_result, NameError};
use crate::level::{grid_fits, level_result_view, opt_string_view, parse_grid, Level, LevelError, RawLevel};
use crate::text::{chars_of, string_from_chars};

verus! {

/// The content of an edited map: width, height, cells and name.
pub type MapModel = (usize, usize, Seq<Cell>, Seq<char>);

pub open spec fn map_model(m: EditorMap) -> MapModel {
    (m.width, m.height, m.cells@, m.map_name@)
}

/// The state of the map editor: the map being edited, the map as last
/// saved, the maps to go back to, the brush, the last painted cell of the
/// current stroke, and whether there are unsaved changes.
pub struct EditorSession {
    pub working: EditorMap,
    pub baseline: EditorMap,
    pub undo_stack: Vec<EditorMap>,
    pub brush: EditorTile,
    pub last_painted: Option<(usize, usize)>,
    pub dirty: bool,
}

/// Two maps are the same edit: same size, cells and name.
pub fn same_map(a: &EditorMap, b: &EditorMap) -> (r: bool)
    ensures
        r == (map_model(*a) == map_model(*b)),
{
    if a.width != b.width || a.height != b.height || a.cells.len() != b.cells.len() {
        assert(a.cells@.len() != b.cells@.len() ==> a.cells@ != b.cells@);
        return false;
    }
    let mut i: usize = 0;
    while i < a.cells.len()
        invariant
            i <= a.cells@.len(),
            a.cells@.len() == b.cells@.len(),
            forall|j: int| 0 <= j < i ==> a.cells@[j] == b.cells@[j],
        decreases a.cells@.len() - i,
    {
        if a.cells[i] != b.cells[i] {
            assert(a.cells@[i as int] != b.cells@[i as int]);
            assert(a.cells@ != b.cells@);
            return false;
        }
        i += 1;
    }
    assert(a.cells@ =~= b.cells@);
    let an = chars_of(a.map_name.as_str());
    let bn = chars_of(b.map_name.as_str());
    if an.len() != bn.len() {
        assert(a.map_name@ != b.map_name@);
        return false;
    }
    let mut k: usize = 0;
    while k < an.len()
        invariant
            k <= an@.len(),
            an@.len() == bn@.len(),
            an@ == a.map_name@,
            bn@ == b.map_name@,
            forall|j: int| 0 <= j < k ==> an@[j] == bn@[j],
        decreases an@.len() - k,
    {
        if an[k] != bn[k] {
            assert(an@[k as int] != bn@[k as int]);
            assert(a.map_name@ != b.map_name@);
            return false;
        }
        k += 1;
    }
    assert(an@ =~= bn@);
    true
}

impl EditorSession {
    /// Every map the session holds or can bring back covers its canvas.
    pub open spec fn wf(&self) -> bool {
        &&& self.working.covers()
        &&& forall|i: int| 0 <= i < self.undo_stack@.len() ==> (#[trigger] self.undo_stack@[i]).covers()
    }

    /// The maps undo can bring back, oldest first.
    pub open spec fn history(&self) -> Seq<MapModel> {
        self.undo_stack@.map_values(|m: EditorMap| map_model(m))
    }

    /// Starts editing `map` with the floor brush and nothing to undo.
    pub fn new(map: EditorMap) -> (s: EditorSession)
        requires
            map.covers(),
        ensures
            s.wf(),
            map_model(s.working) == map_model(map),
            map_model(s.baseline) == map_model(map),
            s.history() == Seq::<MapModel>::empty(),
            s.brush == EditorTile::Floor,
            s.last_painted is None,
            !s.dirty,
    {
        let baseline = map.clone();
        let s = EditorSession {
            working: map,
            baseline,
            undo_stack: Vec::new(),
            brush: EditorTile::Floor,
            last_painted: None,
            dirty: false,
        };
        assert(s.history() =~= Seq::<MapModel>::empty());
        s
    }

    pub fn select_brush(&mut self, tile: EditorTile)
        ensures
            final(self).brush == tile,
            map_model(final(self).working) == map_model(old(self).working),
            map_model(final(self).baseline) == map_model(old(self).baseline),
            final(self).undo_stack == old(self).undo_stack,
            final(self).last_painted == old(self).last_painted,
            final(self).dirty == old(self).dirty,
    {
        self.brush = tile;
    }

    /// Paints the brush at `(x, y)` unless the stroke just painted there;
    /// a painted cell can be undone. Returns whether the map changed.
    pub fn paint_at(&mut self, x: usize, y: usize) -> (painted: bool)
        requires
            old(self).wf(),
        ensures
            final(self).wf(),
            final(self).brush == old(self).brush,
            map_model(final(self).baseline) == map_model(old(self).baseline),
            painted == (old(self).last_painted != Some((x, y)) && x < old(self).working.width && y
                < old(self).working.height),
            painted ==> {
                &&& final(self).history() == old(self).history().push(map_model(old(self).working))
                &&& final(self).working.width == old(self).working.width
                &&& final(self).working.height == old(self).working.height
                &&& final(self).working.map_name@ == old(self).working.map_name@
                &&& final(self).working.cells@ == (if is_player_cell(cell_of_tile(old(self).brush)) {
                    old(self).working.cells@.map_values(|c: Cell| without_player(c))
                } else {
                    old(self).working.cells@
                }).update(y * old(self).working.width + x, cell_of_tile(old(self).brush))
                &&& final(self).last_painted == Some((x, y))
                &&& final(self).dirty
            },
            !painted ==> {
                &&& final(self).history() == old(self).history()
                &&& map_model(final(self).working) == map_model(old(self).working)
                &&& final(self).last_painted == old(self).last_painted
                &&& final(self).dirty == old(self).dirty
            },
    {
        if self.last_painted == Some((x, y)) {
            return false;
        }
        if !self.working.in_bounds(x, y) {
            return false;
        }
        let before = self.working.clone();
        let ghost h = self.history();
        let r = self.working.paint(x, y, self.brush);
        self.undo_stack.push(before);
        assert(self.history() =~= h.push(map_model(before)));
        self.last_painted = Some((x, y));
        self.dirty = true;
        true
    }

    /// The stroke ended: the next paint may hit the same cell again.
    pub fn release(&mut self)
        ensures
            final(self).last_painted is None,
            map_model(final(self).working) == map_model(old(self).working),
            map_model(final(self).baseline) == map_model(old(self).baseline),
            final(self).undo_stack == old(self).undo_stack,
            final(self).brush == old(self).brush,
            final(self).dirty == old(self).dirty,
    {
        self.last_painted = None;
    }

    /// Brings back the map before the last edit. Afterwards there are unsaved
    /// changes exactly when the map differs from the saved one.
    pub fn undo(&mut self) -> (undone: bool)
        requires
            old(self).wf(),
        ensures
            final(self).wf(),
            undone == (old(self).history().len() > 0),
            undone ==> {
                &&& map_model(final(self).working) == old(self).history().last()
                &&& final(self).history() == old(self).history().drop_last()
                &&& final(self).dirty == (map_model(final(self).working) != map_model(old(self).baseline))
            },
            !undone ==> map_model(final(self).working) == map_model(old(self).working)
                && final(self).dirty == old(self).dirty && final(self).history() == old(self).history(),
            map_model(final(self).baseline) == map_model(old(self).baseline),
            final(self).brush == old(self).brush,
            final(self).last_painted == old(self).last_painted,
    {
        let ghost h = self.history();
        let ghost stack = self.undo_stack@;
        match self.undo_stack.pop() {
            Some(previous) => {
                assert(previous == stack.last());
                assert(self.history() =~= h.drop_last());
                self.working = previous;
                self.dirty = !same_map(&self.working, &self.baseline);
                assert forall|i: int| 0 <= i < self.undo_stack@.len() implies (#[trigger] self.undo_stack@[i]).covers() by {
                    assert(self.undo_stack@[i] == stack[i]);
                }
                assert(previous.covers()) by {
                    assert(stack[stack.len() - 1] == previous);
                }
                true
            },
            None => false,
        }
    }

    /// Renames the map; a successful rename can be undone.
    pub fn rename(&mut self, raw_name: &str) -> (r: Result<(), NameError>)
        requires
            old(self).wf(),
        ensures
            final(self).wf(),
            map_model(final(self).baseline) == map_model(old(self).baseline),
            final(self).brush == old(self).brush,
            final(self).last_painted == old(self).last_painted,
            match map_name_result(raw_name@) {
                Ok(n) => r is Ok && final(self).working.map_name@ == n && final(self).working.cells@
                    == old(self).working.cells@ && final(self).working.width == old(self).working.width
                    && final(self).working.height == old(self).working.height && final(self).history()
                    == old(self).history().push(map_model(old(self).working)) && final(self).dirty,
                Err(e) => r == Err::<(), NameError>(e) && map_model(final(self).working) == map_model(
                    old(self).working,
                ) && final(self).history() == old(self).history() && final(self).dirty == old(self).dirty,
            },
    {
        let before = self.working.clone();
        let ghost h = self.history();
        self.working.rename_map(raw_name)?;
        self.undo_stack.push(before);
        assert(self.history() =~= h.push(map_model(before)));
        self.dirty = true;
        Ok(())
    }

    /// Resizes the canvas; a successful resize can be undone.
    pub fn resize(&mut self, width: usize, height: usize) -> (r: Result<(), EditorError>)
        requires
            old(self).wf(),
            width * height <= usize::MAX,
        ensures
            final(self).wf(),
            map_model(final(self).baseline) == map_model(old(self).baseline),
            final(self).brush == old(self).brush,
            final(self).last_painted == old(self).last_painted,
            match canvas_size_error(width, height) {
                Some(e) => r == Err::<(), EditorError>(e) && map_model(final(self).working) == map_model(
                    old(self).working,
                ) && final(self).history() == old(self).history() && final(self).dirty == old(self).dirty,
                None => r is Ok && final(self).working.width == width && final(self).working.height == height
                    && final(self).working.cells@ == single_player(
                    resized_cells(
                        old(self).working.cells@,
                        old(self).working.width as int,
                        old(self).working.height as int,
                        width as int,
                        height as int,
                    ),
                ) && final(self).working.map_name@ == old(self).working.map_name@ && final(self).history()
                    == old(self).history().push(map_model(old(self).working)) && final(self).dirty,
            },
    {
        let before = self.working.clone();
        let ghost h = self.history();
        self.working.resize(width, height)?;
        self.undo_stack.push(before);
        assert(self.history() =~= h.push(map_model(before)));
        self.dirty = true;
        Ok(())
    }

    /// The map was saved: it becomes the saved map and nothing is unsaved.
    pub fn mark_saved(&mut self)
        ensures
            map_model(final(self).baseline) == map_model(old(self).working),
            map_model(final(self).working) == map_model(old(self).working),
            !final(self).dirty,
            final(self).undo_stack == old(self).undo_stack,
            final(self).brush == old(self).brush,
            final(self).last_painted == old(self).last_painted,
    {
        self.baseline = self.working.clone();
        self.dirty = false;
    }
}

/// Undoing right after an edit gives back the map as it was before the
/// edit and the history as it was.
pub proof fn lemma_undo_after_edit(history: Seq<MapModel>, before: MapModel)
    ensures
        history.push(before).len() > 0,
        history.push(before).last() == before,
        history.push(before).drop_last() == history,
{
    assert(history.push(before).drop_last() =~= history);
}

/// The level a map plays as: its saved rows under its name, read as a
/// level.
pub fn playtest_level(map: &EditorMap) -> (r: Result<Level, LevelError>)
    requires
        map.covers(),
        map.width <= i32::MAX,
        map.height <= i32::MAX,
    ensures
        level_result_view(r) == parse_grid(
            Seq::new(map.height as nat, |y: int| saved_row(map.cells@, map.width as int, y)),
            Some(map.map_name@),
        ),
{
    let lines = map.to_raw_lines();
    let ghost rows = rows_of(lines@);
    assert(rows =~= Seq::new(map.height as nat, |y: int| saved_row(map.cells@, map.width as int, y)));
    proof {
        if map.height > 0 {
            assert forall|y: int| 0 <= y < rows.len() implies (#[trigger] rows[y]).len() == map.width by {
            }
            lemma_max_len_uniform(rows, map.width as nat);
        }
    }
    let name = string_from_chars(chars_of(map.map_name.as_str()).as_slice());
    let raw = RawLevel { name: Some(name), lines };
    raw.to_level()
}

/// Moves entry `from` of a list to position `to`, shifting the entries in
/// between.
pub fn move_entry<T>(items: &mut Vec<T>, from: usize, to: usize)
    requires
        from < old(items)@.len(),
        to < old(items)@.len(),
    ensures
        final(items)@ == old(items)@.remove(from as int).insert(to as int, old(items)@[from as int]),
        final(items)@.len() == old(items)@.len(),
{
    let moved = items.remove(from);
    items.insert(to, moved);
}

} // verus!
