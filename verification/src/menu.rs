use vstd::prelude::*;

use crate::coord::Direction;
use crate::editor::SimpleWarning;
use crate::editor_model::{
    is_control, is_control_char, is_invalid_filename, is_invalid_filename_char, COLLECTION_NAME_MAX_CHARS,
};
use crate::text::{
    chars_of, copy_range, decimal, push_decimal, push_str_chars, string_from_chars, trim, trim_chars,
};

verus! {

// ---------------------------------------------------------------- scrolling lists

/// The first entry shown when a list of `total` entries shows `rows` of
/// them around entry `selected`.
pub open spec fn window_start(selected: usize, total: usize, rows: usize) -> int {
    let half = rows / 2;
    let start = if selected >= half { selected - half } else { 0 };
    let max_start = total - rows;
    if start > max_start { max_start } else { start }
}

/// The entries `[start, end)` of a list that are shown: all of them when
/// they fit, else `rows` of them with the selected one near the middle.
pub fn visible_range(selected_index: usize, total_entries: usize, visible_rows: usize) -> (r: (usize, usize))
    ensures
        total_entries <= visible_rows ==> r == (0usize, total_entries),
        total_entries > visible_rows ==> r.0 == window_start(selected_index, total_entries, visible_rows)
            && r.1 == r.0 + visible_rows,
        r.0 <= r.1 <= total_entries,
        // the selected entry is always shown
        selected_index < total_entries && visible_rows > 0 ==> r.0 <= selected_index < r.1,
{
    if total_entries <= visible_rows {
        return (0, total_entries);
    }
    let half = visible_rows / 2;
    let mut start = if selected_index >= half { selected_index - half } else { 0 };
    let max_start = total_entries - visible_rows;
    if start > max_start {
        start = max_start;
    }
    let end = if start + visible_rows < total_entries { start + visible_rows } else { total_entries };
    (start, end)
}

// ---------------------------------------------------------------- moving in the map grid

/// Where the selection moves in a grid of `map_count` maps laid out in rows
/// of `columns`: left and right step by one, up and down by a row; moving
/// down from the row before a shorter last row lands on the last map.
pub open spec fn move_target(current: usize, columns: usize, map_count: usize, direction: Direction) -> Option<usize> {
    if map_count == 0 {
        None
    } else {
        match direction {
            Direction::Left => if current >= 1 { Some((current - 1) as usize) } else { None },
            Direction::Right => if current + 1 < map_count { Some((current + 1) as usize) } else { None },
            Direction::Up => if current >= columns { Some((current - columns) as usize) } else { None },
            Direction::Down => if current + columns < map_count {
                Some((current + columns) as usize)
            } else if (current as int) / (columns as int) + 1 != (map_count - 1) / (columns as int) {
                None
            } else if current < map_count - 1 {
                Some((map_count - 1) as usize)
            } else {
                None
            },
        }
    }
}

pub fn map_list_move_target(current: usize, columns: usize, map_count: usize, direction: Direction) -> (r: Option<usize>)
    requires
        direction == Direction::Right ==> current + 1 <= usize::MAX,
        direction == Direction::Down ==> current + columns <= usize::MAX,
        direction == Direction::Down && map_count > 0 && current + columns >= map_count ==> columns > 0,
    ensures
        r == move_target(current, columns, map_count, direction),
        // from a valid selection the target is a valid selection
        current < map_count ==> (r matches Some(t) ==> t < map_count),
{
    if map_count == 0 {
        return None;
    }
    match direction {
        Direction::Left => if current >= 1 { Some(current - 1) } else { None },
        Direction::Right => {
            let next = current + 1;
            if next < map_count { Some(next) } else { None }
        },
        Direction::Up => if current >= columns { Some(current - columns) } else { None },
        Direction::Down => {
            let next = current + columns;
            if next < map_count {
                return Some(next);
            }
            let current_row = current / columns;
            let last_row = (map_count - 1) / columns;
            if current_row + 1 != last_row {
                return None;
            }
            let last_index = map_count - 1;
            if current < last_index { Some(last_index) } else { None }
        },
    }
}

/// A selection kept inside a list of `len` entries.
pub open spec fn clamped_selection(selected: usize, len: usize) -> usize {
    if len == 0 { 0 } else if selected < len { selected } else { (len - 1) as usize }
}

pub fn clamp_selection(selected: usize, len: usize) -> (r: usize)
    ensures
        r == clamped_selection(selected, len),
        len > 0 ==> r < len,
{
    if len == 0 {
        0
    } else if selected < len {
        selected
    } else {
        len - 1
    }
}

// ---------------------------------------------------------------- collection menu

/// A key pressed in the collection menu.
#[derive(Clone, Copy, Debug, PartialEq, Eq, Structural)]
pub enum MenuKey {
    /// Escape: back to the main menu.
    Back,
    /// N: create a collection.
    New,
    /// I: import a collection file.
    Import,
    /// Arrow up or W.
    Up,
    /// Arrow down or S.
    Down,
    /// E: open the selected collection's map list.
    Edit,
    /// Enter or Space: play the selected collection.
    Play,
    /// R or F2: rename the selected collection.
    Rename,
    /// Delete: delete the selected collection.
    Delete,
    /// Any other key.
    Other,
}

/// What the collection menu does after a key.
#[derive(Clone, Copy, Debug, PartialEq, Eq, Structural)]
pub enum MenuAction {
    Nothing,
    BackToMainMenu,
    CreateCollection,
    ImportCollection,
    /// Open the map list of the collection at this index.
    Edit(usize),
    /// Play the collection at this index.
    Play(usize),
    /// Ask for a new name of the collection at this index.
    StartRename(usize),
    /// Ask to confirm deleting the collection at this index.
    StartDelete(usize),
    /// The built-in collection cannot be renamed.
    RenameRefused,
    /// The built-in collection cannot be deleted.
    DeleteRefused,
}

/// The selection and action after `key` in a menu of `count` collections
/// whose built-in collection, if listed, is at `builtin`. Leaving, creating
/// and importing do not need a selection; with no collections nothing else
/// happens. Otherwise the selection is first kept inside the list; up and
/// down move it, wrapping around; the other keys act on the selected
/// collection, and the built-in one is neither renamed nor deleted.
pub open spec fn menu_step(selection: usize, count: usize, builtin: Option<usize>, key: MenuKey) -> (usize, MenuAction) {
    let sel = clamped_selection(selection, count);
    match key {
        MenuKey::Back => (selection, MenuAction::BackToMainMenu),
        MenuKey::New => (selection, MenuAction::CreateCollection),
        MenuKey::Import => (selection, MenuAction::ImportCollection),
        _ => if count == 0 {
            (selection, MenuAction::Nothing)
        } else {
            match key {
                MenuKey::Up => (if sel == 0 { (count - 1) as usize } else { (sel - 1) as usize }, MenuAction::Nothing),
                MenuKey::Down => (((sel + 1) % (count as int)) as usize, MenuAction::Nothing),
                MenuKey::Edit => (sel, MenuAction::Edit(sel)),
                MenuKey::Play => (sel, MenuAction::Play(sel)),
                MenuKey::Rename => (sel, if builtin == Some(sel) {
                    MenuAction::RenameRefused
                } else {
                    MenuAction::StartRename(sel)
                }),
                MenuKey::Delete => (sel, if builtin == Some(sel) {
                    MenuAction::DeleteRefused
                } else {
                    MenuAction::StartDelete(sel)
                }),
                _ => (sel, MenuAction::Nothing),
            }
        },
    }
}

/// Handles one key of the collection menu: returns the new selection and
/// what to do.
pub fn collection_menu_step(selection: usize, count: usize, builtin: Option<usize>, key: MenuKey) -> (r: (
    usize,
    MenuAction,
))
    ensures
        r == menu_step(selection, count, builtin, key),
        // with collections listed, the selection stays inside the list
        count > 0 && !(key == MenuKey::Back || key == MenuKey::New || key == MenuKey::Import) ==> r.0 < count,
        // an action on a collection names the selected one, which is never the built-in one for a
        // rename or a delete
        r.1 matches MenuAction::StartRename(i) ==> i == r.0 && i < count && builtin != Some(i),
        r.1 matches MenuAction::StartDelete(i) ==> i == r.0 && i < count && builtin != Some(i),
{
    match key {
        MenuKey::Back => return (selection, MenuAction::BackToMainMenu),
        MenuKey::New => return (selection, MenuAction::CreateCollection),
        MenuKey::Import => return (selection, MenuAction::ImportCollection),
        _ => {},
    }
    if count == 0 {
        return (selection, MenuAction::Nothing);
    }
    let sel = clamp_selection(selection, count);
    let is_builtin = match builtin {
        Some(b) => b == sel,
        None => false,
    };
    match key {
        MenuKey::Up => (if sel == 0 { count - 1 } else { sel - 1 }, MenuAction::Nothing),
        MenuKey::Down => ((sel + 1) % count, MenuAction::Nothing),
        MenuKey::Edit => (sel, MenuAction::Edit(sel)),
        MenuKey::Play => (sel, MenuAction::Play(sel)),
        MenuKey::Rename => (sel, if is_builtin { MenuAction::RenameRefused } else { MenuAction::StartRename(sel) }),
        MenuKey::Delete => (sel, if is_builtin { MenuAction::DeleteRefused } else { MenuAction::StartDelete(sel) }),
        _ => (sel, MenuAction::Nothing),
    }
}

/// In move mode, moves the selected map one step in `direction` within the
/// grid of `columns` and returns the new selection; nothing moves when
/// there is no target.
pub fn move_selected_map<T>(maps: &mut Vec<T>, selected: usize, columns: usize, direction: Direction) -> (r: usize)
    requires
        selected < old(maps)@.len(),
        direction == Direction::Down ==> selected + columns <= usize::MAX,
        direction == Direction::Down && selected + columns >= old(maps)@.len() ==> columns > 0,
    ensures
        match move_target(selected, columns, old(maps)@.len() as usize, direction) {
            Some(t) => r == t && final(maps)@ == old(maps)@.remove(selected as int).insert(
                t as int,
                old(maps)@[selected as int],
            ),
            None => r == selected && final(maps)@ == old(maps)@,
        },
        r < final(maps)@.len(),
        final(maps)@.len() == old(maps)@.len(),
{
    let n = maps.len();
    match map_list_move_target(selected, columns, n, direction) {
        Some(target) => {
            if target != selected {
                crate::editor_session::move_entry(maps, selected, target);
            } else {
                assert(maps@.remove(selected as int).insert(selected as int, maps@[selected as int]) =~= maps@);
            }
            target
        },
        None => selected,
    }
}

// ---------------------------------------------------------------- canvas size input

pub open spec fn is_digit(c: char) -> bool {
    '0' <= c <= '9'
}

/// The number spelled by a run of decimal digits.
pub open spec fn digits_value(s: Seq<char>) -> nat
    decreases s.len(),
{
    if s.len() == 0 {
        0
    } else {
        digits_value(s.drop_last()) * 10 + ((s.last() as u32) - ('0' as u32)) as nat
    }
}

/// What `str::parse::<usize>` gives: an optional `+` and then one or more
/// decimal digits whose value fits in `usize`.
pub open spec fn parse_usize_spec(s: Seq<char>) -> Option<usize> {
    parse_digits_spec(if s.len() > 0 && s[0] == '+' { s.drop_first() } else { s })
}

/// One or more decimal digits whose value fits in `usize`.
pub open spec fn parse_digits_spec(d: Seq<char>) -> Option<usize> {
    if d.len() > 0 && (forall|i: int| 0 <= i < d.len() ==> is_digit(#[trigger] d[i])) && digits_value(d) <= usize::MAX {
        Some(digits_value(d) as usize)
    } else {
        None
    }
}

proof fn lemma_digits_value_grows(s: Seq<char>, c: char)
    requires
        is_digit(c),
    ensures
        digits_value(s.push(c)) >= digits_value(s),
        digits_value(s.push(c)) == digits_value(s) * 10 + ((c as u32) - ('0' as u32)),
{
    assert(s.push(c).drop_last() =~= s);
}

proof fn lemma_digits_value_monotone(s: Seq<char>, k: int)
    requires
        0 <= k <= s.len(),
        forall|i: int| 0 <= i < s.len() ==> is_digit(#[trigger] s[i]),
    ensures
        digits_value(s.take(k)) <= digits_value(s),
    decreases s.len() - k,
{
    if k < s.len() {
        lemma_digits_value_monotone(s, k + 1);
        assert(s.take(k + 1).drop_last() =~= s.take(k));
        assert(s.take(k + 1).last() == s[k]);
    } else {
        assert(s.take(k) =~= s);
    }
}

/// Reads a `usize` the way `str::parse::<usize>` does.
pub fn parse_usize(s: &[char]) -> (r: Option<usize>)
    ensures
        r == parse_usize_spec(s@),
{
    let start: usize = if s.len() > 0 && s[0] == '+' { 1 } else { 0 };
    let ghost d = if s@.len() > 0 && s@[0] == '+' { s@.drop_first() } else { s@ };
    assert(d =~= s@.subrange(start as int, s@.len() as int));
    if start >= s.len() {
        return None;
    }
    let mut value: usize = 0;
    let mut i = start;
    while i < s.len()
        invariant
            start <= i <= s@.len(),
            d == s@.subrange(start as int, s@.len() as int),
            d == (if s@.len() > 0 && s@[0] == '+' { s@.drop_first() } else { s@ }),
            start < s@.len(),
            forall|j: int| start <= j < i ==> is_digit(#[trigger] s@[j]),
            value == digits_value(d.take(i - start)),
        decreases s@.len() - i,
    {
        let c = s[i];
        assert(d[i - start] == c);
        if !('0' <= c && c <= '9') {
            assert(!is_digit(d[i - start]));
            return None;
        }
        let digit = (c as u32 - '0' as u32) as usize;
        assert(d.take(i + 1 - start) =~= d.take(i - start).push(c));
        proof {
            lemma_digits_value_grows(d.take(i - start), c);
        }
        if value > (usize::MAX - digit) / 10 {
            proof {
                assert forall|j: int| 0 <= j < i + 1 - start implies is_digit(#[trigger] d.take(i + 1 - start)[j]) by {
                    assert(d.take(i + 1 - start)[j] == s@[j + start]);
                }
                assert(digits_value(d.take(i + 1 - start)) > usize::MAX) by (nonlinear_arith)
                    requires
                        value > (usize::MAX - digit) / 10,
                        digits_value(d.take(i + 1 - start)) == value * 10 + digit,
                        digit <= 9;
                if forall|j: int| 0 <= j < d.len() ==> is_digit(#[trigger] d[j]) {
                    lemma_digits_value_monotone(d, i + 1 - start);
                }
            }
            return None;
        }
        value = value * 10 + digit;
        i += 1;
    }
    assert(d.take(i - start) =~= d);
    Some(value)
}

/// Where `c` first occurs in `s`, if it does.
pub open spec fn first_index_of(s: Seq<char>, c: char, i: int) -> bool {
    0 <= i < s.len() && s[i] == c && forall|j: int| 0 <= j < i ==> #[trigger] s[j] != c
}

/// The two sides of the first `x` in `s`, or failing that of the first `X`.
pub open spec fn split_size(s: Seq<char>) -> Option<(Seq<char>, Seq<char>)> {
    if exists|i: int| first_index_of(s, 'x', i) {
        let i = choose|i: int| first_index_of(s, 'x', i);
        Some((s.take(i), s.skip(i + 1)))
    } else if exists|i: int| first_index_of(s, 'X', i) {
        let i = choose|i: int| first_index_of(s, 'X', i);
        Some((s.take(i), s.skip(i + 1)))
    } else {
        None
    }
}

/// A canvas size typed as `WIDTHxHEIGHT`, both positive.
pub open spec fn canvas_size_spec(input: Seq<char>) -> Option<(usize, usize)> {
    match split_size(trim(input)) {
        None => None,
        Some((w, h)) => match (parse_usize_spec(trim(w)), parse_usize_spec(trim(h))) {
            (Some(a), Some(b)) => if a == 0 || b == 0 { None } else { Some((a, b)) },
            _ => None,
        },
    }
}

proof fn lemma_first_index_unique(s: Seq<char>, c: char, i: int)
    requires
        first_index_of(s, c, i),
    ensures
        (choose|j: int| first_index_of(s, c, j)) == i,
{
    let j = choose|j: int| first_index_of(s, c, j);
    if j < i {
        assert(s[j] != c);
    } else if i < j {
        assert(s[i] != c);
    }
}

fn find_char(s: &[char], c: char) -> (r: Option<usize>)
    ensures
        match r {
            Some(i) => first_index_of(s@, c, i as int),
            None => !exists|i: int| first_index_of(s@, c, i),
        },
{
    let mut i: usize = 0;
    while i < s.len()
        invariant
            i <= s@.len(),
            forall|j: int| 0 <= j < i ==> #[trigger] s@[j] != c,
        decreases s@.len() - i,
    {
        if s[i] == c {
            return Some(i);
        }
        i += 1;
    }
    None
}

/// Reads a canvas size typed as `WIDTHxHEIGHT`; both numbers must be
/// positive.
pub fn parse_canvas_size_input(input: &str) -> (r: Option<(usize, usize)>)
    ensures
        r == canvas_size_spec(input@),
{
    let cs = chars_of(input);
    let t = trim_chars(cs.as_slice());
    let mut at: usize = 0;
    let fx = find_char(t.as_slice(), 'x');
    if let Some(i) = fx {
        proof {
            lemma_first_index_unique(t@, 'x', i as int);
        }
        at = i;
    } else {
        let fu = find_char(t.as_slice(), 'X');
        if let Some(i) = fu {
            proof {
                lemma_first_index_unique(t@, 'X', i as int);
            }
            assert(first_index_of(t@, 'X', i as int));
            assert(!exists|j: int| first_index_of(t@, 'x', j));
            at = i;
        } else {
            return None;
        }
    }
    assert(at < t@.len());
    assert(split_size(trim(input@)) == Some((t@.take(at as int), t@.skip(at + 1))));
    let w = copy_range(t.as_slice(), 0, at);
    let tl = t.len();
    let h = copy_range(t.as_slice(), at + 1, tl);
    assert(w@ =~= t@.take(at as int));
    assert(h@ =~= t@.skip(at + 1));
    let wt = trim_chars(w.as_slice());
    let ht = trim_chars(h.as_slice());
    let width = match parse_usize(wt.as_slice()) {
        Some(v) => v,
        None => return None,
    };
    let height = match parse_usize(ht.as_slice()) {
        Some(v) => v,
        None => return None,
    };
    if width == 0 || height == 0 {
        return None;
    }
    Some((width, height))
}

// ---------------------------------------------------------------- names and labels

/// The first `max_chars` characters of `input`.
pub fn truncate_chars(input: &str, max_chars: usize) -> (r: String)
    ensures
        r@ == if input@.len() <= max_chars { input@ } else { input@.take(max_chars as int) },
{
    let cs = chars_of(input);
    let n = if cs.len() < max_chars { cs.len() } else { max_chars };
    let v = copy_range(cs.as_slice(), 0, n);
    assert(input@.len() <= max_chars ==> v@ =~= input@);
    string_from_chars(v.as_slice())
}

/// `c`, or `_` where a file name cannot hold it.
pub open spec fn file_safe_char(c: char, also_control: bool) -> char {
    if is_invalid_filename(c) || (also_control && is_control(c)) { '_' } else { c }
}

pub open spec fn file_safe(s: Seq<char>, also_control: bool) -> Seq<char> {
    s.map_values(|c: char| file_safe_char(c, also_control))
}

fn make_file_safe(s: &[char], also_control: bool) -> (r: Vec<char>)
    ensures
        r@ == file_safe(s@, also_control),
{
    let mut r: Vec<char> = Vec::new();
    let mut i: usize = 0;
    while i < s.len()
        invariant
            i <= s@.len(),
            r@ == file_safe(s@.take(i as int), also_control),
        decreases s@.len() - i,
    {
        let c = s[i];
        let bad = is_invalid_filename_char(c) || (also_control && is_control_char(c));
        r.push(if bad { '_' } else { c });
        assert(file_safe(s@.take(i + 1), also_control) =~= file_safe(s@.take(i as int), also_control).push(file_safe_char(c, also_control)));
        i += 1;
    }
    assert(s@.take(s@.len() as int) =~= s@);
    r
}

/// The name offered when a collection is exported: the file's own name when
/// it has one, else the collection name made safe for a file name (or
/// `collection`), cut to the longest collection name, with `.txt`.
pub open spec fn export_file_name(file_name: Option<Seq<char>>, collection_name: Seq<char>) -> Seq<char> {
    match file_name {
        Some(n) if trim(n).len() > 0 => n,
        _ => {
            let base = trim(file_safe(collection_name, true));
            let base = if base.len() == 0 { "collection"@ } else { base };
            let cut = if base.len() <= COLLECTION_NAME_MAX_CHARS { base } else { base.take(COLLECTION_NAME_MAX_CHARS as int) };
            cut + ".txt"@
        },
    }
}

pub fn suggested_export_file_name(file_name: Option<&str>, collection_name: &str) -> (r: String)
    ensures
        r@ == export_file_name(match file_name {
            Some(n) => Some(n@),
            None => None,
        }, collection_name@),
{
    match file_name {
        Some(n) => {
            let t = trim_chars(chars_of(n).as_slice());
            if t.len() > 0 {
                return string_from_chars(chars_of(n).as_slice());
            }
        },
        None => {},
    }
    let safe = make_file_safe(chars_of(collection_name).as_slice(), true);
    let mut base = trim_chars(safe.as_slice());
    if base.len() == 0 {
        base = chars_of("collection");
    }
    let n = if base.len() < COLLECTION_NAME_MAX_CHARS { base.len() } else { COLLECTION_NAME_MAX_CHARS };
    let mut out = copy_range(base.as_slice(), 0, n);
    assert(base@.len() <= COLLECTION_NAME_MAX_CHARS ==> out@ =~= base@);
    push_str_chars(&mut out, ".txt");
    string_from_chars(out.as_slice())
}

/// The stem an imported collection is stored under: the source file's
/// stem made safe for a file name (or `collection`), cut to the longest
/// collection name.
pub open spec fn import_stem_spec(file_stem: Option<Seq<char>>) -> Seq<char> {
    let stem = match file_stem {
        Some(s) if trim(s).len() > 0 => trim(s),
        _ => "collection"@,
    };
    let safe = trim(file_safe(stem, false));
    let base = if safe.len() == 0 { "collection"@ } else { safe };
    if base.len() <= COLLECTION_NAME_MAX_CHARS { base } else { base.take(COLLECTION_NAME_MAX_CHARS as int) }
}

pub fn import_stem(file_stem: Option<&str>) -> (r: String)
    ensures
        r@ == import_stem_spec(match file_stem {
            Some(s) => Some(s@),
            None => None,
        }),
{
    let mut stem = chars_of("collection");
    match file_stem {
        Some(s) => {
            let t = trim_chars(chars_of(s).as_slice());
            if t.len() > 0 {
                stem = t;
            }
        },
        None => {},
    }
    let safe = make_file_safe(stem.as_slice(), false);
    let mut base = trim_chars(safe.as_slice());
    if base.len() == 0 {
        base = chars_of("collection");
    }
    let n = if base.len() < COLLECTION_NAME_MAX_CHARS { base.len() } else { COLLECTION_NAME_MAX_CHARS };
    let out = copy_range(base.as_slice(), 0, n);
    assert(base@.len() <= COLLECTION_NAME_MAX_CHARS ==> out@ =~= base@);
    string_from_chars(out.as_slice())
}

/// The suffix ` (n)` that tells apart the `n`-th alternative name.
pub open spec fn copy_suffix(n: nat) -> Seq<char> {
    " ("@ + decimal(n) + ")"@
}

/// The file name tried for attempt `n` of an import: the stem itself first,
/// then the stem, cut so that the name stays within the longest collection
/// name, with ` (n)` after it.
pub open spec fn import_candidate_spec(stem: Seq<char>, n: nat) -> Seq<char> {
    if n == 0 {
        stem + ".txt"@
    } else {
        let suffix = copy_suffix(n);
        let room: nat = if suffix.len() <= COLLECTION_NAME_MAX_CHARS { (COLLECTION_NAME_MAX_CHARS - suffix.len()) as nat } else { 0 };
        let base = if stem.len() <= room { stem } else { stem.take(room as int) };
        base + suffix + ".txt"@
    }
}

pub fn import_candidate_name(stem: &str, n: usize) -> (r: String)
    ensures
        r@ == import_candidate_spec(stem@, n as nat),
{
    let mut out = chars_of(stem);
    if n == 0 {
        push_str_chars(&mut out, ".txt");
        return string_from_chars(out.as_slice());
    }
    let mut suffix: Vec<char> = Vec::new();
    push_str_chars(&mut suffix, " (");
    push_decimal(&mut suffix, n as u64);
    push_str_chars(&mut suffix, ")");
    assert(suffix@ =~= copy_suffix(n as nat));
    let room = if suffix.len() <= COLLECTION_NAME_MAX_CHARS { COLLECTION_NAME_MAX_CHARS - suffix.len() } else { 0 };
    let keep = if out.len() < room { out.len() } else { room };
    let mut name = copy_range(out.as_slice(), 0, keep);
    assert(out@.len() <= room ==> name@ =~= out@);
    let mut i: usize = 0;
    let ghost base = name@;
    while i < suffix.len()
        invariant
            i <= suffix@.len(),
            name@ == base + suffix@.take(i as int),
        decreases suffix@.len() - i,
    {
        name.push(suffix[i]);
        assert(suffix@.take(i + 1) =~= suffix@.take(i as int).push(suffix@[i as int]));
        i += 1;
    }
    assert(suffix@.take(suffix@.len() as int) =~= suffix@);
    push_str_chars(&mut name, ".txt");
    string_from_chars(name.as_slice())
}

/// The name shown for a collection file: its file name without a trailing
/// `.txt` or `.TXT`, cut to the longest collection name.
pub open spec fn display_name_spec(file_name: Seq<char>) -> Seq<char> {
    let base = crate::editor_model::strip_txt(file_name);
    if base.len() <= COLLECTION_NAME_MAX_CHARS { base } else { base.take(COLLECTION_NAME_MAX_CHARS as int) }
}

pub fn capped_collection_display_name(file_name: &str) -> (r: String)
    ensures
        r@ == display_name_spec(file_name@),
{
    let cs = chars_of(file_name);
    let n = cs.len();
    let lower = n >= 4 && cs[n - 4] == '.' && cs[n - 3] == 't' && cs[n - 2] == 'x' && cs[n - 1] == 't';
    let upper = n >= 4 && cs[n - 4] == '.' && cs[n - 3] == 'T' && cs[n - 2] == 'X' && cs[n - 1] == 'T';
    proof {
        if n >= 4 {
            let tail = cs@.subrange(n - 4, n as int);
            if lower {
                assert(tail =~= seq!['.', 't', 'x', 't']);
            }
            if upper {
                assert(tail =~= seq!['.', 'T', 'X', 'T']);
            }
            if tail == seq!['.', 't', 'x', 't'] {
                assert(tail[0] == cs@[n - 4] && tail[1] == cs@[n - 3] && tail[2] == cs@[n - 2] && tail[3] == cs@[n - 1]);
            }
            if tail == seq!['.', 'T', 'X', 'T'] {
                assert(tail[0] == cs@[n - 4] && tail[1] == cs@[n - 3] && tail[2] == cs@[n - 2] && tail[3] == cs@[n - 1]);
            }
        }
    }
    let end = if lower || upper { n - 4 } else { n };
    let keep = if end < COLLECTION_NAME_MAX_CHARS { end } else { COLLECTION_NAME_MAX_CHARS };
    let v = copy_range(cs.as_slice(), 0, keep);
    assert(v@ =~= display_name_spec(file_name@));
    string_from_chars(v.as_slice())
}

/// The warning line the map editor shows.
pub open spec fn warning_text(w: Option<SimpleWarning>) -> Seq<char> {
    match w {
        Some(SimpleWarning::MissingBoxes) => "Warning: map has no boxes"@,
        Some(SimpleWarning::BoxesMoreThanGoals { boxes, goals }) => "Warning: boxes ("@ + decimal(boxes as nat)
            + ") exceed goals ("@ + decimal(goals as nat) + ")"@,
        Some(SimpleWarning::AlreadySolved) => "Warning: map is already solved (all boxes are on goals)"@,
        Some(SimpleWarning::MissingPlayer) => "Warning: map has no player"@,
        None => Seq::empty(),
    }
}

pub fn map_editor_warning_message(warning: Option<SimpleWarning>) -> (m: String)
    ensures
        m@ == warning_text(warning),
{
    let mut out: Vec<char> = Vec::new();
    match warning {
        Some(SimpleWarning::MissingBoxes) => push_str_chars(&mut out, "Warning: map has no boxes"),
        Some(SimpleWarning::BoxesMoreThanGoals { boxes, goals }) => {
            push_str_chars(&mut out, "Warning: boxes (");
            push_decimal(&mut out, boxes as u64);
            push_str_chars(&mut out, ") exceed goals (");
            push_decimal(&mut out, goals as u64);
            push_str_chars(&mut out, ")");
        },
        Some(SimpleWarning::AlreadySolved) => push_str_chars(&mut out, "Warning: map is already solved (all boxes are on goals)"),
        Some(SimpleWarning::MissingPlayer) => push_str_chars(&mut out, "Warning: map has no player"),
        None => {},
    }
    assert(out@ =~= warning_text(warning));
    string_from_chars(out.as_slice())
}

/// The title line of the map editor: the map name, its size, and `*` when
/// there are unsaved changes.
pub open spec fn subtitle_text(name: Seq<char>, width: usize, height: usize, dirty: bool) -> Seq<char> {
    name + " ("@ + decimal(width as nat) + "x"@ + decimal(height as nat) + ")"@ + if dirty { "*"@ } else { Seq::empty() }
}

pub fn map_editor_subtitle(name: &str, width: usize, height: usize, dirty: bool) -> (m: String)
    ensures
        m@ == subtitle_text(name@, width, height, dirty),
{
    let mut out: Vec<char> = Vec::new();
    push_str_chars(&mut out, name);
    push_str_chars(&mut out, " (");
    push_decimal(&mut out, width as u64);
    push_str_chars(&mut out, "x");
    push_decimal(&mut out, height as u64);
    push_str_chars(&mut out, ")");
    if dirty {
        push_str_chars(&mut out, "*");
    }
    assert(out@ =~= subtitle_text(name@, width, height, dirty));
    string_from_chars(out.as_slice())
}

/// The rows of a new map: a player, a box and a goal inside walls.
pub fn default_new_map_lines() -> (lines: Vec<String>)
    ensures
        lines@.len() == 3,
        lines@[0]@ == "#####"@,
        lines@[1]@ == "#@$.#"@,
        lines@[2]@ == "#####"@,
{
    let mut lines: Vec<String> = Vec::new();
    lines.push(string_from_chars(chars_of("#####").as_slice()));
    lines.push(string_from_chars(chars_of("#@$.#").as_slice()));
    lines.push(string_from_chars(chars_of("#####").as_slice()));
    lines
}

} // verus!
