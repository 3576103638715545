use vstd::prelude::*;

use crate::editor::rows_of;
use crate::level::{
    has_prefix, opt_string_view, pack_levels, raw_level_view, split_lines, text_lines, LevelPack,
    RawLevel, RawLevelModel,
};
use crate::text::{
    chars_eq_ignore_ascii_case, chars_of, copy_range, decimal, eq_ignore_ascii_case, push_decimal,
    push_str_chars, string_from_chars, trim, trim_chars,
};

verus! {

/// The longest collection name, in characters.
pub const COLLECTION_NAME_MAX_CHARS: usize = 64;

/// The longest map name, in characters.
pub const MAP_NAME_MAX_CHARS: usize = 64;

/// Why a name was refused.
#[derive(Clone, Copy, Debug, PartialEq, Eq, Structural)]
pub enum NameError {
    /// Nothing but white space was given.
    Empty,
    /// The name has more characters than `max`.
    TooLong { max: usize },
    /// The name holds a control character.
    ControlChars,
    /// The name holds a character that file names cannot hold.
    InvalidFileNameChars,
    /// The name is taken by the built-in collection.
    Reserved,
    /// Another map already has this name.
    AlreadyExists,
}

/// A Unicode control character (general category Cc), as `char::is_control`
/// decides.
pub open spec fn is_control(c: char) -> bool {
    c <= '\u{1f}' || ('\u{7f}' <= c <= '\u{9f}')
}

pub fn is_control_char(c: char) -> (b: bool)
    ensures
        b == is_control(c),
{
    c <= '\u{1f}' || ('\u{7f}' <= c && c <= '\u{9f}')
}

/// A character that cannot stand in a file name.
pub open spec fn is_invalid_filename(c: char) -> bool {
    c == '/' || c == '\\' || c == ':' || c == '*' || c == '?' || c == '"' || c == '<' || c == '>'
        || c == '|'
}

pub fn is_invalid_filename_char(ch: char) -> (b: bool)
    ensures
        b == is_invalid_filename(ch),
{
    ch == '/' || ch == '\\' || ch == ':' || ch == '*' || ch == '?' || ch == '"' || ch == '<' || ch
        == '>' || ch == '|'
}

/// Some character of `s` satisfies `p`.
pub open spec fn any_char(s: Seq<char>, p: spec_fn(char) -> bool) -> bool {
    exists|i: int| 0 <= i < s.len() && p(#[trigger] s[i])
}

fn any_control(s: &[char]) -> (b: bool)
    ensures
        b == any_char(s@, |c: char| is_control(c)),
{
    let mut i: usize = 0;
    while i < s.len()
        invariant
            i <= s@.len(),
            forall|j: int| 0 <= j < i ==> !is_control(#[trigger] s@[j]),
        decreases s@.len() - i,
    {
        if is_control_char(s[i]) {
            assert((|c: char| is_control(c))(s@[i as int]));
            return true;
        }
        i += 1;
    }
    assert forall|j: int| 0 <= j < s@.len() implies !(|c: char| is_control(c))(#[trigger] s@[j]) by {
        assert(!is_control(s@[j]));
    }
    false
}

fn any_invalid_filename(s: &[char]) -> (b: bool)
    ensures
        b == any_char(s@, |c: char| is_invalid_filename(c)),
{
    let mut i: usize = 0;
    while i < s.len()
        invariant
            i <= s@.len(),
            forall|j: int| 0 <= j < i ==> !is_invalid_filename(#[trigger] s@[j]),
        decreases s@.len() - i,
    {
        if is_invalid_filename_char(s[i]) {
            assert((|c: char| is_invalid_filename(c))(s@[i as int]));
            return true;
        }
        i += 1;
    }
    assert forall|j: int| 0 <= j < s@.len() implies !(|c: char| is_invalid_filename(c))(#[trigger] s@[j]) by {
        assert(!is_invalid_filename(s@[j]));
    }
    false
}

/// What a map name becomes once checked: trimmed of white space, and
/// refused when empty, longer than the limit or holding control characters.
pub open spec fn map_name_result(raw: Seq<char>) -> Result<Seq<char>, NameError> {
    let t = trim(raw);
    if t.len() == 0 {
        Err(NameError::Empty)
    } else if t.len() > MAP_NAME_MAX_CHARS {
        Err(NameError::TooLong { max: MAP_NAME_MAX_CHARS })
    } else if any_char(t, |c: char| is_control(c)) {
        Err(NameError::ControlChars)
    } else {
        Ok(t)
    }
}

/// The spec of a `Result<String, NameError>` as characters.
pub open spec fn name_view(r: Result<String, NameError>) -> Result<Seq<char>, NameError> {
    match r {
        Ok(s) => Ok(s@),
        Err(e) => Err(e),
    }
}

pub fn normalize_map_name(raw_name: &str) -> (r: Result<String, NameError>)
    ensures
        name_view(r) == map_name_result(raw_name@),
{
    let raw = chars_of(raw_name);
    let trimmed = trim_chars(raw.as_slice());
    if trimmed.len() == 0 {
        return Err(NameError::Empty);
    }
    if trimmed.len() > MAP_NAME_MAX_CHARS {
        return Err(NameError::TooLong { max: MAP_NAME_MAX_CHARS });
    }
    if any_control(trimmed.as_slice()) {
        return Err(NameError::ControlChars);
    }
    Ok(string_from_chars(trimmed.as_slice()))
}

/// `s` ends with `suffix`.
pub open spec fn has_suffix(s: Seq<char>, suffix: Seq<char>) -> bool {
    s.len() >= suffix.len() && s.subrange(s.len() - suffix.len(), s.len() as int) == suffix
}

/// `s` with a trailing `.txt` or, failing that, `.TXT` removed.
pub open spec fn strip_txt(s: Seq<char>) -> Seq<char> {
    if has_suffix(s, seq!['.', 't', 'x', 't']) || has_suffix(s, seq!['.', 'T', 'X', 'T']) {
        s.subrange(0, s.len() - 4)
    } else {
        s
    }
}

fn strip_txt_chars(s: &[char]) -> (r: Vec<char>)
    ensures
        r@ == strip_txt(s@),
{
    let n = s.len();
    if n >= 4 {
        let lower = s[n - 4] == '.' && s[n - 3] == 't' && s[n - 2] == 'x' && s[n - 1] == 't';
        let upper = s[n - 4] == '.' && s[n - 3] == 'T' && s[n - 2] == 'X' && s[n - 1] == 'T';
        let ghost tail = s@.subrange(n - 4, n as int);
        assert(lower == (tail == seq!['.', 't', 'x', 't'])) by {
            if tail == seq!['.', 't', 'x', 't'] {
                assert(tail[0] == s@[n - 4] && tail[1] == s@[n - 3] && tail[2] == s@[n - 2] && tail[3] == s@[n - 1]);
            }
            if lower {
                assert(tail =~= seq!['.', 't', 'x', 't']);
            }
        }
        assert(upper == (tail == seq!['.', 'T', 'X', 'T'])) by {
            if tail == seq!['.', 'T', 'X', 'T'] {
                assert(tail[0] == s@[n - 4] && tail[1] == s@[n - 3] && tail[2] == s@[n - 2] && tail[3] == s@[n - 1]);
            }
            if upper {
                assert(tail =~= seq!['.', 'T', 'X', 'T']);
            }
        }
        if lower || upper {
            return copy_range(s, 0, n - 4);
        }
    }
    copy_range(s, 0, n)
}

/// What a display name (of a collection) becomes once checked.
pub open spec fn display_name_result(raw: Seq<char>, max_chars: usize) -> Result<Seq<char>, NameError> {
    let t = trim(strip_txt(trim(raw)));
    if t.len() == 0 {
        Err(NameError::Empty)
    } else if t.len() > max_chars {
        Err(NameError::TooLong { max: max_chars })
    } else if any_char(t, |c: char| is_control(c)) {
        Err(NameError::ControlChars)
    } else {
        Ok(t)
    }
}

fn normalize_display_name(raw_name: &str, max_chars: usize) -> (r: Result<String, NameError>)
    ensures
        name_view(r) == display_name_result(raw_name@, max_chars),
{
    let raw = chars_of(raw_name);
    let t0 = trim_chars(raw.as_slice());
    let t1 = strip_txt_chars(t0.as_slice());
    let trimmed = trim_chars(t1.as_slice());
    if trimmed.len() == 0 {
        return Err(NameError::Empty);
    }
    if trimmed.len() > max_chars {
        return Err(NameError::TooLong { max: max_chars });
    }
    if any_control(trimmed.as_slice()) {
        return Err(NameError::ControlChars);
    }
    Ok(string_from_chars(trimmed.as_slice()))
}

/// What a requested collection name becomes as a file name.
pub open spec fn collection_file_name_result(raw: Seq<char>) -> Result<Seq<char>, NameError> {
    let t = trim(raw);
    let base = strip_txt(t);
    let file_name = base + seq!['.', 't', 'x', 't'];
    if t.len() == 0 {
        Err(NameError::Empty)
    } else if any_char(t, |c: char| is_invalid_filename(c)) {
        Err(NameError::InvalidFileNameChars)
    } else if trim(base).len() == 0 {
        Err(NameError::Empty)
    } else if base.len() > COLLECTION_NAME_MAX_CHARS {
        Err(NameError::TooLong { max: COLLECTION_NAME_MAX_CHARS })
    } else if eq_ignore_ascii_case(file_name, seq!['d', 'e', 'f', 'a', 'u', 'l', 't', '.', 't', 'x', 't']) {
        Err(NameError::Reserved)
    } else {
        Ok(file_name)
    }
}

/// Turns a requested collection name into the name of its file: trimmed,
/// with `.txt` appended once, and refused when empty, too long, holding
/// characters that file names cannot hold, or naming the built-in collection.
pub fn normalize_collection_file_name(raw_name: &str) -> (r: Result<String, NameError>)
    ensures
        name_view(r) == collection_file_name_result(raw_name@),
{
    let raw = chars_of(raw_name);
    let trimmed = trim_chars(raw.as_slice());
    if trimmed.len() == 0 {
        return Err(NameError::Empty);
    }
    if any_invalid_filename(trimmed.as_slice()) {
        return Err(NameError::InvalidFileNameChars);
    }
    let base = strip_txt_chars(trimmed.as_slice());
    let base_trimmed = trim_chars(base.as_slice());
    if base_trimmed.len() == 0 {
        return Err(NameError::Empty);
    }
    if base.len() > COLLECTION_NAME_MAX_CHARS {
        return Err(NameError::TooLong { max: COLLECTION_NAME_MAX_CHARS });
    }
    let mut file_name = base;
    push_str_chars(&mut file_name, ".txt");
    let reserved = chars_of("default.txt");
    proof {
        reveal_strlit(".txt");
        reveal_strlit("default.txt");
    }
    assert(reserved@ =~= seq!['d', 'e', 'f', 'a', 'u', 'l', 't', '.', 't', 'x', 't']);
    assert(".txt"@ =~= seq!['.', 't', 'x', 't']);
    assert(file_name@ =~= strip_txt(trim(raw_name@)) + seq!['.', 't', 'x', 't']);
    if chars_eq_ignore_ascii_case(file_name.as_slice(), reserved.as_slice()) {
        return Err(NameError::Reserved);
    }
    Ok(string_from_chars(file_name.as_slice()))
}


// ---------------------------------------------------------------- collections

/// A map of a collection: its name and its rows of characters.
#[derive(Clone, Debug, PartialEq, Eq)]
pub struct EditableMap {
    pub name: String,
    pub raw_lines: Vec<String>,
}

/// A collection of maps as edited: the file it lives in, its name and its
/// maps in order.
#[derive(Clone, Debug, PartialEq, Eq)]
pub struct EditableCollection {
    pub source: String,
    pub collection_name: String,
    pub maps: Vec<EditableMap>,
}

/// Why a change to a collection was refused.
#[derive(Clone, Debug)]
pub enum CollectionError {
    Name(NameError),
    IndexOutOfBounds,
    DuplicateMapName { name: String },
}

/// The content of a map: its name and its rows.
pub open spec fn map_view(m: EditableMap) -> (Seq<char>, Seq<Seq<char>>) {
    (m.name@, rows_of(m.raw_lines@))
}

pub open spec fn maps_view(maps: Seq<EditableMap>) -> Seq<(Seq<char>, Seq<Seq<char>>)> {
    maps.map_values(|m: EditableMap| map_view(m))
}

/// Some map other than the one at `skip` already has `candidate` as its
/// name, ignoring ASCII case.
pub open spec fn name_taken(maps: Seq<EditableMap>, candidate: Seq<char>, skip: Option<usize>) -> bool {
    exists|i: int| 0 <= i < maps.len() && skip != Some(i as usize) && eq_ignore_ascii_case(#[trigger] maps[i].name@, candidate)
}

fn ensure_map_name_is_unique(maps: &[EditableMap], candidate: &[char], skip_index: Option<usize>) -> (r: Result<(), NameError>)
    ensures
        r is Ok <==> !name_taken(maps@, candidate@, skip_index),
        r is Err ==> r == Err::<(), NameError>(NameError::AlreadyExists),
{
    let mut i: usize = 0;
    while i < maps.len()
        invariant
            i <= maps@.len(),
            forall|j: int| 0 <= j < i ==> !(skip_index != Some(j as usize) && eq_ignore_ascii_case(#[trigger] maps@[j].name@, candidate@)),
        decreases maps@.len() - i,
    {
        let skipped = match skip_index {
            Some(s) => s == i,
            None => false,
        };
        if !skipped {
            let name = chars_of(maps[i].name.as_str());
            if chars_eq_ignore_ascii_case(name.as_slice(), candidate) {
                return Err(NameError::AlreadyExists);
            }
        }
        i += 1;
    }
    Ok(())
}

/// The first map whose name cannot be saved: one that is not a valid map
/// name, or whose checked name repeats an earlier one ignoring ASCII case.
pub open spec fn save_problem_at(names: Seq<Seq<char>>, k: int) -> bool {
    map_name_result(names[k]) is Err || exists|j: int| 0 <= j < k && eq_ignore_ascii_case(
        #[trigger] map_name_result(names[j])->Ok_0,
        map_name_result(names[k])->Ok_0,
    )
}

pub open spec fn first_save_problem(names: Seq<Seq<char>>, k: int) -> bool {
    0 <= k < names.len() && save_problem_at(names, k) && forall|j: int| 0 <= j < k ==> !#[trigger] save_problem_at(names, j)
}

pub open spec fn map_names(maps: Seq<EditableMap>) -> Seq<Seq<char>> {
    maps.map_values(|m: EditableMap| m.name@)
}

/// The text of rows, one line each.
pub open spec fn lines_text(lines: Seq<Seq<char>>) -> Seq<char>
    decreases lines.len(),
{
    if lines.len() == 0 {
        Seq::empty()
    } else {
        lines_text(lines.drop_last()) + lines.last().push('\n')
    }
}

/// The saved text of one map: its rows, then its title and a blank line.
pub open spec fn map_text(m: (Seq<char>, Seq<Seq<char>>)) -> Seq<char> {
    lines_text(m.1) + "Title: "@ + m.0 + seq!['\n', '\n']
}

pub open spec fn maps_text(maps: Seq<(Seq<char>, Seq<Seq<char>>)>) -> Seq<char>
    decreases maps.len(),
{
    if maps.len() == 0 {
        Seq::empty()
    } else {
        maps_text(maps.drop_last()) + map_text(maps.last())
    }
}

/// The saved text of a collection.
pub open spec fn collection_text(name: Seq<char>, maps: Seq<(Seq<char>, Seq<Seq<char>>)>) -> Seq<char> {
    "Collection: "@ + name + seq!['\n', '\n'] + maps_text(maps)
}

/// The name of the collection a text gives on its first `Collection:` line
/// with a non-blank name.
pub open spec fn collection_name_in(lines: Seq<Seq<char>>) -> Option<Seq<char>>
    decreases lines.len(),
{
    if lines.len() == 0 {
        None
    } else {
        let t = trim(lines[0]);
        if has_prefix(t, collection_prefix()) && trim(t.skip(11)).len() > 0 {
            Some(trim(t.skip(11)))
        } else {
            collection_name_in(lines.drop_first())
        }
    }
}

pub open spec fn collection_prefix() -> Seq<char> {
    seq!['C', 'o', 'l', 'l', 'e', 'c', 't', 'i', 'o', 'n', ':']
}

/// `Map` followed by the number `index + 1`.
pub open spec fn numbered_map_name(index: nat) -> Seq<char> {
    seq!['M', 'a', 'p', ' '] + decimal(index + 1)
}

/// The name a loaded map gets: its own when valid, else a numbered one.
pub open spec fn existing_map_name(raw: Option<Seq<char>>, index: nat) -> Seq<char> {
    match raw {
        Some(n) => match map_name_result(n) {
            Ok(v) => v,
            Err(_) => numbered_map_name(index),
        },
        None => numbered_map_name(index),
    }
}

/// The collection name taken from the file name when the text gives none.
pub open spec fn default_name_spec(file_stem: Option<Seq<char>>) -> Seq<char> {
    let stem = match file_stem {
        Some(s) => s,
        None => "Collection"@,
    };
    if trim(stem).len() == 0 { "Collection"@ } else { trim(stem) }
}

fn lines_collection_name(lines: &Vec<Vec<char>>) -> (r: Option<Vec<char>>)
    ensures
        match r {
            Some(v) => collection_name_in(lines@.map_values(|l: Vec<char>| l@)) == Some(v@),
            None => collection_name_in(lines@.map_values(|l: Vec<char>| l@)) is None,
        },
{
    let ghost all = lines@.map_values(|l: Vec<char>| l@);
    let key = chars_of("Collection:");
    proof {
        reveal_strlit("Collection:");
    }
    assert(key@ =~= collection_prefix());
    let mut i: usize = 0;
    assert(all.skip(0) =~= all);
    while i < lines.len()
        invariant
            i <= lines@.len(),
            all == lines@.map_values(|l: Vec<char>| l@),
            key@ == collection_prefix(),
            collection_name_in(all) == collection_name_in(all.skip(i as int)),
        decreases lines@.len() - i,
    {
        let t = trim_chars(lines[i].as_slice());
        assert(all.skip(i as int)[0] == lines@[i as int]@);
        assert(all.skip(i as int).drop_first() =~= all.skip(i + 1));
        if starts_with_key(t.as_slice(), key.as_slice()) {
            let rest = copy_range(t.as_slice(), 11, t.len());
            assert(rest@ =~= t@.skip(11));
            let name = trim_chars(rest.as_slice());
            if name.len() > 0 {
                return Some(name);
            }
        }
        i += 1;
    }
    None
}

fn starts_with_key(s: &[char], prefix: &[char]) -> (b: bool)
    ensures
        b == has_prefix(s@, prefix@),
{
    if s.len() < prefix.len() {
        return false;
    }
    let mut i: usize = 0;
    while i < prefix.len()
        invariant
            i <= prefix@.len() <= s@.len(),
            forall|j: int| 0 <= j < i ==> s@[j] == prefix@[j],
        decreases prefix@.len() - i,
    {
        if s[i] != prefix[i] {
            assert(s@.take(prefix@.len() as int)[i as int] != prefix@[i as int]);
            return false;
        }
        i += 1;
    }
    assert(s@.take(prefix@.len() as int) =~= prefix@);
    true
}

/// The collection name given by the text's first `Collection:` line with a
/// non-blank name.
pub fn parse_collection_name(text: &str) -> (r: Option<String>)
    ensures
        opt_string_view(r) == collection_name_in(text_lines(text@)),
{
    let chars = chars_of(text);
    let lines = split_lines(chars.as_slice());
    match lines_collection_name(&lines) {
        Some(v) => Some(string_from_chars(v.as_slice())),
        None => None,
    }
}

/// The name a loaded map gets: its own when it is a valid map name, else
/// `Map` and its number counted from one.
pub fn normalized_existing_map_name(raw_name: Option<String>, index: usize) -> (name: String)
    requires
        index < usize::MAX,
    ensures
        name@ == existing_map_name(opt_string_view(raw_name), index as nat),
{
    match raw_name {
        Some(n) => match normalize_map_name(n.as_str()) {
            Ok(v) => return v,
            Err(_) => {},
        },
        None => {},
    }
    let mut out: Vec<char> = Vec::new();
    push_str_chars(&mut out, "Map ");
    proof {
        reveal_strlit("Map ");
    }
    push_decimal(&mut out, (index + 1) as u64);
    assert(out@ =~= numbered_map_name(index as nat));
    string_from_chars(out.as_slice())
}

/// The collection name taken from a file's stem: the trimmed stem, or
/// `Collection` when there is none or it is blank.
pub fn default_name(file_stem: Option<&str>) -> (name: String)
    ensures
        name@ == default_name_spec(match file_stem {
            Some(s) => Some(s@),
            None => None,
        }),
{
    let stem = match file_stem {
        Some(s) => chars_of(s),
        None => chars_of("Collection"),
    };
    let t = trim_chars(stem.as_slice());
    if t.len() == 0 {
        return string_from_chars(chars_of("Collection").as_slice());
    }
    string_from_chars(t.as_slice())
}

/// A collection can be saved exactly when every map name is valid and no
/// two maps, at any two positions, have checked names equal ignoring ASCII
/// case.
pub proof fn lemma_save_ok_iff_names_distinct(names: Seq<Seq<char>>)
    ensures
        (forall|k: int| 0 <= k < names.len() ==> !#[trigger] save_problem_at(names, k)) <==> ({
            &&& forall|k: int| 0 <= k < names.len() ==> #[trigger] map_name_result(names[k]) is Ok
            &&& forall|i: int, k: int|
                0 <= i < k < names.len() ==> !eq_ignore_ascii_case(
                    #[trigger] map_name_result(names[i])->Ok_0,
                    #[trigger] map_name_result(names[k])->Ok_0,
                )
        }),
{
    if forall|k: int| 0 <= k < names.len() ==> !#[trigger] save_problem_at(names, k) {
        assert forall|i: int, k: int| 0 <= i < k < names.len() implies !eq_ignore_ascii_case(
            #[trigger] map_name_result(names[i])->Ok_0,
            #[trigger] map_name_result(names[k])->Ok_0,
        ) by {
            assert(!save_problem_at(names, k));
        }
        assert forall|k: int| 0 <= k < names.len() implies #[trigger] map_name_result(names[k]) is Ok by {
            assert(!save_problem_at(names, k));
        }
    }
}

proof fn lemma_first_problem(names: Seq<Seq<char>>, k: int)
    requires
        0 <= k < names.len(),
        save_problem_at(names, k),
        forall|j: int| 0 <= j < k ==> !#[trigger] save_problem_at(names, j),
    ensures
        first_save_problem(names, k),
{
}

impl EditableCollection {
    /// Builds the collection stored in a file from the file's text: its
    /// name from the `Collection:` line (else from the file name), and its
    /// maps from the level pack in the text, each under a valid name.
    pub fn from_text(source: String, file_stem: Option<&str>, text: &str) -> (c: EditableCollection)
        ensures
            c.source == source,
            c.collection_name@ == match collection_name_in(text_lines(text@)) {
                Some(n) => n,
                None => default_name_spec(match file_stem {
                    Some(s) => Some(s@),
                    None => None,
                }),
            },
            c.maps@.len() == pack_levels(text@).len(),
            forall|i: int| 0 <= i < c.maps@.len() ==> (#[trigger] c.maps@[i]).name@ == existing_map_name(
                pack_levels(text@)[i].0,
                i as nat,
            ) && rows_of(c.maps@[i].raw_lines@) == pack_levels(text@)[i].1,
    {
        let pack = LevelPack::from_text(source.clone(), text);
        let collection_name = match parse_collection_name(text) {
            Some(n) => n,
            None => default_name(file_stem),
        };
        let ghost levels = pack_levels(text@);
        let ghost packed = pack.levels@;
        assert(packed.len() == levels.len());
        let mut maps: Vec<EditableMap> = Vec::new();
        let mut rest = pack.levels;
        let total = rest.len();
        let mut k: usize = 0;
        while k < total
            invariant
                k <= total,
                total == packed.len(),
                packed.len() == levels.len(),
                rest@.len() == total,
                forall|j: int| 0 <= j < total ==> raw_level_view(#[trigger] packed[j]) == levels[j],
                forall|j: int| k <= j < total ==> #[trigger] rest@[j] == packed[j],
                maps@.len() == k,
                forall|j: int| 0 <= j < k ==> (#[trigger] maps@[j]).name@ == existing_map_name(levels[j].0, j as nat)
                    && rows_of(maps@[j].raw_lines@) == levels[j].1,
            decreases total - k,
        {
            let mut raw = RawLevel { name: None, lines: Vec::new() };
            let ghost before = rest@;
            std::mem::swap(&mut raw, &mut rest[k]);
            assert(raw == packed[k as int]);
            assert(forall|j: int| k < j < total ==> rest@[j] == before[j]);
            let name = normalized_existing_map_name(raw.name, k);
            maps.push(EditableMap { name, raw_lines: raw.lines });
            k += 1;
        }
        EditableCollection { source, collection_name, maps }
    }

    /// Renames the collection; a trailing `.txt` is dropped.
    pub fn rename_collection(&mut self, raw_name: &str) -> (r: Result<(), NameError>)
        ensures
            final(self).source == old(self).source,
            final(self).maps == old(self).maps,
            match display_name_result(raw_name@, COLLECTION_NAME_MAX_CHARS) {
                Ok(n) => r is Ok && final(self).collection_name@ == n,
                Err(e) => r == Err::<(), NameError>(e) && final(self).collection_name == old(self).collection_name,
            },
    {
        let n = normalize_display_name(raw_name, COLLECTION_NAME_MAX_CHARS)?;
        self.collection_name = n;
        Ok(())
    }

    /// Appends a map under a checked name that no other map has; returns
    /// its index.
    pub fn add_map(&mut self, raw_name: &str, raw_lines: Vec<String>) -> (r: Result<usize, CollectionError>)
        requires
            old(self).maps@.len() < usize::MAX,
        ensures
            final(self).source == old(self).source,
            final(self).collection_name == old(self).collection_name,
            match map_name_result(raw_name@) {
                Err(e) => r matches Err(CollectionError::Name(e2)) && e2 == e && final(self).maps == old(self).maps,
                Ok(n) => if name_taken(old(self).maps@, n, None) {
                    r matches Err(CollectionError::Name(e2)) && e2 == NameError::AlreadyExists
                        && final(self).maps == old(self).maps
                } else {
                    r == Ok::<usize, CollectionError>(old(self).maps@.len() as usize)
                        && maps_view(final(self).maps@) == maps_view(old(self).maps@).push((n, rows_of(raw_lines@)))
                },
            },
    {
        let name = match normalize_map_name(raw_name) {
            Ok(n) => n,
            Err(e) => return Err(CollectionError::Name(e)),
        };
        let name_chars = chars_of(name.as_str());
        match ensure_map_name_is_unique(self.maps.as_slice(), name_chars.as_slice(), None) {
            Ok(()) => {},
            Err(e) => return Err(CollectionError::Name(e)),
        }
        let ghost before = maps_view(self.maps@);
        self.maps.push(EditableMap { name, raw_lines });
        assert(maps_view(self.maps@) =~= before.push((name@, rows_of(raw_lines@))));
        Ok(self.maps.len() - 1)
    }

    /// Renames map `index` under a checked name that no other map has.
    pub fn rename_map(&mut self, index: usize, raw_name: &str) -> (r: Result<(), CollectionError>)
        ensures
            final(self).source == old(self).source,
            final(self).collection_name == old(self).collection_name,
            index >= old(self).maps@.len() ==> (r matches Err(CollectionError::IndexOutOfBounds) && final(self).maps == old(self).maps),
            index < old(self).maps@.len() ==> (match map_name_result(raw_name@) {
                Err(e) => r matches Err(CollectionError::Name(e2)) && e2 == e && final(self).maps == old(self).maps,
                Ok(n) => if name_taken(old(self).maps@, n, Some(index)) {
                    r matches Err(CollectionError::Name(e2)) && e2 == NameError::AlreadyExists
                        && final(self).maps == old(self).maps
                } else {
                    r is Ok && final(self).maps@.len() == old(self).maps@.len()
                        && final(self).maps@[index as int].name@ == n
                        && final(self).maps@[index as int].raw_lines == old(self).maps@[index as int].raw_lines
                        && forall|j: int| 0 <= j < old(self).maps@.len() && j != index ==> #[trigger] final(self).maps@[j] == old(self).maps@[j]
                },
            }),
    {
        if index >= self.maps.len() {
            return Err(CollectionError::IndexOutOfBounds);
        }
        let name = match normalize_map_name(raw_name) {
            Ok(n) => n,
            Err(e) => return Err(CollectionError::Name(e)),
        };
        let name_chars = chars_of(name.as_str());
        match ensure_map_name_is_unique(self.maps.as_slice(), name_chars.as_slice(), Some(index)) {
            Ok(()) => {},
            Err(e) => return Err(CollectionError::Name(e)),
        }
        let mut maps: Vec<EditableMap> = Vec::new();
        std::mem::swap(&mut maps, &mut self.maps);
        let old_map = maps.remove(index);
        maps.insert(index, EditableMap { name, raw_lines: old_map.raw_lines });
        self.maps = maps;
        Ok(())
    }

    /// The text the collection is saved as: a `Collection:` line and a blank
    /// line, then each map's rows followed by its `Title:` line and a blank
    /// line.
    pub fn serialize(&self) -> (text: String)
        ensures
            text@ == collection_text(self.collection_name@, maps_view(self.maps@)),
    {
        let mut out: Vec<char> = Vec::new();
        push_str_chars(&mut out, "Collection: ");
        push_str_chars(&mut out, self.collection_name.as_str());
        out.push('\n');
        out.push('\n');
        let ghost head = out@;
        assert(head == "Collection: "@ + self.collection_name@ + seq!['\n', '\n']);
        let ghost mv = maps_view(self.maps@);
        let mut i: usize = 0;
        while i < self.maps.len()
            invariant
                i <= self.maps@.len(),
                mv == maps_view(self.maps@),
                out@ == head + maps_text(mv.take(i as int)),
            decreases self.maps@.len() - i,
        {
            let map = &self.maps[i];
            let ghost lines = rows_of(map.raw_lines@);
            let ghost before = out@;
            let mut j: usize = 0;
            assert(lines.take(0) =~= Seq::<Seq<char>>::empty());
            while j < map.raw_lines.len()
                invariant
                    j <= map.raw_lines@.len(),
                    lines == rows_of(map.raw_lines@),
                    out@ == before + lines_text(lines.take(j as int)),
                decreases map.raw_lines@.len() - j,
            {
                push_str_chars(&mut out, map.raw_lines[j].as_str());
                out.push('\n');
                assert(lines.take(j + 1).drop_last() =~= lines.take(j as int));
                assert(out@ =~= before + lines_text(lines.take(j + 1)));
                j += 1;
            }
            assert(lines.take(map.raw_lines@.len() as int) =~= lines);
            push_str_chars(&mut out, "Title: ");
            push_str_chars(&mut out, map.name.as_str());
            out.push('\n');
            out.push('\n');
            assert(mv[i as int] == map_view(*map));
            assert(mv.take(i + 1).drop_last() =~= mv.take(i as int));
            assert(out@ =~= head + maps_text(mv.take(i + 1)));
            i += 1;
        }
        assert(mv.take(self.maps@.len() as int) =~= mv);
        string_from_chars(out.as_slice())
    }

    /// Checks that every map name is valid and that no two names are equal
    /// ignoring ASCII case, then gives the text the collection is saved as.
    pub fn save(&self) -> (r: Result<String, CollectionError>)
        ensures
            r is Ok <==> forall|k: int| 0 <= k < self.maps@.len() ==> !#[trigger] save_problem_at(map_names(self.maps@), k),
            r matches Ok(text) ==> text@ == collection_text(self.collection_name@, maps_view(self.maps@)),
            r is Err ==> exists|k: int| #[trigger] first_save_problem(map_names(self.maps@), k) && match map_name_result(map_names(self.maps@)[k]) {
                Err(ne) => r matches Err(CollectionError::Name(e)) && e == ne,
                Ok(_) => r matches Err(CollectionError::DuplicateMapName { name }) && name@ == map_names(self.maps@)[k],
            },
    {
        let ghost names = map_names(self.maps@);
        let mut seen: Vec<Vec<char>> = Vec::new();
        let mut k: usize = 0;
        while k < self.maps.len()
            invariant
                k <= self.maps@.len(),
                names == map_names(self.maps@),
                seen@.len() == k,
                forall|j: int| 0 <= j < k ==> map_name_result(names[j]) == Ok::<Seq<char>, NameError>(#[trigger] seen@[j]@),
                forall|j: int| 0 <= j < k ==> !#[trigger] save_problem_at(names, j),
            decreases self.maps@.len() - k,
        {
            assert(names[k as int] == self.maps@[k as int].name@);
            let normalized = match normalize_map_name(self.maps[k].name.as_str()) {
                Ok(n) => n,
                Err(e) => {
                    assert(map_name_result(names[k as int]) is Err);
                    assert(save_problem_at(names, k as int));
                    assert(names.len() == self.maps@.len());
                    proof {
                        lemma_first_problem(names, k as int);
                    }
                    return Err(CollectionError::Name(e));
                },
            };
            let norm_chars = chars_of(normalized.as_str());
            let mut j: usize = 0;
            while j < seen.len()
                invariant
                    j <= seen@.len(),
                    seen@.len() == k,
                    k < self.maps@.len(),
                    names == map_names(self.maps@),
                    map_name_result(names[k as int]) == Ok::<Seq<char>, NameError>(norm_chars@),
                    forall|i: int| 0 <= i < k ==> map_name_result(names[i]) == Ok::<Seq<char>, NameError>(#[trigger] seen@[i]@),
                    forall|i: int| 0 <= i < j ==> !eq_ignore_ascii_case(#[trigger] map_name_result(names[i])->Ok_0, norm_chars@),
                    forall|i: int| 0 <= i < k ==> !#[trigger] save_problem_at(names, i),
                decreases seen@.len() - j,
            {
                if chars_eq_ignore_ascii_case(seen[j].as_slice(), norm_chars.as_slice()) {
                    assert(eq_ignore_ascii_case(map_name_result(names[j as int])->Ok_0, map_name_result(names[k as int])->Ok_0));
                    assert(save_problem_at(names, k as int));
                    proof {
                        lemma_first_problem(names, k as int);
                    }
                    return Err(CollectionError::DuplicateMapName { name: self.maps[k].name.clone() });
                }
                j += 1;
            }
            assert(!save_problem_at(names, k as int));
            seen.push(norm_chars);
            k += 1;
        }
        Ok(self.serialize())
    }

    /// Removes map `index` and returns it.
    pub fn delete_map(&mut self, index: usize) -> (r: Result<EditableMap, CollectionError>)
        ensures
            final(self).source == old(self).source,
            final(self).collection_name == old(self).collection_name,
            index >= old(self).maps@.len() ==> (r matches Err(CollectionError::IndexOutOfBounds) && final(self).maps == old(self).maps),
            index < old(self).maps@.len() ==> r == Ok::<EditableMap, CollectionError>(old(self).maps@[index as int])
                && final(self).maps@ == old(self).maps@.remove(index as int),
    {
        if index >= self.maps.len() {
            return Err(CollectionError::IndexOutOfBounds);
        }
        Ok(self.maps.remove(index))
    }
}

} // verus!
