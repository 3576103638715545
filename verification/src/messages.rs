use vstd::prelude::*;

use crate::editor::EditorError;
use crate::editor_model::{CollectionError, NameError};
use crate::level::{LevelError, ParseLevelsError};
use crate::text::{decimal, push_decimal, push_str_chars, string_from_chars};

verus! {

/// The text that explains a refused name.
pub open spec fn name_error_text(e: NameError) -> Seq<char> {
    match e {
        NameError::Empty => "name cannot be empty"@,
        NameError::TooLong { max } => "name cannot exceed "@ + decimal(max as nat) + " characters"@,
        NameError::ControlChars => "name contains invalid control characters"@,
        NameError::InvalidFileNameChars => "name contains invalid filename characters"@,
        NameError::Reserved => "name 'default' is reserved"@,
        NameError::AlreadyExists => "name already exists"@,
    }
}

fn push_name_error(out: &mut Vec<char>, e: NameError)
    ensures
        final(out)@ == old(out)@ + name_error_text(e),
{
    match e {
        NameError::Empty => push_str_chars(out, "name cannot be empty"),
        NameError::TooLong { max } => {
            push_str_chars(out, "name cannot exceed ");
            push_decimal(out, max as u64);
            push_str_chars(out, " characters");
        },
        NameError::ControlChars => push_str_chars(out, "name contains invalid control characters"),
        NameError::InvalidFileNameChars => push_str_chars(out, "name contains invalid filename characters"),
        NameError::Reserved => push_str_chars(out, "name 'default' is reserved"),
        NameError::AlreadyExists => push_str_chars(out, "name already exists"),
    }
}

impl NameError {
    pub fn message(&self) -> (m: String)
        ensures
            m@ == name_error_text(*self),
    {
        let mut out: Vec<char> = Vec::new();
        push_name_error(&mut out, *self);
        string_from_chars(out.as_slice())
    }
}

/// The text that explains a refused edit.
pub open spec fn editor_error_text(e: EditorError) -> Seq<char> {
    match e {
        EditorError::NoRows => "map has no rows"@,
        EditorError::NoColumns => "map has no columns"@,
        EditorError::InvalidChar { ch } => "invalid map char '"@ + seq![ch, '\''],
        EditorError::OutOfBounds => "position out of bounds"@,
        EditorError::SizeNotPositive => "size must be positive"@,
        EditorError::AreaTooSmall => "canvas area must be at least 3"@,
        EditorError::Name(n) => name_error_text(n),
    }
}

impl EditorError {
    pub fn message(&self) -> (m: String)
        ensures
            m@ == editor_error_text(*self),
    {
        let mut out: Vec<char> = Vec::new();
        match *self {
            EditorError::NoRows => push_str_chars(&mut out, "map has no rows"),
            EditorError::NoColumns => push_str_chars(&mut out, "map has no columns"),
            EditorError::InvalidChar { ch } => {
                push_str_chars(&mut out, "invalid map char '");
                out.push(ch);
                out.push('\'');
            },
            EditorError::OutOfBounds => push_str_chars(&mut out, "position out of bounds"),
            EditorError::SizeNotPositive => push_str_chars(&mut out, "size must be positive"),
            EditorError::AreaTooSmall => push_str_chars(&mut out, "canvas area must be at least 3"),
            EditorError::Name(n) => push_name_error(&mut out, n),
        }
        assert(out@ =~= editor_error_text(*self));
        string_from_chars(out.as_slice())
    }
}

/// The text that explains why a grid is not a level.
pub open spec fn level_error_text(e: LevelError) -> Seq<char> {
    match e {
        LevelError::NoGridLines => "level has no grid lines"@,
        LevelError::InvalidChar { ch, line, column } => "invalid grid character '"@ + seq![ch] + "' at line "@
            + decimal(line as nat) + ", column "@ + decimal(column as nat),
        LevelError::DuplicatePlayer { line, column } => "level has more than one player (duplicate at line "@
            + decimal(line as nat) + ", column "@ + decimal(column as nat) + ")"@,
        LevelError::MissingPlayer => "missing player (@ or +)"@,
        LevelError::NoBoxes => "level must include at least one box ($ or *)"@,
        LevelError::TooFewGoals { goals, boxes } => "number of goals ("@ + decimal(goals as nat)
            + ") must be >= number of boxes ("@ + decimal(boxes as nat) + ")"@,
    }
}

fn push_level_error(out: &mut Vec<char>, e: LevelError)
    ensures
        final(out)@ == old(out)@ + level_error_text(e),
{
    match e {
        LevelError::NoGridLines => push_str_chars(out, "level has no grid lines"),
        LevelError::InvalidChar { ch, line, column } => {
            push_str_chars(out, "invalid grid character '");
            out.push(ch);
            push_str_chars(out, "' at line ");
            push_decimal(out, line as u64);
            push_str_chars(out, ", column ");
            push_decimal(out, column as u64);
        },
        LevelError::DuplicatePlayer { line, column } => {
            push_str_chars(out, "level has more than one player (duplicate at line ");
            push_decimal(out, line as u64);
            push_str_chars(out, ", column ");
            push_decimal(out, column as u64);
            push_str_chars(out, ")");
        },
        LevelError::MissingPlayer => push_str_chars(out, "missing player (@ or +)"),
        LevelError::NoBoxes => push_str_chars(out, "level must include at least one box ($ or *)"),
        LevelError::TooFewGoals { goals, boxes } => {
            push_str_chars(out, "number of goals (");
            push_decimal(out, goals as u64);
            push_str_chars(out, ") must be >= number of boxes (");
            push_decimal(out, boxes as u64);
            push_str_chars(out, ")");
        },
    }
    assert(final(out)@ =~= old(out)@ + level_error_text(e));
}

impl LevelError {
    pub fn message(&self) -> (m: String)
        ensures
            m@ == level_error_text(*self),
    {
        let mut out: Vec<char> = Vec::new();
        push_level_error(&mut out, *self);
        assert(out@ =~= level_error_text(*self));
        string_from_chars(out.as_slice())
    }
}

/// The text that explains which level of a pack could not be read, and why.
pub open spec fn parse_levels_error_text(e: ParseLevelsError) -> Seq<char> {
    "failed to parse level "@ + decimal(e.level as nat) + ": "@ + level_error_text(e.error)
}

impl ParseLevelsError {
    pub fn message(&self) -> (m: String)
        ensures
            m@ == parse_levels_error_text(*self),
    {
        let mut out: Vec<char> = Vec::new();
        push_str_chars(&mut out, "failed to parse level ");
        push_decimal(&mut out, self.level as u64);
        push_str_chars(&mut out, ": ");
        push_level_error(&mut out, self.error);
        assert(out@ =~= parse_levels_error_text(*self));
        string_from_chars(out.as_slice())
    }
}

/// The text that explains a refused change to a collection.
pub open spec fn collection_error_text(e: CollectionError) -> Seq<char> {
    match e {
        CollectionError::Name(n) => name_error_text(n),
        CollectionError::IndexOutOfBounds => "map index out of bounds"@,
        CollectionError::DuplicateMapName { name } => "duplicate map name '"@ + name@ + "'"@,
    }
}

impl CollectionError {
    pub fn message(&self) -> (m: String)
        ensures
            m@ == collection_error_text(*self),
    {
        let mut out: Vec<char> = Vec::new();
        match self {
            CollectionError::Name(n) => push_name_error(&mut out, *n),
            CollectionError::IndexOutOfBounds => push_str_chars(&mut out, "map index out of bounds"),
            CollectionError::DuplicateMapName { name } => {
                push_str_chars(&mut out, "duplicate map name '");
                push_str_chars(&mut out, name.as_str());
                push_str_chars(&mut out, "'");
            },
        }
        assert(out@ =~= collection_error_text(*self));
        string_from_chars(out.as_slice())
    }
}

} // verus!
