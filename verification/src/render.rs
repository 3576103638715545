use vstd::prelude::*;

use crate::coord::Pos;
use crate::level::Level;
use crate::state::GameState;
use crate::text::{decimal, push_decimal, push_str_chars, string_from_chars};

verus! {

/// The character that shows the square at `pos`.
pub open spec fn square_char(level: &Level, state: &GameState, pos: Pos) -> char {
    if level.walls@.contains(pos) {
        '#'
    } else if state.player == pos {
        if level.goals@.contains(pos) { '+' } else { '@' }
    } else if state.boxes@.contains(pos) {
        if level.goals@.contains(pos) { '*' } else { '$' }
    } else if level.goals@.contains(pos) {
        '.'
    } else {
        ' '
    }
}

/// A count that is never negative.
pub open spec fn clamp0(n: i32) -> nat {
    if n > 0 { n as nat } else { 0 }
}

/// Row `y` of the board followed by a line break.
pub open spec fn board_row(level: &Level, state: &GameState, y: int) -> Seq<char> {
    Seq::new(clamp0(level.width), |x: int| square_char(level, state, Pos { x: x as i32, y: y as i32 })).push('\n')
}

/// The first `n` rows of the board.
pub open spec fn board_rows(level: &Level, state: &GameState, n: nat) -> Seq<char>
    decreases n,
{
    if n == 0 {
        Seq::empty()
    } else {
        board_rows(level, state, (n - 1) as nat) + board_row(level, state, n - 1)
    }
}

/// The name shown in the header.
pub open spec fn shown_title(level: &Level) -> Seq<char> {
    match level.name {
        Some(name) => name@,
        None => "(unnamed)"@,
    }
}

/// The whole text drawn for a level in a given state.
pub open spec fn rendered(level: &Level, state: &GameState) -> Seq<char> {
    "Level: "@ + shown_title(level) + " | Moves: "@ + decimal(state.moves as nat) + " | Pushes: "@
        + decimal(state.pushes as nat) + seq!['\n'] + board_rows(level, state, clamp0(level.height))
        + "WASD/arrows move | R restart | U undo | N/P level | Q quit"@
}

fn square_char_at(level: &Level, state: &GameState, pos: Pos) -> (c: char)
    ensures
        c == square_char(level, state, pos),
{
    if level.is_wall(pos) {
        '#'
    } else if state.player == pos {
        if level.is_goal(pos) { '+' } else { '@' }
    } else if state.boxes.contains(&pos) {
        if level.is_goal(pos) { '*' } else { '$' }
    } else if level.is_goal(pos) {
        '.'
    } else {
        ' '
    }
}

/// Draws the level as text: a header with the name and counters, one line
/// per row of the board, and a footer with the keys.
pub fn render(level: &Level, state: &GameState) -> (out: String)
    ensures
        out@ == rendered(level, state),
{
    let mut out: Vec<char> = Vec::new();
    push_str_chars(&mut out, "Level: ");
    match &level.name {
        Some(name) => push_str_chars(&mut out, name.as_str()),
        None => push_str_chars(&mut out, "(unnamed)"),
    }
    push_str_chars(&mut out, " | Moves: ");
    push_decimal(&mut out, state.moves as u64);
    push_str_chars(&mut out, " | Pushes: ");
    push_decimal(&mut out, state.pushes as u64);
    out.push('\n');
    let ghost header = out@;
    assert(header == "Level: "@ + shown_title(level) + " | Moves: "@ + decimal(state.moves as nat)
        + " | Pushes: "@ + decimal(state.pushes as nat) + seq!['\n']);

    let mut y: i32 = 0;
    while y < level.height
        invariant
            0 <= y,
            level.height > 0 ==> y <= level.height,
            level.height <= 0 ==> y == 0,
            out@ == header + board_rows(level, state, y as nat),
        decreases level.height - y,
    {
        let ghost before = out@;
        let mut x: i32 = 0;
        while x < level.width
            invariant
                0 <= x,
                level.width > 0 ==> x <= level.width,
                level.width <= 0 ==> x == 0,
                0 <= y < level.height,
                out@ == before + Seq::new(x as nat, |i: int| square_char(level, state, Pos { x: i as i32, y })),
            decreases level.width - x,
        {
            let c = square_char_at(level, state, Pos::new(x, y));
            out.push(c);
            assert(out@ =~= before + Seq::new((x + 1) as nat, |i: int| square_char(level, state, Pos { x: i as i32, y })));
            x += 1;
        }
        out.push('\n');
        assert(x as nat == clamp0(level.width));
        assert(board_rows(level, state, (y + 1) as nat) == board_rows(level, state, y as nat) + board_row(level, state, y as int));
        assert(out@ =~= header + board_rows(level, state, (y + 1) as nat));
        y += 1;
    }
    assert(y as nat == clamp0(level.height));
    push_str_chars(&mut out, "WASD/arrows move | R restart | U undo | N/P level | Q quit");
    string_from_chars(out.as_slice())
}

} // verus!
