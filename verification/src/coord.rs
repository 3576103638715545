use vstd::prelude::*;

verus! {

/// A grid position: `x` grows to the right, `y` grows downwards.
#[derive(Clone, Copy, Debug, PartialEq, Eq, Hash, Structural)]
pub struct Pos {
    pub x: i32,
    pub y: i32,
}

/// One of the four moves on the grid.
#[derive(Clone, Copy, Debug, PartialEq, Eq, Hash, Structural)]
pub enum Direction {
    Up,
    Down,
    Left,
    Right,
}

impl Direction {
    /// Horizontal offset of one step in this direction.
    pub open spec fn dx(self) -> int {
        match self {
            Direction::Left => -1,
            Direction::Right => 1,
            _ => 0,
        }
    }

    /// Vertical offset of one step in this direction.
    pub open spec fn dy(self) -> int {
        match self {
            Direction::Up => -1,
            Direction::Down => 1,
            _ => 0,
        }
    }
}

impl Pos {
    pub fn new(x: i32, y: i32) -> (p: Pos)
        ensures
            p.x == x,
            p.y == y,
    {
        Pos { x, y }
    }

    /// One step from `self` in `dir` stays inside the range of `i32`.
    pub open spec fn can_step(self, dir: Direction) -> bool {
        i32::MIN <= self.x + dir.dx() <= i32::MAX && i32::MIN <= self.y + dir.dy() <= i32::MAX
    }

    /// The neighbour of `self` in direction `dir`.
    pub open spec fn stepped(self, dir: Direction) -> Pos {
        Pos { x: (self.x + dir.dx()) as i32, y: (self.y + dir.dy()) as i32 }
    }

    pub fn move_dir(self, dir: Direction) -> (p: Pos)
        requires
            self.can_step(dir),
        ensures
            p == self.stepped(dir),
            p.x == self.x + dir.dx(),
            p.y == self.y + dir.dy(),
    {
        match dir {
            Direction::Up => Pos { x: self.x, y: self.y - 1 },
            Direction::Down => Pos { x: self.x, y: self.y + 1 },
            Direction::Left => Pos { x: self.x - 1, y: self.y },
            Direction::Right => Pos { x: self.x + 1, y: self.y },
        }
    }
}

} // verus!
