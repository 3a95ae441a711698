//! Positions on the grid and the eight-way compass algebra.

use vstd::prelude::*;

verus! {

/// An integer grid position, also used as a displacement between positions.
#[derive(Clone, Copy, Debug, PartialEq, Eq, Structural)]
pub struct Pos {
    pub x: i32,
    pub y: i32,
}

/// The eight compass directions. `N` is towards smaller `y`, `E` towards
/// larger `x`.
#[derive(Clone, Copy, Debug, PartialEq, Eq, Structural)]
pub enum Dir {
    N,
    NE,
    E,
    SE,
    S,
    SW,
    W,
    NW,
}

impl Pos {
    pub fn new(x: i32, y: i32) -> (p: Pos)
        ensures
            p == (Pos { x, y }),
    {
        Pos { x, y }
    }

    pub fn zero() -> (p: Pos)
        ensures
            p == (Pos { x: 0, y: 0 }),
    {
        Pos { x: 0, y: 0 }
    }

    pub fn tup(self) -> (t: (i32, i32))
        ensures
            t.0 == self.x,
            t.1 == self.y,
    {
        (self.x, self.y)
    }

    /// The componentwise sum of two positions.
    pub fn add(self, other: Pos) -> (r: Pos)
        requires
            i32::MIN <= self.x + other.x <= i32::MAX,
            i32::MIN <= self.y + other.y <= i32::MAX,
        ensures
            r.x == self.x + other.x,
            r.y == self.y + other.y,
    {
        Pos { x: self.x + other.x, y: self.y + other.y }
    }

    /// The componentwise difference of two positions.
    pub fn sub(self, other: Pos) -> (r: Pos)
        requires
            i32::MIN <= self.x - other.x <= i32::MAX,
            i32::MIN <= self.y - other.y <= i32::MAX,
        ensures
            r.x == self.x - other.x,
            r.y == self.y - other.y,
    {
        Pos { x: self.x - other.x, y: self.y - other.y }
    }

    /// The direction whose unit displacement is `self`, if there is one.
    pub open spec fn spec_to_dir(self) -> Option<Dir> {
        if self.x == 0 && self.y == -1 {
            Some(Dir::N)
        } else if self.x == 1 && self.y == -1 {
            Some(Dir::NE)
        } else if self.x == 1 && self.y == 0 {
            Some(Dir::E)
        } else if self.x == 1 && self.y == 1 {
            Some(Dir::SE)
        } else if self.x == 0 && self.y == 1 {
            Some(Dir::S)
        } else if self.x == -1 && self.y == 1 {
            Some(Dir::SW)
        } else if self.x == -1 && self.y == 0 {
            Some(Dir::W)
        } else if self.x == -1 && self.y == -1 {
            Some(Dir::NW)
        } else {
            None
        }
    }

    /// Reads a unit displacement back as a compass direction.
    pub fn to_dir(self) -> (d: Option<Dir>)
        ensures
            d == self.spec_to_dir(),
    {
        match (self.x, self.y) {
            (0, -1) => Some(Dir::N),
            (1, -1) => Some(Dir::NE),
            (1, 0) => Some(Dir::E),
            (1, 1) => Some(Dir::SE),
            (0, 1) => Some(Dir::S),
            (-1, 1) => Some(Dir::SW),
            (-1, 0) => Some(Dir::W),
            (-1, -1) => Some(Dir::NW),
            _ => None,
        }
    }

    /// The octant matching the exact signs of the displacement from `self`
    /// towards `target`; `None` exactly when the two positions coincide.
    pub open spec fn spec_dir_towards(self, target: Pos) -> Option<Dir> {
        if self.x == target.x && self.y == target.y {
            None
        } else if self.x == target.x && self.y > target.y {
            Some(Dir::N)
        } else if self.x < target.x && self.y > target.y {
            Some(Dir::NE)
        } else if self.x < target.x && self.y == target.y {
            Some(Dir::E)
        } else if self.x < target.x && self.y < target.y {
            Some(Dir::SE)
        } else if self.x == target.x && self.y < target.y {
            Some(Dir::S)
        } else if self.x > target.x && self.y < target.y {
            Some(Dir::SW)
        } else if self.x > target.x && self.y == target.y {
            Some(Dir::W)
        } else {
            Some(Dir::NW)
        }
    }

    /// The compass direction that leads from `self` towards `target`,
    /// diagonal when both coordinates differ; `None` when already there.
    pub fn dir_towards(self, target: Pos) -> (d: Option<Dir>)
        ensures
            d == self.spec_dir_towards(target),
    {
        if self.x == target.x && self.y == target.y {
            None
        } else if self.x == target.x && self.y > target.y {
            Some(Dir::N)
        } else if self.x < target.x && self.y > target.y {
            Some(Dir::NE)
        } else if self.x < target.x && self.y == target.y {
            Some(Dir::E)
        } else if self.x < target.x && self.y < target.y {
            Some(Dir::SE)
        } else if self.x == target.x && self.y < target.y {
            Some(Dir::S)
        } else if self.x > target.x && self.y < target.y {
            Some(Dir::SW)
        } else if self.x > target.x && self.y == target.y {
            Some(Dir::W)
        } else {
            Some(Dir::NW)
        }
    }
}

impl Dir {
    /// The unit displacement of this direction.
    pub open spec fn spec_to_pos(self) -> Pos {
        match self {
            Dir::N => Pos { x: 0i32, y: -1i32 },
            Dir::NE => Pos { x: 1i32, y: -1i32 },
            Dir::E => Pos { x: 1i32, y: 0i32 },
            Dir::SE => Pos { x: 1i32, y: 1i32 },
            Dir::S => Pos { x: 0i32, y: 1i32 },
            Dir::SW => Pos { x: -1i32, y: 1i32 },
            Dir::W => Pos { x: -1i32, y: 0i32 },
            Dir::NW => Pos { x: -1i32, y: -1i32 },
        }
    }

    /// Maps a compass direction to its unit displacement.
    pub fn to_pos(self) -> (p: Pos)
        ensures
            p == self.spec_to_pos(),
    {
        match self {
            Dir::N => Pos { x: 0, y: -1 },
            Dir::NE => Pos { x: 1, y: -1 },
            Dir::E => Pos { x: 1, y: 0 },
            Dir::SE => Pos { x: 1, y: 1 },
            Dir::S => Pos { x: 0, y: 1 },
            Dir::SW => Pos { x: -1, y: 1 },
            Dir::W => Pos { x: -1, y: 0 },
            Dir::NW => Pos { x: -1, y: -1 },
        }
    }
}

} // verus!
