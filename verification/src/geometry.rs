//! Positions, box sizes and the overlap test of the plane.

use vstd::prelude::*;

verus! {

/// Largest x coordinate of the plane.
pub const WIDTH: usize = 480;

/// Largest y coordinate of the plane.
pub const HEIGHT: usize = 480;

/// A directional request of the player.
#[derive(Debug, Clone, Copy, PartialEq, Eq, Structural)]
pub enum Action {
    Left,
    Right,
    Up,
    Down,
}

/// A point of the plane; the top-left corner of an entity's box.
#[derive(Debug, Clone, Copy, PartialEq, Eq, Structural)]
pub struct Position {
    pub x: isize,
    pub y: isize,
}

impl Position {
    /// The point lies on the plane: `0 <= x <= WIDTH` and `0 <= y <= HEIGHT`.
    pub open spec fn in_bounds(self) -> bool {
        &&& 0 <= self.x <= WIDTH
        &&& 0 <= self.y <= HEIGHT
    }

    /// The point one step to the left, with no regard for the plane's edge.
    pub open spec fn drifted(self) -> Position {
        Position { x: (self.x - 1) as isize, y: self.y }
    }

    /// Where the point is after one clamped step: one unit in the direction
    /// of `action`, unless the point stands at the wall of the plane that
    /// lies in that direction, where it stays.
    pub open spec fn stepped(self, action: Action) -> Position {
        match action {
            Action::Left => Position { x: if self.x == 0 { 0 } else { (self.x - 1) as isize }, y: self.y },
            Action::Right => Position {
                x: if self.x == WIDTH { self.x } else { (self.x + 1) as isize },
                y: self.y,
            },
            Action::Up => Position { x: self.x, y: if self.y == 0 { 0 } else { (self.y - 1) as isize } },
            Action::Down => Position {
                x: self.x,
                y: if self.y == HEIGHT { self.y } else { (self.y + 1) as isize },
            },
        }
    }

    /// A clamped step can be taken without leaving the machine's integers.
    pub open spec fn can_step(self, action: Action) -> bool {
        match action {
            Action::Left => self.x > isize::MIN,
            Action::Right => self.x < isize::MAX,
            Action::Up => self.y > isize::MIN,
            Action::Down => self.y < isize::MAX,
        }
    }

    /// The point (`x`, `y`).
    pub fn new(x: isize, y: isize) -> (p: Position)
        ensures
            p == (Position { x, y }),
    {
        Position { x, y }
    }

    /// Moves one unit to the left, below zero too: the step of an obstacle,
    /// which may leave the plane over its left edge.
    pub fn unsafe_left(&mut self)
        requires
            old(self).x > isize::MIN,
        ensures
            *final(self) == old(self).drifted(),
            final(self).x == old(self).x - 1,
            final(self).y == old(self).y,
    {
        self.x -= 1;
    }

    /// Moves one unit to the left unless `x` is zero: the step of the
    /// player, which the left edge of the plane stops.
    pub fn left(&mut self)
        requires
            old(self).can_step(Action::Left),
        ensures
            *final(self) == old(self).stepped(Action::Left),
            old(self).in_bounds() ==> final(self).in_bounds(),
    {
        if self.x != 0 {
            self.x -= 1;
        }
    }

    /// Moves one unit to the right unless `x` is `WIDTH`.
    pub fn right(&mut self)
        requires
            old(self).can_step(Action::Right),
        ensures
            *final(self) == old(self).stepped(Action::Right),
            old(self).in_bounds() ==> final(self).in_bounds(),
    {
        if self.x != WIDTH as isize {
            self.x += 1;
        }
    }

    /// Moves one unit down unless `y` is `HEIGHT`.
    pub fn down(&mut self)
        requires
            old(self).can_step(Action::Down),
        ensures
            *final(self) == old(self).stepped(Action::Down),
            old(self).in_bounds() ==> final(self).in_bounds(),
    {
        if self.y != HEIGHT as isize {
            self.y += 1;
        }
    }

    /// Moves one unit up unless `y` is zero.
    pub fn up(&mut self)
        requires
            old(self).can_step(Action::Up),
        ensures
            *final(self) == old(self).stepped(Action::Up),
            old(self).in_bounds() ==> final(self).in_bounds(),
    {
        if self.y != 0 {
            self.y -= 1;
        }
    }

    /// Takes the clamped step that `action` asks for.
    pub fn step(&mut self, action: Action)
        requires
            old(self).can_step(action),
        ensures
            *final(self) == old(self).stepped(action),
            old(self).in_bounds() ==> final(self).in_bounds(),
    {
        match action {
            Action::Left => self.left(),
            Action::Right => self.right(),
            Action::Up => self.up(),
            Action::Down => self.down(),
        }
    }
}

/// Width and height of an axis-aligned box.
#[derive(Debug, Clone, Copy, PartialEq, Eq, Structural)]
pub struct Coverage {
    pub width: usize,
    pub height: usize,
}

impl Coverage {
    /// The size `width` by `height`.
    pub fn new(width: usize, height: usize) -> (c: Coverage)
        ensures
            c == (Coverage { width, height }),
    {
        Coverage { width, height }
    }

    /// The width of the box.
    pub fn width(&self) -> (w: usize)
        ensures
            w == self.width,
    {
        self.width
    }

    /// The height of the box.
    pub fn height(&self) -> (h: usize)
        ensures
            h == self.height,
    {
        self.height
    }
}

/// A box as it is handed out for drawing: its top-left corner and its size.
/// `obj_to_rect` makes them, and never with a negative corner.
#[derive(Debug, Clone, Copy, PartialEq, Eq, Structural)]
pub struct Rect {
    pub x: isize,
    pub y: isize,
    pub width: usize,
    pub height: usize,
}

/// The box at `p` of size `c` as it is drawn: a negative coordinate is
/// raised to zero, the size is kept.
pub open spec fn rect_of(p: Position, c: Coverage) -> Rect {
    Rect {
        x: if p.x < 0 { 0 } else { p.x },
        y: if p.y < 0 { 0 } else { p.y },
        width: c.width,
        height: c.height,
    }
}

/// `min <= x <= min + delta`, over the integers.
pub open spec fn in_range(min: int, delta: int, x: int) -> bool {
    min <= x <= min + delta
}

/// The point `b` lies in the closed box at `a` of size `ca`. This is the
/// whole overlap test of the simulation: it looks at one corner of the
/// second box only, never at its size.
pub open spec fn anchor_within(a: Position, ca: Coverage, b: Position) -> bool {
    &&& in_range(a.x as int, ca.width as int, b.x as int)
    &&& in_range(a.y as int, ca.height as int, b.y as int)
}

/// The drawing box of an entity at `p` with size `c`.
pub fn obj_to_rect(p: Position, c: Coverage) -> (r: Rect)
    ensures
        r == rect_of(p, c),
        r.x >= 0,
        r.y >= 0,
{
    Rect {
        x: if p.x < 0 { 0 } else { p.x },
        y: if p.y < 0 { 0 } else { p.y },
        width: c.width(),
        height: c.height(),
    }
}

/// Tells whether the anchor of the second box lies within the first box.
/// The size of the second box plays no part.
pub fn is_collided(first: (Position, Coverage), second: (Position, Coverage)) -> (hit: bool)
    ensures
        hit == anchor_within(first.0, first.1, second.0),
{
    let (f_pos, f_cov) = first;
    let (s_pos, _) = second;
    let x_hit: bool = f_pos.x <= s_pos.x && s_pos.x as i128 <= f_pos.x as i128 + f_cov.width as i128;
    let y_hit: bool = f_pos.y <= s_pos.y && s_pos.y as i128 <= f_pos.y as i128 + f_cov.height as i128;
    x_hit && y_hit
}

/// A clamped step never leaves the plane: from a point on the plane every
/// step can be taken and ends on the plane, and a step into a wall of the
/// plane ends where it began.
pub proof fn lemma_step_stays_in_bounds(p: Position, action: Action)
    requires
        p.in_bounds(),
    ensures
        p.can_step(action),
        p.stepped(action).in_bounds(),
        action == Action::Left && p.x == 0 ==> p.stepped(action) == p,
        action == Action::Right && p.x == WIDTH ==> p.stepped(action) == p,
        action == Action::Up && p.y == 0 ==> p.stepped(action) == p,
        action == Action::Down && p.y == HEIGHT ==> p.stepped(action) == p,
{
}

/// The unclamped step to the left lowers x by exactly one, below zero too,
/// and leaves y alone.
pub proof fn lemma_drift_lowers_x(p: Position)
    requires
        p.x > isize::MIN,
    ensures
        p.drifted().x == p.x - 1,
        p.drifted().y == p.y,
{
}

} // verus!
