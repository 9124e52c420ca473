//! The entities of the plane: the player and the obstacles.

use vstd::prelude::*;
use crate::geometry::{anchor_within, Coverage, Position, HEIGHT, WIDTH};

verus! {

/// Side of the player's square box.
pub const PLAYER_SIDE: usize = 5;

/// Smallest side of an obstacle.
pub const MIN_SIDE: usize = 5;

/// Every side of an obstacle is below this.
pub const MAX_SIDE: usize = 32;

/// What an entity is.
#[derive(Debug, Clone, Copy, PartialEq, Eq, Structural)]
pub enum Kind {
    Player,
    Obstacle,
}

/// Something on the plane: its kind, the top-left corner of its box and the
/// size of the box.
#[derive(Debug, Clone, Copy, PartialEq, Eq, Structural)]
pub struct Entity {
    pub kind: Kind,
    pub position: Position,
    pub coverage: Coverage,
}

impl Entity {
    /// The right edge of the box, `x + width`.
    pub open spec fn right_edge(self) -> int {
        self.position.x + self.coverage.width
    }

    /// The box has left the plane over its left edge: its right edge is at
    /// zero or beyond.
    pub open spec fn expired(self) -> bool {
        self.right_edge() <= 0
    }

    /// The same entity one unit further left.
    pub open spec fn drifted(self) -> Entity {
        Entity { position: self.position.drifted(), ..self }
    }

    /// The entity is an obstacle as the simulation makes them: of a spawned
    /// size, at a spawned height, no further right than the right edge and
    /// less than its largest possible width beyond the left edge.
    pub open spec fn is_obstacle(self) -> bool {
        &&& self.kind == Kind::Obstacle
        &&& -(MAX_SIDE as int) < self.position.x <= WIDTH
        &&& 0 <= self.position.y < HEIGHT
        &&& MIN_SIDE <= self.coverage.width < MAX_SIDE
        &&& MIN_SIDE <= self.coverage.height < MAX_SIDE
    }

    /// The entity is an obstacle as it enters the plane: on the right edge.
    pub open spec fn is_fresh(self) -> bool {
        &&& self.is_obstacle()
        &&& self.position.x == WIDTH
    }

    /// The entity is a player on the plane.
    pub open spec fn is_player(self) -> bool {
        &&& self.kind == Kind::Player
        &&& self.position.in_bounds()
        &&& self.coverage == (Coverage { width: PLAYER_SIDE, height: PLAYER_SIDE })
    }

    /// The anchor of `other` lies within this entity's box.
    pub open spec fn covers(self, other: Entity) -> bool {
        anchor_within(self.position, self.coverage, other.position)
    }

    /// Tells whether the box has left the plane over its left edge.
    pub fn has_expired(&self) -> (gone: bool)
        ensures
            gone == self.expired(),
    {
        self.position.x as i128 + self.coverage.width as i128 <= 0
    }

    /// Tells whether the entity is an obstacle as the simulation makes them.
    pub fn check_obstacle(&self) -> (ok: bool)
        ensures
            ok == self.is_obstacle(),
    {
        let is_kind: bool = match self.kind {
            Kind::Obstacle => true,
            Kind::Player => false,
        };
        is_kind && -(MAX_SIDE as isize) < self.position.x && self.position.x <= WIDTH as isize && 0
            <= self.position.y && self.position.y < HEIGHT as isize && MIN_SIDE
            <= self.coverage.width() && self.coverage.width() < MAX_SIDE && MIN_SIDE
            <= self.coverage.height() && self.coverage.height() < MAX_SIDE
    }
}

} // verus!
