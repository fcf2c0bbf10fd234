use vstd::prelude::*;
use crate::constants::{displacement, lemma_displacement_is_heading, MAP_HEIGHT, MAP_WIDTH};
use crate::identity::{hyphenated, is_random_uuid, random_uuid, uuid_hyphenated};

verus! {

/// Identity of a connected client: an opaque 128-bit number.
#[derive(Debug, PartialEq, Eq, Clone, Copy, Hash, Structural)]
pub struct PlayerUuid(pub u128);

impl PlayerUuid {
    /// A fresh, random identity.
    pub fn new() -> (id: PlayerUuid)
        ensures
            is_random_uuid(id.0),
    {
        PlayerUuid(random_uuid())
    }

    /// The identity as it is written on the wire.
    pub fn to_string(&self) -> (text: String)
        ensures
            text@ == uuid_hyphenated(self.0),
    {
        hyphenated(self.0)
    }

    /// The 128-bit value of the identity.
    pub fn get_uuid(&self) -> (value: u128)
        ensures
            value == self.0,
    {
        self.0
    }
}

/// Whether the point (`x`, `y`), in position units, lies off the map.
pub open spec fn out_of_bounds(x: int, y: int) -> bool {
    x < 0 || x > MAP_WIDTH || y < 0 || y > MAP_HEIGHT
}

/// One participant of a room: where it stands, where it is heading and
/// whether it wants the round to start.
#[derive(Debug, PartialEq, Eq, Clone, Copy, Structural)]
pub struct Player {
    pub id: PlayerUuid,
    pub x: i64,
    pub y: i64,
    pub angle_unit_vector_x: i32,
    pub angle_unit_vector_y: i32,
    pub is_ready: bool,
}

impl Player {
    pub fn new(
        id: u128,
        x: i64,
        y: i64,
        angle_unit_vector_x: i32,
        angle_unit_vector_y: i32,
        is_ready: bool,
    ) -> (player: Player)
        ensures
            player == (Player {
                id: PlayerUuid(id),
                x,
                y,
                angle_unit_vector_x,
                angle_unit_vector_y,
                is_ready,
            }),
    {
        Player { id: PlayerUuid(id), x, y, angle_unit_vector_x, angle_unit_vector_y, is_ready }
    }

    /// The player one tick later: moved along its heading, otherwise
    /// unchanged.
    pub open spec fn advanced(self) -> Player {
        Player {
            x: (self.x + displacement(self.angle_unit_vector_x as int)) as i64,
            y: (self.y + displacement(self.angle_unit_vector_y as int)) as i64,
            ..self
        }
    }

    /// Whether one step keeps both coordinates within the machine's range.
    pub open spec fn can_advance(self) -> bool {
        &&& i64::MIN <= self.x + self.angle_unit_vector_x <= i64::MAX
        &&& i64::MIN <= self.y + self.angle_unit_vector_y <= i64::MAX
    }

    /// Moves the player one tick along its heading.
    pub fn calculate_new_position(&mut self)
        requires
            old(self).can_advance(),
        ensures
            *final(self) == old(self).advanced(),
            final(self).x == old(self).x + old(self).angle_unit_vector_x,
            final(self).y == old(self).y + old(self).angle_unit_vector_y,
    {
        proof {
            lemma_displacement_is_heading(self.angle_unit_vector_x as int);
            lemma_displacement_is_heading(self.angle_unit_vector_y as int);
        }
        self.x = self.x + self.angle_unit_vector_x as i64;
        self.y = self.y + self.angle_unit_vector_y as i64;
    }

    /// Whether the player stands off the map.
    pub fn check_if_out_of_bounds(&self) -> (out: bool)
        ensures
            out == out_of_bounds(self.x as int, self.y as int),
    {
        self.x < 0 || self.x > MAP_WIDTH || self.y < 0 || self.y > MAP_HEIGHT
    }
}

} // verus!
