use vstd::prelude::*;

pub mod battle;
pub mod desk;
pub mod errors;
pub mod units;

verus! {

/// A grid coordinate pair with an auxiliary tag. Only `x` and `y` identify a
/// location; `id` is a transient marker and takes no part in any comparison.
#[derive(Clone, Copy, PartialEq, Eq, Structural, Debug)]
pub struct Vector2 {
    pub x: i8,
    pub y: i8,
    pub id: i8,
}

impl Vector2 {
    pub fn new(x_position: i8, y_position: i8, _id: i8) -> (v: Vector2)
        ensures
            v.x == x_position,
            v.y == y_position,
            v.id == _id,
    {
        Vector2 { x: x_position, y: y_position, id: _id }
    }
}

} // verus!
