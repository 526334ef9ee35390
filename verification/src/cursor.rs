//! Reading the arrow signals as one of the four straight directions.

use vstd::prelude::*;
use crate::components::Direction;
use crate::resources::Input;

verus! {

/// The straight direction that the arrow signals ask for. A signal counts
/// unless the opposite one is given as well, and of those that count the
/// first of left, up, right, down wins.
pub open spec fn straight_direction(input: Input) -> Option<Direction> {
    if input.left && !input.right {
        Some(Direction::Left)
    } else if input.up && !input.down {
        Some(Direction::Up)
    } else if input.right && !input.left {
        Some(Direction::Right)
    } else if input.down && !input.up {
        Some(Direction::Down)
    } else {
        None
    }
}

/// Reads a straight direction off the arrow signals.
pub fn get_input(input: &Input) -> (direction: Option<Direction>)
    ensures
        direction == straight_direction(*input),
        direction matches Some(d) ==> d == Direction::Left || d == Direction::Up || d
            == Direction::Right || d == Direction::Down,
{
    if input.left && !input.right {
        Some(Direction::Left)
    } else if input.up && !input.down {
        Some(Direction::Up)
    } else if input.right && !input.left {
        Some(Direction::Right)
    } else if input.down && !input.up {
        Some(Direction::Down)
    } else {
        None
    }
}

} // verus!
