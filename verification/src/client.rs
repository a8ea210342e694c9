//! Decisions the game client takes from what the player presses and what
//! the server says.
use vstd::prelude::*;

use crate::chat::{has_prefix, starts_with};
use crate::common::Direction;
use crate::text::chars_of;

verus! {

/// The direction the player walks in, given which direction keys are held
/// (arrow keys and W, A, S, D alike). Up wins over down, down over left,
/// left over right.
pub open spec fn spec_movement(up: bool, down: bool, left: bool, right: bool) -> Option<Direction> {
    if up {
        Some(Direction::North)
    } else if down {
        Some(Direction::South)
    } else if left {
        Some(Direction::West)
    } else if right {
        Some(Direction::East)
    } else {
        None
    }
}

/// The direction the player walks in, given which direction keys are held.
pub fn movement_direction(up: bool, down: bool, left: bool, right: bool) -> (d: Option<Direction>)
    ensures
        d == spec_movement(up, down, left, right),
{
    if up {
        Some(Direction::North)
    } else if down {
        Some(Direction::South)
    } else if left {
        Some(Direction::West)
    } else if right {
        Some(Direction::East)
    } else {
        None
    }
}

/// Whether the client must ask the server for a map it is sent to, given
/// the cache key of its stored copy, if it has one, and the key the server
/// announced: it must unless its copy is current.
pub fn needs_map(cached: Option<i64>, announced: i64) -> (r: bool)
    ensures
        r == (match cached {
            Some(k) => k != announced,
            None => true,
        }),
{
    match cached {
        Some(k) => k != announced,
        None => true,
    }
}

/// Whether a chat line is the `/pos` command, which the client answers
/// itself with the player's position instead of sending the line.
pub fn asks_position(text: &str) -> (r: bool)
    ensures
        r == starts_with(text@, "/pos"@),
{
    has_prefix(&chars_of(text), "/pos")
}

} // verus!
