//! The ways a battle can fail.

use crate::point::Point;
use vstd::prelude::*;

verus! {

/// Every error aborts the battle in progress.
#[derive(Debug, Clone, Copy, PartialEq, Eq, Structural)]
pub enum Error {
    /// The combatant already has a place on the map.
    UserAlreadyOnMap,
    /// The destination (second) is held by someone else; the first point is
    /// where the move started.
    DestinationOccupied(Point, Point),
    /// The destination (first) lies beyond the map's bounds (second).
    DestinationOutOfBounds(Point, Point),
    /// Nobody stands at the point a move was to start from.
    MapLocationEmpty(Point),
    /// A turn was started with nobody to fight.
    NoOpponentsPresent,
}

} // verus!
