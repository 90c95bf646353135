use vstd::prelude::*;

verus! {

/// Every way an engine operation can refuse a command. Each failure is
/// terminal for the single operation that raised it: the engine performs no
/// partial mutation of a battle before reporting one of these.
#[derive(Clone, Copy, PartialEq, Eq, Structural, Debug)]
pub enum GameError {
    /// A move path with bad geometry: a diagonal segment, a segment of
    /// distance zero or more than two, a two-cell segment whose intermediate
    /// cell is empty, a waypoint off the board, or a path that does not start
    /// at the moving unit's cell.
    IllegalMove,
    /// The caller does not own the unit it tries to move, or is not a player
    /// of this battle at all.
    UnitNotOwned,
    /// The move was issued by the player whose turn it is not.
    NotYourTurn,
    /// The operation is not allowed in the battle's current phase.
    WrongPhase,
    /// The target cell already holds a unit.
    CellOccupied,
    /// A second player has already joined.
    BattleFull,
    /// The joining deposit is below the battle's stake.
    InsufficientStake,
    /// A placement batch failed a roster, range, kind or occupancy check.
    IllegalPlacement,
    /// No cell of the board holds a unit with the requested id.
    UnitNotFound,
    /// The requested coordinate lies outside the board.
    PositionNotFound,
}

} // verus!
