use vstd::prelude::*;

verus! {

/// A neighbor relation: the flat, row-major index of the referenced cell
/// within the arena of its owning board.  Cells form a cyclic neighbor
/// graph, so relations are indices rather than owning links; all access
/// goes through the board that owns the arena.
pub type ReferencedCell = usize;

} // verus!
