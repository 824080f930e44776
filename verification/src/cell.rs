//! A single grid slot: its alive/dead state, the cached count of live
//! neighbors that drives the generation rule, and its neighbor relations.
//! State flips that fan deltas out to the neighbors live on `board::Board`,
//! which owns the arena the relations index into.

use vstd::prelude::*;
use crate::types::ReferencedCell;

verus! {

/// A position on the padded grid, border included.  Kept on each cell for
/// diagnostics only; runtime addressing is by flat index.
#[derive(Debug, Clone, Copy, PartialEq, Eq, Structural)]
pub struct Point(pub usize, pub usize);

impl Point {
    pub fn new(x: usize, y: usize) -> (p: Point)
        ensures
            p.0 == x,
            p.1 == y,
    {
        Point(x, y)
    }

    pub fn x(&self) -> (r: usize)
        ensures
            r == self.0,
    {
        self.0
    }

    pub fn y(&self) -> (r: usize)
        ensures
            r == self.1,
    {
        self.1
    }
}

/// One grid slot.
#[derive(Debug)]
pub struct Cell {
    /// `true` while the cell is alive.
    pub survive: bool,
    /// Cached number of live cells among the registered neighbors; kept in
    /// `0..=8` by the board's delta propagation.
    pub around_survivers_count: u8,
    /// Relations to the surrounding cells: interior cells hold exactly
    /// eight, sentinel border cells none.
    pub around_cells: Vec<ReferencedCell>,
    /// Own position, for diagnostics.
    pub pt: Point,
}

impl Clone for Cell {
    /// A clone copies the whole state; relations are indices into the
    /// owning arena, so copying them never aliases another board's cells.
    fn clone(&self) -> (c: Cell)
        ensures
            c.survive == self.survive,
            c.around_survivers_count == self.around_survivers_count,
            c.around_cells@ == self.around_cells@,
            c.pt == self.pt,
    {
        let mut relations: Vec<ReferencedCell> = Vec::new();
        let mut i: usize = 0;
        while i < self.around_cells.len()
            invariant
                i <= self.around_cells@.len(),
                relations@ == self.around_cells@.subrange(0, i as int),
            decreases self.around_cells@.len() - i,
        {
            relations.push(self.around_cells[i]);
            i = i + 1;
            proof {
                assert(relations@ =~= self.around_cells@.subrange(0, i as int));
            }
        }
        proof {
            assert(relations@ =~= self.around_cells@);
        }
        Cell {
            survive: self.survive,
            around_survivers_count: self.around_survivers_count,
            around_cells: relations,
            pt: self.pt,
        }
    }
}

impl PartialEq for Cell {
    /// Two cells are compared by their alive state alone; the cached count
    /// and the relations play no part.
    fn eq(&self, rhs: &Cell) -> bool {
        rhs.survive == self.survive
    }
}

impl vstd::std_specs::cmp::PartialEqSpecImpl for Cell {
    open spec fn obeys_eq_spec() -> bool {
        true
    }

    open spec fn eq_spec(&self, rhs: &Cell) -> bool {
        rhs.survive == self.survive
    }
}

impl Cell {
    /// A fresh cell: dead, zero cached count, no relations.
    pub fn new(pt: Point) -> (c: Cell)
        ensures
            !c.survive,
            c.around_survivers_count == 0,
            c.around_cells@.len() == 0,
            c.pt == pt,
    {
        Cell { survive: false, around_cells: Vec::new(), around_survivers_count: 0, pt }
    }

    /// A neighbor reports that it came alive: the cached count rises by
    /// one.  The count never leaves `0..=8`, so a full neighborhood may
    /// not be notified of another birth.
    pub fn notify_born(&mut self)
        requires
            old(self).around_survivers_count < 8,
        ensures
            final(self).around_survivers_count == old(self).around_survivers_count + 1,
            final(self).survive == old(self).survive,
            final(self).around_cells@ == old(self).around_cells@,
            final(self).pt == old(self).pt,
    {
        self.around_survivers_count = self.around_survivers_count + 1;
    }

    /// A neighbor reports that it died: the cached count drops by one.
    pub fn notify_kill(&mut self)
        requires
            old(self).around_survivers_count > 0,
        ensures
            final(self).around_survivers_count == old(self).around_survivers_count - 1,
            final(self).survive == old(self).survive,
            final(self).around_cells@ == old(self).around_cells@,
            final(self).pt == old(self).pt,
    {
        self.around_survivers_count = self.around_survivers_count - 1;
    }

    pub fn get_survive(&self) -> (r: bool)
        ensures
            r == self.survive,
    {
        self.survive
    }

    pub fn get_around_survivers_count(&self) -> (r: u8)
        ensures
            r == self.around_survivers_count,
    {
        self.around_survivers_count
    }

    pub fn get_point(&self) -> (r: Point)
        ensures
            r == self.pt,
    {
        self.pt.clone()
    }

    /// Appends a neighbor relation.  Once eight relations are registered
    /// further registrations are silently ignored: the fan-out is capped,
    /// so wiring the board a second time cannot corrupt the neighbor sets.
    pub fn set_arround_cells(&mut self, cell: ReferencedCell)
        ensures
            old(self).around_cells@.len() < 8
                ==> final(self).around_cells@ == old(self).around_cells@.push(cell),
            old(self).around_cells@.len() >= 8
                ==> final(self).around_cells@ == old(self).around_cells@,
            final(self).survive == old(self).survive,
            final(self).around_survivers_count == old(self).around_survivers_count,
            final(self).pt == old(self).pt,
    {
        if self.around_cells.len() < 8 {
            self.around_cells.push(cell);
        }
    }

    pub fn get_aroundcell_refcnts(&self) -> (r: usize)
        ensures
            r == self.around_cells@.len(),
    {
        self.around_cells.len()
    }
}

} // verus!
