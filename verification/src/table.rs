//! The in-memory table value that the coordination core hands around.
//!
//! The core treats the on-disk codec as an external collaborator, so all it
//! needs of a table is an ordered collection of rows that can be grown,
//! searched and compared. A row is a single text value.

use vstd::prelude::*;

verus! {

/// A materialized table value: an ordered sequence of rows.
pub struct Table {
    rows: Vec<String>,
}

impl View for Table {
    type V = Seq<Seq<char>>;

    closed spec fn view(&self) -> Seq<Seq<char>> {
        Seq::new(self.rows@.len(), |i: int| self.rows@[i]@)
    }
}

impl Table {
    /// The empty template table: what the storage collaborator materializes
    /// for a key that has never been stored.
    pub fn new() -> (t: Table)
        ensures
            t@ == Seq::<Seq<char>>::empty(),
    {
        let t = Table { rows: Vec::new() };
        proof {
            assert(t@ =~= Seq::<Seq<char>>::empty());
        }
        t
    }

    /// How many rows the table holds.
    pub fn len(&self) -> (n: usize)
        ensures
            n == self@.len(),
    {
        self.rows.len()
    }

    /// The row at position `i`.
    pub fn row(&self, i: usize) -> (r: &String)
        requires
            i < self@.len(),
        ensures
            r@ == self@[i as int],
    {
        &self.rows[i]
    }

    /// Appends one row at the end of the table.
    pub fn insert_row(&mut self, row: String)
        ensures
            final(self)@ == old(self)@.push(row@),
    {
        self.rows.push(row);
        proof {
            assert(self@ =~= old(self)@.push(row@));
        }
    }

    /// Whether some row of the table equals `row`.
    pub fn contains_row(&self, row: &String) -> (r: bool)
        ensures
            r == self@.contains(row@),
    {
        let n = self.rows.len();
        let mut i: usize = 0;
        while i < n
            invariant
                n == self.rows@.len(),
                i <= n,
                forall|j: int| 0 <= j < i ==> self@[j] != row@,
            decreases n - i,
        {
            if self.rows[i] == *row {
                assert(self@[i as int] == row@);
                return true;
            }
            i = i + 1;
        }
        false
    }

    /// An independent copy with the same rows.
    pub fn duplicate(&self) -> (t: Table)
        ensures
            t@ == self@,
    {
        let n = self.rows.len();
        let mut rows: Vec<String> = Vec::new();
        let mut i: usize = 0;
        while i < n
            invariant
                n == self.rows@.len(),
                i <= n,
                rows@.len() == i,
                forall|j: int| 0 <= j < i ==> rows@[j]@ == self@[j],
            decreases n - i,
        {
            rows.push(self.rows[i].clone());
            i = i + 1;
        }
        let t = Table { rows };
        proof {
            assert(t@ =~= self@);
        }
        t
    }
}

} // verus!
