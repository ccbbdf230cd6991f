//! A positional container over slot-addressed storage cells.
//!
//! Each logical index maps to exactly one storage cell. Indices are stable
//! across every operation except `swap_remove`, which relocates the last
//! element into the vacated slot and shrinks the length by one.

use vstd::prelude::*;

verus! {

/// A positional container: index `i` holds the contents of storage cell `i`.
///
/// The length always fits in a `u32`, as cell addresses are 32-bit.
#[derive(Debug)]
pub struct StorageVec {
    cells: Vec<u64>,
}

impl View for StorageVec {
    type V = Seq<u64>;

    closed spec fn view(&self) -> Seq<u64> {
        self.cells@
    }
}

impl StorageVec {
    #[verifier::type_invariant]
    spec fn bounded(self) -> bool {
        self.cells@.len() <= u32::MAX
    }

    /// Creates an empty container.
    pub fn new() -> (r: Self)
        ensures
            r@ == Seq::<u64>::empty(),
    {
        StorageVec { cells: Vec::new() }
    }

    /// Returns the number of occupied cells.
    pub fn len(&self) -> (r: u32)
        ensures
            r == self@.len(),
    {
        proof {
            use_type_invariant(self);
        }
        self.cells.len() as u32
    }

    /// Returns `true` when no cell is occupied.
    pub fn is_empty(&self) -> (r: bool)
        ensures
            r == (self@.len() == 0),
    {
        self.cells.is_empty()
    }

    /// Fetches the element at `index`; absent when `index` is out of range.
    pub fn get(&self, index: u32) -> (r: Option<u64>)
        ensures
            index < self@.len() ==> r == Some(self@[index as int]),
            index >= self@.len() ==> r is None,
    {
        if (index as usize) < self.cells.len() {
            Some(self.cells[index as usize])
        } else {
            None
        }
    }

    /// Fetches the element in the first cell; absent when the container is empty.
    pub fn first(&self) -> (r: Option<u64>)
        ensures
            self@.len() > 0 ==> r == Some(self@[0]),
            self@.len() == 0 ==> r is None,
    {
        self.get(0)
    }

    /// Appends `value` at the new last index.
    pub fn push(&mut self, value: u64)
        requires
            old(self)@.len() < u32::MAX,
        ensures
            final(self)@ == old(self)@.push(value),
    {
        proof {
            use_type_invariant(&*self);
        }
        let mut cells: Vec<u64> = Vec::new();
        core::mem::swap(&mut cells, &mut self.cells);
        cells.push(value);
        self.cells = cells;
    }

    /// Swaps the contents of the cells at `a` and `b`.
    pub fn swap(&mut self, a: u32, b: u32)
        requires
            a < old(self)@.len(),
            b < old(self)@.len(),
        ensures
            final(self)@ == old(self)@.update(a as int, old(self)@[b as int]).update(
                b as int,
                old(self)@[a as int],
            ),
    {
        proof {
            use_type_invariant(&*self);
        }
        let mut cells: Vec<u64> = Vec::new();
        core::mem::swap(&mut cells, &mut self.cells);
        let va = cells[a as usize];
        let vb = cells[b as usize];
        cells[a as usize] = vb;
        cells[b as usize] = va;
        self.cells = cells;
    }

    /// Removes the element at `index` by moving the last element into its
    /// slot and shrinking the length by one; absent when out of range.
    pub fn swap_remove(&mut self, index: u32) -> (r: Option<u64>)
        ensures
            index < old(self)@.len() ==> {
                &&& r == Some(old(self)@[index as int])
                &&& final(self)@ == old(self)@.update(index as int, old(self)@.last()).drop_last()
            },
            index >= old(self)@.len() ==> {
                &&& r is None
                &&& final(self)@ == old(self)@
            },
    {
        proof {
            use_type_invariant(&*self);
        }
        if (index as usize) < self.cells.len() {
            let mut cells: Vec<u64> = Vec::new();
            core::mem::swap(&mut cells, &mut self.cells);
            let removed = cells.swap_remove(index as usize);
            self.cells = cells;
            Some(removed)
        } else {
            None
        }
    }

    /// Returns a lazy cursor over all cells in index order.
    pub fn iter(&self) -> (r: Iter<'_>)
        ensures
            r.elements() == self@,
            r.cursor() == 0,
    {
        Iter { vec: self, next_index: 0 }
    }
}

/// A lazy cursor over the cells of a `StorageVec` in index order.
///
/// Each step costs one storage read; stopping early costs nothing beyond
/// what has already been read.
pub struct Iter<'a> {
    vec: &'a StorageVec,
    next_index: u32,
}

impl<'a> Iter<'a> {
    /// The full element sequence under traversal, in index order.
    pub closed spec fn elements(self) -> Seq<u64> {
        self.vec@
    }

    /// The index of the next element to yield.
    pub closed spec fn cursor(self) -> int {
        self.next_index as int
    }

    /// Yields the element at the cursor and advances; absent once every
    /// index has been visited.
    pub fn next(&mut self) -> (r: Option<u64>)
        ensures
            final(self).elements() == old(self).elements(),
            old(self).cursor() < old(self).elements().len() ==> {
                &&& r == Some(old(self).elements()[old(self).cursor()])
                &&& final(self).cursor() == old(self).cursor() + 1
            },
            old(self).cursor() >= old(self).elements().len() ==> {
                &&& r is None
                &&& final(self).cursor() == old(self).cursor()
            },
    {
        proof {
            use_type_invariant(self.vec);
        }
        match self.vec.get(self.next_index) {
            Some(value) => {
                self.next_index = self.next_index + 1;
                Some(value)
            },
            None => None,
        }
    }
}

} // verus!
