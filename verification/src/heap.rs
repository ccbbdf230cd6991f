//! A max-heap priority queue over a `StorageVec`.

use vstd::prelude::*;

use crate::model::heap_ordered;
use crate::model::larger_child_of;
use crate::model::lemma_pop_heap;
use crate::model::lemma_push_heap;
use crate::model::lemma_root_max;
use crate::model::pop_seq;
use crate::model::push_all_seq;
use crate::model::push_seq;
use crate::model::sift_down_seq;
use crate::model::sift_up_seq;
use crate::model::swap_seq;
use crate::storage_vec::Iter;
use crate::storage_vec::StorageVec;

verus! {

/// A max-heap: `push` and `pop` touch only the storage cells along one
/// root-to-leaf path, and the element in cell 0, if any, is the maximum.
#[derive(Debug)]
pub struct BinaryHeap {
    /// The cells that hold the elements, in heap order.
    elems: StorageVec,
}

impl View for BinaryHeap {
    type V = Seq<u64>;

    closed spec fn view(&self) -> Seq<u64> {
        self.elems@
    }
}

impl BinaryHeap {
    #[verifier::type_invariant]
    spec fn well_formed(self) -> bool {
        heap_ordered(self.elems@)
    }

    /// Creates a new empty heap. No storage access.
    pub fn new() -> (r: Self)
        ensures
            r@ == Seq::<u64>::empty(),
            heap_ordered(r@),
    {
        BinaryHeap { elems: StorageVec::new() }
    }

    /// Returns the number of elements in the heap, also referred to as its
    /// 'length'.
    pub fn len(&self) -> (r: u32)
        ensures
            r == self@.len(),
    {
        self.elems.len()
    }

    /// Returns `true` if the heap contains no elements.
    pub fn is_empty(&self) -> (r: bool)
        ensures
            r == (self@.len() == 0),
    {
        self.elems.is_empty()
    }

    /// Returns the greatest element of the heap, absent if the heap is
    /// empty. One lazy cell load.
    pub fn peek(&self) -> (r: Option<u64>)
        ensures
            self@.len() == 0 ==> r is None,
            self@.len() > 0 ==> {
                &&& r == Some(self@[0])
                &&& forall|i: int| 0 <= i < self@.len() ==> self@[0] >= #[trigger] self@[i]
            },
    {
        proof {
            use_type_invariant(self);
            lemma_root_max(self@);
        }
        self.elems.first()
    }

    /// Returns a lazy cursor over all elements in the storage's index
    /// order, which beyond the root is not value order. Prefer bounding
    /// consumption on large heaps: every yielded element is one cell load.
    pub fn iter(&self) -> (r: Iter<'_>)
        ensures
            r.elements() == self@,
            r.cursor() == 0,
    {
        self.elems.iter()
    }

    /// Pushes the given element onto the heap, then restores the ordering
    /// by sifting it up.
    pub fn push(&mut self, value: u64)
        requires
            old(self)@.len() < u32::MAX,
        ensures
            final(self)@ == push_seq(old(self)@, value),
            final(self)@.len() == old(self)@.len() + 1,
            final(self)@.to_multiset() == old(self)@.to_multiset().insert(value),
            heap_ordered(final(self)@),
    {
        proof {
            use_type_invariant(&*self);
            lemma_push_heap(self@, value);
        }
        let mut elems = StorageVec::new();
        core::mem::swap(&mut elems, &mut self.elems);
        let old_len = elems.len();
        elems.push(value);
        sift_up(&mut elems, old_len);
        self.elems = elems;
    }

    /// Pops the greatest element from the heap and returns it, absent if
    /// the heap is empty. The last element moves into the root slot and is
    /// sifted down.
    pub fn pop(&mut self) -> (r: Option<u64>)
        ensures
            old(self)@.len() == 0 ==> {
                &&& r is None
                &&& final(self)@ == old(self)@
            },
            old(self)@.len() > 0 ==> {
                &&& r == Some(old(self)@[0])
                &&& final(self)@ == pop_seq(old(self)@)
                &&& final(self)@.len() == old(self)@.len() - 1
                &&& final(self)@.to_multiset() == old(self)@.to_multiset().remove(old(self)@[0])
                &&& forall|i: int|
                    0 <= i < final(self)@.len() ==> old(self)@[0] >= #[trigger] final(self)@[i]
            },
            heap_ordered(final(self)@),
    {
        proof {
            use_type_invariant(&*self);
            if self@.len() > 0 {
                lemma_pop_heap(self@);
            }
        }
        let mut elems = StorageVec::new();
        core::mem::swap(&mut elems, &mut self.elems);
        let removed = elems.swap_remove(0);
        sift_down(&mut elems, 0);
        self.elems = elems;
        removed
    }

    /// Pushes every element of `values` onto the heap, in source order.
    /// Each push costs one sift-up pass.
    pub fn extend(&mut self, values: &Vec<u64>)
        requires
            old(self)@.len() + values@.len() <= u32::MAX,
        ensures
            final(self)@ == push_all_seq(old(self)@, values@),
            final(self)@.len() == old(self)@.len() + values@.len(),
            heap_ordered(final(self)@),
    {
        proof {
            use_type_invariant(&*self);
            assert(values@.skip(0) =~= values@);
        }
        let ghost start = self@;
        let n = values.len();
        let mut i: usize = 0;
        while i < n
            invariant
                i <= n,
                n == values@.len(),
                self@.len() == start.len() + i,
                start.len() + n <= u32::MAX,
                push_all_seq(self@, values@.skip(i as int)) == push_all_seq(start, values@),
            decreases n - i,
        {
            proof {
                assert(values@.skip(i as int)[0] == values@[i as int]);
                assert(values@.skip(i as int).drop_first() =~= values@.skip(i as int + 1));
            }
            self.push(values[i]);
            i = i + 1;
        }
        proof {
            assert(values@.skip(n as int) =~= Seq::<u64>::empty());
            use_type_invariant(&*self);
        }
    }

    /// Builds a heap by pushing every element of `values`, in source
    /// order, onto an empty heap.
    pub fn from_vec(values: &Vec<u64>) -> (r: Self)
        requires
            values@.len() <= u32::MAX,
        ensures
            r@ == push_all_seq(Seq::<u64>::empty(), values@),
            heap_ordered(r@),
    {
        let mut heap = BinaryHeap::new();
        heap.extend(values);
        heap
    }
}

impl Default for BinaryHeap {
    /// Default construction is `new()`: the empty heap.
    fn default() -> (r: Self)
        ensures
            r@ == Seq::<u64>::empty(),
    {
        BinaryHeap::new()
    }
}

impl PartialEq for BinaryHeap {
    /// Two heaps are equal exactly when their elements agree pairwise in
    /// underlying storage order; the same values inserted in a different
    /// sequence may legitimately compare unequal.
    fn eq(&self, other: &BinaryHeap) -> (r: bool) {
        let n = self.elems.len();
        if n != other.elems.len() {
            return false;
        }
        let mut i: u32 = 0;
        while i < n
            invariant
                i <= n,
                n == self@.len(),
                n == other@.len(),
                forall|k: int| 0 <= k < i ==> self@[k] == #[trigger] other@[k],
            decreases n - i,
        {
            let a = self.elems.get(i).unwrap();
            let b = other.elems.get(i).unwrap();
            if a != b {
                return false;
            }
            i = i + 1;
        }
        proof {
            assert(self@ =~= other@);
        }
        true
    }
}

impl vstd::std_specs::cmp::PartialEqSpecImpl for BinaryHeap {
    open spec fn obeys_eq_spec() -> bool {
        true
    }

    open spec fn eq_spec(&self, other: &BinaryHeap) -> bool {
        self@ == other@
    }
}

impl Eq for BinaryHeap {
}

/// Moves the element at `index` up the heap while it exceeds its parent.
fn sift_up(elems: &mut StorageVec, index: u32)
    requires
        index < old(elems)@.len(),
    ensures
        final(elems)@ == sift_up_seq(old(elems)@, index as int),
{
    let ghost orig = elems@;
    let mut j = index;
    loop
        invariant
            j < elems@.len(),
            elems@.len() == orig.len(),
            sift_up_seq(elems@, j as int) == sift_up_seq(orig, index as int),
        ensures
            elems@ == sift_up_seq(orig, index as int),
        decreases j,
    {
        if j == 0 {
            break ;
        }
        let parent_index = (j - 1) / 2;
        let parent = elems.get(parent_index).unwrap();
        let child = elems.get(j).unwrap();
        if child > parent {
            proof {
                assert(swap_seq(elems@, parent_index as int, j as int) == elems@.update(
                    parent_index as int,
                    elems@[j as int],
                ).update(j as int, elems@[parent_index as int]));
            }
            elems.swap(parent_index, j);
            j = parent_index;
        } else {
            break ;
        }
    }
}

/// Moves the element at `index` down the heap while a child exceeds it,
/// always descending into the larger child.
fn sift_down(elems: &mut StorageVec, index: u32)
    ensures
        final(elems)@ == sift_down_seq(old(elems)@, index as int),
{
    let ghost orig = elems@;
    let end = elems.len();
    let mut pos = index;
    loop
        invariant
            elems@.len() == orig.len(),
            end == orig.len(),
            sift_down_seq(elems@, pos as int) == sift_down_seq(orig, index as int),
        ensures
            elems@ == sift_down_seq(orig, index as int),
        decreases orig.len() - pos,
    {
        let ghost pre = elems@;
        if pos >= end {
            proof {
                assert(larger_child_of(pre, pos as int) >= pre.len());
            }
            break ;
        }
        let child64 = 2 * (pos as u64) + 1;
        if child64 >= end as u64 {
            proof {
                assert(larger_child_of(pre, pos as int) >= pre.len());
            }
            break ;
        }
        let mut child = child64 as u32;
        let right64 = child64 + 1;
        if right64 < end as u64 {
            let left_val = elems.get(child).unwrap();
            let right_val = elems.get(right64 as u32).unwrap();
            if left_val <= right_val {
                child = right64 as u32;
            }
        }
        proof {
            assert(child as int == larger_child_of(pre, pos as int));
        }
        let pos_val = elems.get(pos).unwrap();
        let child_val = elems.get(child).unwrap();
        if pos_val < child_val {
            elems.swap(pos, child);
            pos = child;
        } else {
            break ;
        }
    }
}

} // verus!
