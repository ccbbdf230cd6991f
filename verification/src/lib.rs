//! A max-heap priority queue whose elements live in a positional,
//! slot-addressed storage vector rather than in contiguous memory.
//!
//! The heap maintains the max-heap ordering through sift-up and sift-down,
//! touching only the cells along one root-to-leaf path per operation, and
//! removes the root in constant storage work by swapping in the last element.

mod heap;
mod model;
mod storage_vec;

pub use heap::BinaryHeap;
pub use model::HeapOp;
pub use model::heap_ordered;
pub use model::larger_child_of;
pub use model::lemma_pop_heap;
pub use model::lemma_pop_sorted;
pub use model::lemma_push_heap;
pub use model::lemma_push_new_max;
pub use model::lemma_root_max;
pub use model::lemma_run_seq;
pub use model::parent_of;
pub use model::pop_seq;
pub use model::push_all_seq;
pub use model::push_count;
pub use model::push_seq;
pub use model::run_seq;
pub use model::served_pop_count;
pub use model::sift_down_seq;
pub use model::sift_up_seq;
pub use model::step_seq;
pub use model::swap_seq;
pub use storage_vec::Iter;
pub use storage_vec::StorageVec;
