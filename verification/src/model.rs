//! The mathematical model of the heap: the max-heap ordering, the sift
//! passes as functions on plain sequences, and the laws they obey.

use vstd::prelude::*;

verus! {

/// The parent index of node `i` in the implicit binary tree laid out over
/// the sequence; meaningful for `i >= 1`.
pub open spec fn parent_of(i: int) -> int {
    (i - 1) / 2
}

/// The max-heap ordering: every node below the root is bounded by its parent.
pub open spec fn heap_ordered(s: Seq<u64>) -> bool {
    forall|i: int| 1 <= i < s.len() ==> s[parent_of(i)] >= #[trigger] s[i]
}

/// The sequence with the contents of cells `a` and `b` exchanged.
pub open spec fn swap_seq(s: Seq<u64>, a: int, b: int) -> Seq<u64> {
    s.update(a, s[b]).update(b, s[a])
}

/// The sift-up pass: while the node at `i` exceeds its parent, exchange the
/// two and continue from the parent.
pub open spec fn sift_up_seq(s: Seq<u64>, i: int) -> Seq<u64>
    decreases i,
{
    if 0 < i < s.len() && s[i] > s[parent_of(i)] {
        sift_up_seq(swap_seq(s, parent_of(i), i), parent_of(i))
    } else {
        s
    }
}

/// The state after appending `value` at the new last index and letting
/// sift-up restore the ordering.
pub open spec fn push_seq(s: Seq<u64>, value: u64) -> Seq<u64> {
    sift_up_seq(s.push(value), s.len() as int)
}

/// The index of the larger child of `p`: the right child exactly when it
/// exists and its value is at least the left child's.
pub open spec fn larger_child_of(s: Seq<u64>, p: int) -> int {
    if 2 * p + 2 < s.len() && s[2 * p + 1] <= s[2 * p + 2] {
        2 * p + 2
    } else {
        2 * p + 1
    }
}

/// The sift-down pass: while some child of `p` exceeds it, exchange `p`
/// with its larger child and continue from that child.
pub open spec fn sift_down_seq(s: Seq<u64>, p: int) -> Seq<u64>
    decreases s.len() - p,
{
    if 0 <= p && larger_child_of(s, p) < s.len() && s[p] < s[larger_child_of(s, p)] {
        sift_down_seq(swap_seq(s, p, larger_child_of(s, p)), larger_child_of(s, p))
    } else {
        s
    }
}

/// The state after removing the root: the last element moves into slot 0,
/// the length shrinks by one, and sift-down restores the ordering.
pub open spec fn pop_seq(s: Seq<u64>) -> Seq<u64>
    recommends
        s.len() > 0,
{
    sift_down_seq(s.update(0, s.last()).drop_last(), 0)
}

/// Exchanging two cells preserves the length and the multiset of elements.
pub proof fn lemma_swap_multiset(s: Seq<u64>, a: int, b: int)
    requires
        0 <= a < s.len(),
        0 <= b < s.len(),
    ensures
        swap_seq(s, a, b).len() == s.len(),
        swap_seq(s, a, b).to_multiset() == s.to_multiset(),
{
    broadcast use vstd::seq_lib::to_multiset_update;
    broadcast use vstd::seq_lib::to_multiset_contains;
    broadcast use vstd::multiset::group_multiset_axioms;

    if a == b {
        assert(swap_seq(s, a, b) =~= s);
    } else {
        let s1 = s.update(a, s[b]);
        assert(s.contains(s[a]));
        assert(s1[a] == s[b] && s1[b] == s[b]);
        assert(swap_seq(s, a, b).to_multiset() =~= s.to_multiset());
    }
}

/// The children of node `p` sit exactly at indices `2p + 1` and `2p + 2`.
proof fn lemma_child_indices(p: int, c: int)
    requires
        c >= 1,
        parent_of(c) == p,
    ensures
        c == 2 * p + 1 || c == 2 * p + 2,
{
    vstd::arithmetic::div_mod::lemma_fundamental_div_mod(c - 1, 2);
}

/// Heap ordering that may fail only at the link from `j` up to its parent,
/// while the element above `j` still bounds `j`'s own children.
spec fn up_ok(s: Seq<u64>, j: int) -> bool {
    &&& 0 <= j < s.len()
    &&& forall|i: int| 1 <= i < s.len() && i != j ==> s[parent_of(i)] >= #[trigger] s[i]
    &&& (j > 0 ==> forall|c: int|
        1 <= c < s.len() && parent_of(c) == j ==> s[parent_of(j)] >= #[trigger] s[c])
}

/// Sift-up turns a sequence that is ordered except along the link at `j`
/// into a heap-ordered rearrangement of the same elements.
proof fn lemma_sift_up(s: Seq<u64>, j: int)
    requires
        up_ok(s, j),
    ensures
        heap_ordered(sift_up_seq(s, j)),
        sift_up_seq(s, j).len() == s.len(),
        sift_up_seq(s, j).to_multiset() == s.to_multiset(),
    decreases j,
{
    if 0 < j && s[j] > s[parent_of(j)] {
        let p = parent_of(j);
        let s2 = swap_seq(s, p, j);
        assert(0 <= p < j);
        assert(s2[p] == s[j] && s2[j] == s[p]);
        assert(forall|k: int| 0 <= k < s.len() && k != p && k != j ==> s2[k] == #[trigger] s[k]);
        assert forall|i: int| 1 <= i < s2.len() && i != p implies s2[parent_of(i)] >= #[trigger] s2[i] by {
            assert(0 <= parent_of(i) < i);
            if i == j {
            } else if parent_of(i) == j {
                lemma_child_indices(j, i);
                assert(s[parent_of(j)] >= s[i]);
            } else if parent_of(i) == p {
                assert(s[parent_of(i)] >= s[i]);
            } else {
                assert(s[parent_of(i)] >= s[i]);
            }
        }
        if p > 0 {
            assert forall|c: int| 1 <= c < s2.len() && parent_of(c) == p implies s2[parent_of(p)] >= #[trigger] s2[c] by {
                assert(0 <= parent_of(p) < p);
                lemma_child_indices(p, c);
                if c == j {
                    assert(s[parent_of(p)] >= s[p]);
                } else {
                    assert(s[parent_of(p)] >= s[p]);
                    assert(s[parent_of(c)] >= s[c]);
                }
            }
        }
        assert(up_ok(s2, p));
        lemma_swap_multiset(s, p, j);
        lemma_sift_up(s2, p);
    } else {
        assert forall|i: int| 1 <= i < s.len() implies s[parent_of(i)] >= #[trigger] s[i] by {
            if i != j {
                assert(s[parent_of(i)] >= s[i]);
            }
        }
    }
}

/// Appending to a heap-ordered sequence leaves at most the last link,
/// from the new leaf up to its parent, out of order.
proof fn lemma_push_up_ok(s: Seq<u64>, value: u64)
    requires
        heap_ordered(s),
    ensures
        up_ok(s.push(value), s.len() as int),
{
    let t = s.push(value);
    let j = s.len() as int;
    assert forall|i: int| 1 <= i < t.len() && i != j implies t[parent_of(i)] >= #[trigger] t[i] by {
        assert(0 <= parent_of(i) < i);
        assert(s[parent_of(i)] >= s[i]);
    }
    if j > 0 {
        assert forall|c: int| 1 <= c < t.len() && parent_of(c) == j implies t[parent_of(j)] >= #[trigger] t[c] by {
            lemma_child_indices(j, c);
        }
    }
}

/// Pushing appends the value and restores the ordering: the result is
/// heap-ordered, one element longer, and holds exactly the old elements
/// together with `value`.
pub proof fn lemma_push_heap(s: Seq<u64>, value: u64)
    requires
        heap_ordered(s),
    ensures
        heap_ordered(push_seq(s, value)),
        push_seq(s, value).len() == s.len() + 1,
        push_seq(s, value).to_multiset() == s.to_multiset().insert(value),
{
    broadcast use vstd::seq_lib::to_multiset_build;

    lemma_push_up_ok(s, value);
    lemma_sift_up(s.push(value), s.len() as int);
}

/// Heap ordering that may fail only along the links from `p` down to its
/// children, while the element above `p` still bounds those children.
spec fn down_ok(s: Seq<u64>, p: int) -> bool {
    &&& 0 <= p
    &&& forall|i: int| 1 <= i < s.len() && parent_of(i) != p ==> s[parent_of(i)] >= #[trigger] s[i]
    &&& (p > 0 ==> forall|c: int|
        1 <= c < s.len() && parent_of(c) == p ==> s[parent_of(p)] >= #[trigger] s[c])
}

/// Sift-down turns a sequence that is ordered except below `p` into a
/// heap-ordered rearrangement of the same elements.
proof fn lemma_sift_down(s: Seq<u64>, p: int)
    requires
        down_ok(s, p),
    ensures
        heap_ordered(sift_down_seq(s, p)),
        sift_down_seq(s, p).len() == s.len(),
        sift_down_seq(s, p).to_multiset() == s.to_multiset(),
    decreases s.len() - p,
{
    let c = larger_child_of(s, p);
    if c < s.len() && s[p] < s[c] {
        let s2 = swap_seq(s, p, c);
        assert(c == 2 * p + 1 || c == 2 * p + 2);
        assert(parent_of(c) == p);
        assert(s2[p] == s[c] && s2[c] == s[p]);
        assert(forall|k: int| 0 <= k < s.len() && k != p && k != c ==> s2[k] == #[trigger] s[k]);
        assert forall|i: int| 1 <= i < s2.len() && parent_of(i) != c implies s2[parent_of(i)] >= #[trigger] s2[i] by {
            assert(0 <= parent_of(i) < i);
            if i == c {
            } else if i == p {
                assert(s[parent_of(p)] >= s[c]);
            } else if parent_of(i) == p {
                lemma_child_indices(p, i);
            } else {
                assert(s[parent_of(i)] >= s[i]);
            }
        }
        assert forall|g: int| 1 <= g < s2.len() && parent_of(g) == c implies s2[parent_of(c)] >= #[trigger] s2[g] by {
            assert(c < g);
            assert(s[parent_of(g)] >= s[g]);
        }
        assert(down_ok(s2, c));
        lemma_swap_multiset(s, p, c);
        lemma_sift_down(s2, c);
    } else {
        assert forall|i: int| 1 <= i < s.len() implies s[parent_of(i)] >= #[trigger] s[i] by {
            if parent_of(i) == p {
                lemma_child_indices(p, i);
                assert(c < s.len());
                assert(s[p] >= s[c]);
            } else {
                assert(s[parent_of(i)] >= s[i]);
            }
        }
    }
}

/// Replacing the root with the last element and dropping the last slot
/// disturbs the ordering only below the root.
proof fn lemma_pop_down_ok(s: Seq<u64>)
    requires
        heap_ordered(s),
        s.len() > 0,
    ensures
        down_ok(s.update(0, s.last()).drop_last(), 0),
{
    let t = s.update(0, s.last()).drop_last();
    assert forall|i: int| 1 <= i < t.len() && parent_of(i) != 0 implies t[parent_of(i)] >= #[trigger] t[i] by {
        assert(1 <= parent_of(i) < i);
        assert(t[i] == s[i] && t[parent_of(i)] == s[parent_of(i)]);
        assert(s[parent_of(i)] >= s[i]);
    }
}

/// Moving the last element into the root slot and dropping the last slot
/// removes one occurrence of the old root from the element multiset.
proof fn lemma_removed_root_multiset(s: Seq<u64>)
    requires
        s.len() > 0,
    ensures
        s.update(0, s.last()).drop_last().to_multiset() == s.to_multiset().remove(s[0]),
{
    broadcast use vstd::seq_lib::to_multiset_update;
    broadcast use vstd::seq_lib::to_multiset_remove;
    broadcast use vstd::seq_lib::to_multiset_build;
    broadcast use vstd::seq_lib::to_multiset_contains;
    broadcast use vstd::multiset::group_multiset_axioms;

    let s1 = s.update(0, s.last()).drop_last();
    assert(s.contains(s[0]));
    if s.len() == 1 {
        assert(s =~= Seq::<u64>::empty().push(s[0]));
        assert(s1 =~= Seq::<u64>::empty());
        assert(s1.to_multiset() =~= s.to_multiset().remove(s[0]));
    } else {
        let su = s.update(0, s.last());
        assert(su[su.len() - 1] == s.last());
        assert(su.remove(su.len() - 1) =~= s1);
        assert(s1.to_multiset() =~= s.to_multiset().remove(s[0]));
    }
}

/// Popping removes exactly the root, which bounds everything that stays:
/// the remainder is heap-ordered, one element shorter, and holds exactly
/// the old elements minus one occurrence of the old root.
#[verifier::rlimit(30)]
pub proof fn lemma_pop_heap(s: Seq<u64>)
    requires
        heap_ordered(s),
        s.len() > 0,
    ensures
        heap_ordered(pop_seq(s)),
        pop_seq(s).len() == s.len() - 1,
        pop_seq(s).to_multiset() == s.to_multiset().remove(s[0]),
        forall|i: int| 0 <= i < pop_seq(s).len() ==> s[0] >= #[trigger] pop_seq(s)[i],
{
    let s1 = s.update(0, s.last()).drop_last();
    lemma_pop_down_ok(s);
    lemma_sift_down(s1, 0);
    lemma_removed_root_multiset(s);
    let t = pop_seq(s);
    lemma_root_max(s);
    assert forall|i: int| 0 <= i < t.len() implies s[0] >= #[trigger] t[i] by {
        broadcast use vstd::seq_lib::to_multiset_contains;
        broadcast use vstd::multiset::group_multiset_axioms;

        assert(t.contains(t[i]));
        assert(t.to_multiset().count(t[i]) > 0);
        assert(s.to_multiset().count(t[i]) > 0);
        assert(s.contains(t[i]));
        let k = choose|k: int| 0 <= k < s.len() && s[k] == t[i];
        assert(s[0] >= s[k]);
    }
}

/// Repeatedly popping yields a non-increasing sequence: the root removed
/// from a heap bounds the root that the next pop removes.
pub proof fn lemma_pop_sorted(s: Seq<u64>)
    requires
        heap_ordered(s),
        s.len() >= 2,
    ensures
        pop_seq(s).len() > 0,
        s[0] >= pop_seq(s)[0],
{
    lemma_pop_heap(s);
}

/// Pushing a value that exceeds the current maximum makes it the new root.
pub proof fn lemma_push_new_max(s: Seq<u64>, value: u64)
    requires
        heap_ordered(s),
        s.len() > 0 ==> value > s[0],
    ensures
        push_seq(s, value)[0] == value,
{
    broadcast use vstd::seq_lib::to_multiset_contains;
    broadcast use vstd::multiset::group_multiset_axioms;

    let t = push_seq(s, value);
    lemma_push_heap(s, value);
    assert(t.to_multiset().count(value) > 0);
    assert(t.contains(value));
    lemma_root_max(t);
    let k = choose|k: int| 0 <= k < t.len() && t[k] == value;
    assert(t[0] >= t[k]);
    if t[0] != value {
        assert(t.contains(t[0]));
        assert(t.to_multiset().count(t[0]) > 0);
        assert(s.to_multiset().count(t[0]) > 0);
        assert(s.contains(t[0]));
        let m = choose|m: int| 0 <= m < s.len() && s[m] == t[0];
        lemma_root_max(s);
        assert(s[0] >= s[m]);
        assert(false);
    }
}

/// The state after pushing every element of `values`, in order.
pub open spec fn push_all_seq(s: Seq<u64>, values: Seq<u64>) -> Seq<u64>
    decreases values.len(),
{
    if values.len() == 0 {
        s
    } else {
        push_all_seq(push_seq(s, values[0]), values.drop_first())
    }
}

/// One request made of a heap: append a value, or remove the maximum.
pub enum HeapOp {
    Push(u64),
    Pop,
}

/// The state after serving one request.
pub open spec fn step_seq(s: Seq<u64>, op: HeapOp) -> Seq<u64> {
    match op {
        HeapOp::Push(value) => push_seq(s, value),
        HeapOp::Pop => if s.len() == 0 {
            s
        } else {
            pop_seq(s)
        },
    }
}

/// The state after serving every request of `ops`, in order.
pub open spec fn run_seq(s: Seq<u64>, ops: Seq<HeapOp>) -> Seq<u64>
    decreases ops.len(),
{
    if ops.len() == 0 {
        s
    } else {
        run_seq(step_seq(s, ops[0]), ops.drop_first())
    }
}

/// The number of push requests in `ops`.
pub open spec fn push_count(ops: Seq<HeapOp>) -> int
    decreases ops.len(),
{
    if ops.len() == 0 {
        0
    } else {
        (match ops[0] {
            HeapOp::Push(_) => 1int,
            HeapOp::Pop => 0int,
        }) + push_count(ops.drop_first())
    }
}

/// The number of pop requests in `ops` that find a non-empty heap when the
/// run starts from state `s`.
pub open spec fn served_pop_count(s: Seq<u64>, ops: Seq<HeapOp>) -> int
    decreases ops.len(),
{
    if ops.len() == 0 {
        0
    } else {
        (match ops[0] {
            HeapOp::Push(_) => 0int,
            HeapOp::Pop => if s.len() > 0 {
                1int
            } else {
                0int
            },
        }) + served_pop_count(step_seq(s, ops[0]), ops.drop_first())
    }
}

/// Size bookkeeping over a run of requests: a heap-ordered start stays
/// heap-ordered, and the final length is the start length plus the pushes
/// minus the pops that found an element. Applied to each prefix of a
/// request sequence, this covers every intermediate state of the run.
pub proof fn lemma_run_seq(s: Seq<u64>, ops: Seq<HeapOp>)
    requires
        heap_ordered(s),
    ensures
        heap_ordered(run_seq(s, ops)),
        run_seq(s, ops).len() == s.len() + push_count(ops) - served_pop_count(s, ops),
        0 <= served_pop_count(s, ops) <= s.len() + push_count(ops),
    decreases ops.len(),
{
    if ops.len() > 0 {
        let s2 = step_seq(s, ops[0]);
        match ops[0] {
            HeapOp::Push(value) => {
                lemma_push_heap(s, value);
            },
            HeapOp::Pop => {
                if s.len() > 0 {
                    lemma_pop_heap(s);
                }
            },
        }
        lemma_run_seq(s2, ops.drop_first());
    }
}

/// In a heap-ordered sequence, the root bounds the element at any index.
proof fn lemma_root_bounds(s: Seq<u64>, i: int)
    requires
        heap_ordered(s),
        0 <= i < s.len(),
    ensures
        s[0] >= s[i],
    decreases i,
{
    if i > 0 {
        lemma_root_bounds(s, parent_of(i));
    }
}

/// In a heap-ordered sequence, the root is a maximum.
pub proof fn lemma_root_max(s: Seq<u64>)
    requires
        heap_ordered(s),
    ensures
        forall|i: int| 0 <= i < s.len() ==> s[0] >= #[trigger] s[i],
{
    assert forall|i: int| 0 <= i < s.len() implies s[0] >= #[trigger] s[i] by {
        lemma_root_bounds(s, i);
    }
}

} // verus!
