use storage_heap::BinaryHeap;

/// Collects the heap's elements in storage (index) order.
fn storage_order(heap: &BinaryHeap) -> Vec<u64> {
    let mut out = Vec::new();
    let mut it = heap.iter();
    while let Some(v) = it.next() {
        out.push(v);
    }
    out
}

/// Checks the max-heap ordering over the storage order.
fn assert_heap_ordered(heap: &BinaryHeap) {
    let elems = storage_order(heap);
    for i in 1..elems.len() {
        let parent = (i - 1) / 2;
        assert!(
            elems[parent] >= elems[i],
            "ordering broken at index {}: parent {} < child {}",
            i,
            elems[parent],
            elems[i]
        );
    }
}

#[test]
fn new_heap_is_empty() {
    let heap = BinaryHeap::new();
    assert_eq!(heap.len(), 0);
    assert!(heap.is_empty());
    assert_eq!(heap.peek(), None);
}

#[test]
fn empty_matches_len_throughout() {
    let mut heap = BinaryHeap::new();
    assert_eq!(heap.is_empty(), heap.len() == 0);
    heap.push(7);
    assert_eq!(heap.is_empty(), heap.len() == 0);
    heap.push(2);
    assert_eq!(heap.is_empty(), heap.len() == 0);
    heap.pop();
    assert_eq!(heap.is_empty(), heap.len() == 0);
    heap.pop();
    assert_eq!(heap.is_empty(), heap.len() == 0);
    assert!(heap.is_empty());
}

#[test]
fn push_pop_scenario() {
    let mut heap = BinaryHeap::new();
    heap.push(5);
    heap.push(3);
    heap.push(8);
    heap.push(1);
    assert_eq!(heap.peek(), Some(8));
    assert_eq!(heap.pop(), Some(8));
    assert_eq!(heap.peek(), Some(5));
    assert_eq!(heap.pop(), Some(5));
    assert_eq!(heap.peek(), Some(3));
    assert_eq!(heap.pop(), Some(3));
    assert_eq!(heap.peek(), Some(1));
    assert_eq!(heap.pop(), Some(1));
    assert!(heap.is_empty());
    assert_eq!(heap.pop(), None);
}

#[test]
fn first_push_targets_root_without_fault() {
    let mut heap = BinaryHeap::new();
    heap.push(42);
    assert_eq!(heap.len(), 1);
    assert_eq!(heap.peek(), Some(42));
}

#[test]
fn ordering_after_every_push() {
    let mut heap = BinaryHeap::new();
    for v in [5u64, 3, 8, 1, 9, 9, 0, 7] {
        heap.push(v);
        assert_heap_ordered(&heap);
    }
}

#[test]
fn size_bookkeeping() {
    let mut heap = BinaryHeap::new();
    for v in 0..10u64 {
        heap.push(v);
    }
    assert_eq!(heap.len(), 10);
    for popped in 0..4u32 {
        heap.pop();
        assert_eq!(heap.len(), 10 - popped - 1);
    }
    assert_eq!(heap.len(), 6);
}

#[test]
fn new_maximum_propagates() {
    let mut heap = BinaryHeap::new();
    heap.push(10);
    heap.push(4);
    assert_eq!(heap.peek(), Some(10));
    heap.push(99);
    assert_eq!(heap.peek(), Some(99));
    heap.push(100);
    assert_eq!(heap.peek(), Some(100));
}

#[test]
fn equal_values_pushed_repeatedly() {
    let mut heap = BinaryHeap::new();
    heap.push(6);
    heap.push(6);
    heap.push(6);
    assert_eq!(heap.len(), 3);
    assert_eq!(heap.pop(), Some(6));
    assert_eq!(heap.pop(), Some(6));
    assert_eq!(heap.pop(), Some(6));
    assert_eq!(heap.pop(), None);
}

#[test]
fn popping_yields_non_increasing_sequence() {
    let mut heap = BinaryHeap::new();
    for v in [12u64, 7, 19, 3, 19, 0, 8, 15, 4] {
        heap.push(v);
    }
    let mut previous = u64::MAX;
    while let Some(v) = heap.pop() {
        assert!(v <= previous, "popped {} after {}", v, previous);
        previous = v;
        assert_heap_ordered(&heap);
    }
    assert!(heap.is_empty());
}

#[test]
fn equality_is_storage_order_sensitive() {
    // Pushing [1, 2, 3] and [3, 2, 1] leaves the same values in different
    // storage orders: the heaps compare unequal.
    let a = BinaryHeap::from_vec(&vec![1, 2, 3]);
    let b = BinaryHeap::from_vec(&vec![3, 2, 1]);
    assert_eq!(a.peek(), Some(3));
    assert_eq!(b.peek(), Some(3));
    assert_eq!(a.len(), 3);
    assert_eq!(b.len(), 3);
    assert_eq!(storage_order(&a), vec![3, 1, 2]);
    assert_eq!(storage_order(&b), vec![3, 2, 1]);
    assert!(a != b);

    // Pushing [3, 1, 2] and [1, 2, 3] happens to leave identical storage
    // orders: those heaps compare equal.
    let c = BinaryHeap::from_vec(&vec![3, 1, 2]);
    let d = BinaryHeap::from_vec(&vec![1, 2, 3]);
    assert_eq!(storage_order(&c), vec![3, 1, 2]);
    assert!(c == d);
}

#[test]
fn bulk_insert_matches_sequential_pushes() {
    let built = BinaryHeap::from_vec(&vec![4, 2, 9, 1]);
    let mut pushed = BinaryHeap::new();
    pushed.push(4);
    pushed.push(2);
    pushed.push(9);
    pushed.push(1);
    assert!(built == pushed);
    assert_eq!(storage_order(&built), storage_order(&pushed));
    assert_eq!(built.peek(), Some(9));
    assert_eq!(built.len(), 4);
}

#[test]
fn extend_pushes_in_source_order() {
    let mut extended = BinaryHeap::new();
    extended.push(5);
    extended.extend(&vec![7, 1, 6]);
    let mut pushed = BinaryHeap::new();
    pushed.push(5);
    pushed.push(7);
    pushed.push(1);
    pushed.push(6);
    assert!(extended == pushed);
    assert_eq!(extended.len(), 4);
}

#[test]
fn default_is_empty_heap() {
    let heap = BinaryHeap::default();
    assert!(heap.is_empty());
    assert!(heap == BinaryHeap::new());
}

#[test]
fn iteration_is_storage_order_and_restartable() {
    let mut heap = BinaryHeap::new();
    for v in [5u64, 3, 8, 1] {
        heap.push(v);
    }
    assert_eq!(storage_order(&heap), vec![8, 3, 5, 1]);
    // A fresh cursor starts over; a prefix can be taken at no further cost.
    let mut it = heap.iter();
    assert_eq!(it.next(), Some(8));
    assert_eq!(it.next(), Some(3));
    let mut again = heap.iter();
    assert_eq!(again.next(), Some(8));
    // An exhausted cursor stays exhausted.
    let mut all = heap.iter();
    for _ in 0..4 {
        assert!(all.next().is_some());
    }
    assert_eq!(all.next(), None);
    assert_eq!(all.next(), None);
}

#[test]
fn randomized_operations_keep_invariant_and_length() {
    // A small linear-congruential generator keeps the run deterministic.
    let mut state: u64 = 0x2545f491_4f6c_dd1d;
    let mut next_rand = move || {
        state = state.wrapping_mul(6364136223846793005).wrapping_add(1442695040888963407);
        state >> 33
    };
    let mut heap = BinaryHeap::new();
    let mut pushes: u64 = 0;
    let mut served_pops: u64 = 0;
    for _ in 0..500 {
        let r = next_rand();
        if r % 3 != 0 {
            heap.push(r / 7);
            pushes += 1;
        } else {
            let was_empty = heap.is_empty();
            let popped = heap.pop();
            assert_eq!(popped.is_none(), was_empty);
            if popped.is_some() {
                served_pops += 1;
            }
        }
        assert_heap_ordered(&heap);
        assert_eq!(heap.len() as u64, pushes - served_pops);
        let elems = storage_order(&heap);
        assert_eq!(heap.peek(), elems.iter().copied().max());
    }
}
