use minheap::Heap;

#[test]
fn insert_value_sort() {
    let mut h = Heap::new(vec![]);
    for x in vec![8, 3, 4, 9, 4, 3, -30, 0, 20000] {
        h.insert(x);
    }
    assert_eq!(h.sort(), vec![-30, 0, 3, 3, 4, 4, 8, 9, 20000]);
}

#[test]
fn sort_heap() {
    let mut h = Heap::new(vec![8, 3, 4, 9, 4, 3, 0, 0, 12]);
    assert_eq!(h.sort(), vec![0, 0, 3, 3, 4, 4, 8, 9, 12]);
}

#[test]
fn empty_sort() {
    let mut h = Heap::new(vec![]);
    assert_eq!(h.sort(), vec![]);
    assert_eq!(h.size, 0);
}

#[test]
fn single_element_sort() {
    let mut h = Heap::new(vec![5]);
    assert_eq!(h.sort(), vec![5]);
}

#[test]
fn heap_order_after_inserts_and_build() {
    let mut h = Heap::new(vec![]);
    for x in vec![12, -7, 3, 3, 99, 0, -7, 41, 8, 5] {
        h.insert(x);
    }
    h.build_heap();
    for i in 2..=h.size {
        assert!(h.heap[i / 2] <= h.heap[i]);
    }
}

#[test]
fn heap_order_after_new() {
    let h = Heap::new(vec![9, 8, 7, 6, 5, 4, 3, 2, 1]);
    for i in 2..=h.size {
        assert!(h.heap[i / 2] <= h.heap[i]);
    }
}

#[test]
fn build_heap_twice_same_elements() {
    let mut h = Heap::new(vec![4, 1, 7, 0, 2, 9, 3]);
    h.build_heap();
    let once = h.heap.clone();
    let size_once = h.size;
    h.build_heap();
    assert_eq!(h.heap, once);
    assert_eq!(h.size, size_once);
}

#[test]
fn extract_min_returns_minimum_of_inserted() {
    let mut h = Heap::new(vec![]);
    for x in vec![7, 2, 9, -4, 5] {
        h.insert(x);
    }
    assert_eq!(h.delete_min(), -4);
    assert_eq!(h.size, 4);
}

#[test]
fn repeated_extraction_is_sorted() {
    let mut h = Heap::new(vec![6, -1, 6, 0, 3]);
    let mut drained = Vec::new();
    while h.size > 0 {
        drained.push(h.delete_min());
    }
    assert_eq!(drained, vec![-1, 0, 3, 6, 6]);
    assert_eq!(h.size, 0);
}

#[test]
fn sort_leaves_heap_untouched() {
    let mut h = Heap::new(vec![3, 1, 2]);
    let before_heap = h.heap.clone();
    let before_size = h.size;
    let sorted = h.sort();
    assert_eq!(sorted, vec![1, 2, 3]);
    assert_eq!(h.heap, before_heap);
    assert_eq!(h.size, before_size);
}

#[test]
fn lesser_child_ignores_slack_when_no_right_child() {
    // Slot 3 lies past the live range and holds a smaller leftover value,
    // yet the left child must be selected because node 1 has no live
    // right child.
    let h = Heap {
        size: 2,
        heap: vec![0, 1, 5, -9],
    };
    assert_eq!(h.lesser_child(1), (2, 5));
}

#[test]
fn lesser_child_picks_smaller_live_child() {
    let h = Heap {
        size: 3,
        heap: vec![0, 1, 7, 3],
    };
    assert_eq!(h.lesser_child(1), (3, 3));
}

#[test]
fn lesser_child_prefers_left_on_tie() {
    let h = Heap {
        size: 3,
        heap: vec![0, 1, 4, 4],
    };
    assert_eq!(h.lesser_child(1), (2, 4));
}

#[test]
fn node_lookups() {
    let h = Heap {
        size: 5,
        heap: vec![0, 1, 3, 2, 8, 4],
    };
    assert_eq!(h.node_parent(4), 3);
    assert_eq!(h.node_parent(2), 1);
    assert_eq!(h.node_left(2), 8);
    assert_eq!(h.node_right(2), 4);
}

#[test]
fn insert_grows_full_backing_storage() {
    let mut h = Heap::new(vec![]);
    assert_eq!(h.heap.len(), 1);
    h.insert(10);
    assert_eq!(h.size, 1);
    assert_eq!(h.heap.len(), 2);
    h.insert(-2);
    assert_eq!(h.size, 2);
    assert_eq!(h.heap.len(), 4);
    assert_eq!(h.delete_min(), -2);
    assert_eq!(h.delete_min(), 10);
}

#[test]
fn to_string_renders_live_elements() {
    let h = Heap::new(vec![2, 1]);
    assert_eq!(h.to_string(), " 1 2");
}

#[test]
fn to_string_skips_legacy_sentinel() {
    let h = Heap::new(vec![1000, 5]);
    assert_eq!(h.to_string(), " 5");
}

#[test]
fn to_string_negative_and_empty() {
    let h = Heap::new(vec![-3]);
    assert_eq!(h.to_string(), " -3");
    let e = Heap::new(vec![]);
    assert_eq!(e.to_string(), "");
}
