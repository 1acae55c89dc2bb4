use kestrel_buffer::replacer::{LRUKReplacer, LRUNode};

#[test]
fn test_cache_eviction() {
    let mut lru = LRUKReplacer::new(2);
    lru.RecordAccess(0);
    lru.RecordAccess(0);
    lru.RecordAccess(0);
    lru.RecordAccess(1);
    lru.RecordAccess(1);
    lru.RecordAccess(1);

    lru.SetEvictable(1, true);
    lru.SetEvictable(0, true);
    let victim = lru.Evict().unwrap();

    assert!(Some(victim).is_some());
}

#[test]
fn new_node_is_empty_and_pinned() {
    let node = LRUNode::new(7);
    assert_eq!(node.fid, 7);
    assert!(node.history.is_empty());
    assert!(!node.is_evictable);
}

#[test]
fn backward_k_distance_uses_second_most_recent_access() {
    // frame 0 at t0, t3, t4; frame 1 at t1, t2, t5; k = 2.
    // Second most recent: frame 0 -> t3, frame 1 -> t2, so frame 1 is the
    // farther one. The oldest access (t0) or the latest (t4 < t5) would
    // both have picked frame 0.
    let mut lru = LRUKReplacer::new(2);
    lru.RecordAccess(0);
    lru.RecordAccess(1);
    lru.RecordAccess(1);
    lru.RecordAccess(0);
    lru.RecordAccess(0);
    lru.RecordAccess(1);
    lru.SetEvictable(0, true);
    lru.SetEvictable(1, true);
    assert_eq!(lru.Evict(), Some(1));
    assert_eq!(lru.Evict(), Some(0));
    assert_eq!(lru.Evict(), None);
}

#[test]
fn fewer_than_k_accesses_is_infinite_distance() {
    // frame B (1) has three accesses, frame A (0) one later access.
    let mut lru = LRUKReplacer::new(2);
    lru.RecordAccess(1);
    lru.RecordAccess(1);
    lru.RecordAccess(1);
    lru.RecordAccess(0);
    lru.SetEvictable(0, true);
    lru.SetEvictable(1, true);
    assert_eq!(lru.Evict(), Some(0));
}

#[test]
fn infinite_distances_break_ties_by_earliest_access() {
    let mut lru = LRUKReplacer::new(3);
    lru.RecordAccess(4);
    lru.RecordAccess(2);
    lru.RecordAccess(4);
    lru.RecordAccess(2);
    lru.SetEvictable(2, true);
    lru.SetEvictable(4, true);
    assert_eq!(lru.Evict(), Some(4));
    assert_eq!(lru.Evict(), Some(2));
}

#[test]
fn pinned_frame_is_never_evicted() {
    let mut lru = LRUKReplacer::new(2);
    lru.RecordAccess(0);
    lru.RecordAccess(1);
    lru.SetEvictable(1, true);
    assert_eq!(lru.Evict(), Some(1));
    assert_eq!(lru.Evict(), None);
}

#[test]
fn size_counts_evictable_frames() {
    let mut lru = LRUKReplacer::new(2);
    assert_eq!(lru.Size(), 0);
    lru.RecordAccess(0);
    lru.RecordAccess(3);
    lru.RecordAccess(5);
    assert_eq!(lru.Size(), 0);
    lru.SetEvictable(0, true);
    lru.SetEvictable(5, true);
    assert_eq!(lru.Size(), 2);
    lru.SetEvictable(5, false);
    assert_eq!(lru.Size(), 1);
    // an untracked frame is ignored
    lru.SetEvictable(9, true);
    assert_eq!(lru.Size(), 1);
    lru.Remove(0);
    assert_eq!(lru.Size(), 0);
    assert_eq!(lru.Evict(), None);
}

#[test]
fn remove_forgets_history() {
    let mut lru = LRUKReplacer::new(2);
    lru.RecordAccess(0);
    lru.RecordAccess(0);
    lru.RecordAccess(1);
    lru.Remove(1);
    // frame 1 comes back with a fresh history of one access
    lru.RecordAccess(1);
    lru.SetEvictable(0, true);
    lru.SetEvictable(1, true);
    assert_eq!(lru.Evict(), Some(1));
}
