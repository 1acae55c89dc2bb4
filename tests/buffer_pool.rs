use kestrel_buffer::buffer_pool_manager::{BpmError, BufferPoolManager};
use kestrel_buffer::disk_manager::DiskManager;
use kestrel_buffer::page::PAGE_SIZE;

#[test]
fn test_bpm_new_page() {
    let mut bpm = BufferPoolManager::new(10, 2);
    let frame_0 = bpm.new_page().unwrap();
    let frame_1 = bpm.new_page().unwrap();
    assert_eq!(bpm.get_buffer_manager_size(), 10);
    bpm.drop_write_guard(frame_0);
    bpm.drop_write_guard(frame_1);

    let successful_delete = bpm.delete_page(0);
    assert_eq!(bpm.get_buffer_manager_size(), 10);
    assert!(successful_delete);
    assert_eq!(bpm.get_pin_count(0), None);
    assert_eq!(bpm.get_pin_count(1), Some(0));
}

#[test]
fn test_bpm_create_table_heap() {
    let mut bpm = BufferPoolManager::new(10, 2);
    assert!(bpm.new_page().is_ok());
}

#[test]
fn test_check_page_exists_in_buffer() {
    let mut bpm = BufferPoolManager::new(10, 2);
    let guard = bpm.new_page().unwrap();
    assert_eq!(bpm.get_pin_count(guard.page_id()), Some(1));
    assert_eq!(bpm.get_pin_count(5), None);
}

#[test]
fn lib_test_buffer_pool_manager_size() {
    let buffer_pool_manager = BufferPoolManager::new(10, 2);
    assert_eq!(buffer_pool_manager.getBufferPoolSize(), 10);
}

#[test]
fn test_test_buffer_pool_manager_size() {
    let buffer_pool_manager = BufferPoolManager::new(10, 2);
    assert_eq!(buffer_pool_manager.getBufferPoolSize(), 10);
}

#[test]
fn integration_test_test_buffering_memory() {
    let bpm = BufferPoolManager::new(10, 2);
    assert_eq!(bpm.getBufferPoolSize(), 10);
}

#[test]
fn pool_of_two_runs_out_of_frames_when_all_pinned() {
    let mut bpm = BufferPoolManager::new(2, 2);
    let g0 = bpm.new_page().unwrap();
    let g1 = bpm.new_page().unwrap();
    assert_eq!(g0.page_id(), 0);
    assert_eq!(g1.page_id(), 1);
    assert!(matches!(bpm.new_page(), Err(BpmError::OutOfFrames)));
    // the failed call does not use up an id
    bpm.drop_write_guard(g1);
    let g2 = bpm.new_page().unwrap();
    assert_eq!(g2.page_id(), 2);
    // page 1 was evicted to make room
    assert_eq!(bpm.get_pin_count(1), None);
    bpm.drop_write_guard(g0);
    bpm.drop_write_guard(g2);
}

#[test]
fn page_round_trips_through_the_disk_manager() {
    let mut bpm = BufferPoolManager::new(3, 2);
    for _ in 0..6 {
        let g = bpm.new_page().unwrap();
        bpm.drop_write_guard(g);
    }
    let g = bpm.fetch_write_page(5).unwrap();
    g.write_page_data(&mut bpm, 0, &[1, 2, 3]);
    bpm.drop_write_guard(g);
    assert!(bpm.flush_page(5).is_ok());
    let disk: DiskManager = bpm.into_disk_manager();

    let mut fresh = BufferPoolManager::with_disk_manager(disk, 3, 2);
    let r = fresh.fetch_read_page(5).unwrap();
    let data = r.read_page_data(&fresh);
    assert_eq!(data.len(), PAGE_SIZE);
    assert_eq!(&data[0..3], &[1, 2, 3]);
    assert!(data[3..].iter().all(|b| *b == 0));
    fresh.drop_read_guard(r);
}

#[test]
fn dirty_victim_is_written_back_before_reuse() {
    let mut bpm = BufferPoolManager::new(1, 2);
    let g = bpm.new_page().unwrap();
    g.write_page_data(&mut bpm, 10, &[9, 8, 7]);
    bpm.drop_write_guard(g);
    // page 1 takes the only frame, evicting dirty page 0
    let g1 = bpm.new_page().unwrap();
    assert_eq!(bpm.get_pin_count(0), None);
    bpm.drop_write_guard(g1);
    let r = bpm.fetch_read_page(0).unwrap();
    assert_eq!(&r.read_page_data(&bpm)[10..13], &[9, 8, 7]);
    bpm.drop_read_guard(r);
}

#[test]
fn delete_waits_for_the_guard_to_drop() {
    let mut bpm = BufferPoolManager::new(4, 2);
    let g = bpm.new_page().unwrap();
    let id = g.page_id();
    assert_eq!(bpm.get_pin_count(id), Some(1));
    assert!(!bpm.delete_page(id));
    assert_eq!(bpm.get_pin_count(id), Some(1));
    bpm.drop_write_guard(g);
    assert!(bpm.delete_page(id));
    assert_eq!(bpm.get_pin_count(id), None);
}

#[test]
fn dropping_a_guard_unpins_exactly_once() {
    let mut bpm = BufferPoolManager::new(4, 2);
    let g = bpm.new_page().unwrap();
    let id = g.page_id();
    bpm.drop_write_guard(g);
    let r1 = bpm.fetch_read_page(id).unwrap();
    let r2 = bpm.fetch_read_page(id).unwrap();
    assert_eq!(bpm.get_pin_count(id), Some(2));
    bpm.drop_read_guard(r1);
    assert_eq!(bpm.get_pin_count(id), Some(1));
    assert_eq!(bpm.replacer_size(), 0);
    bpm.drop_read_guard(r2);
    assert_eq!(bpm.get_pin_count(id), Some(0));
    assert_eq!(bpm.replacer_size(), 1);
}

#[test]
fn replacer_size_tracks_unpinned_resident_frames() {
    let mut bpm = BufferPoolManager::new(3, 2);
    assert_eq!(bpm.replacer_size(), 0);
    let a = bpm.new_page().unwrap();
    let b = bpm.new_page().unwrap();
    assert_eq!(bpm.replacer_size(), 0);
    bpm.drop_write_guard(a);
    assert_eq!(bpm.replacer_size(), 1);
    bpm.drop_write_guard(b);
    assert_eq!(bpm.replacer_size(), 2);
    assert!(bpm.delete_page(0));
    assert_eq!(bpm.replacer_size(), 1);
}

#[test]
fn fetch_of_unallocated_page_is_not_found() {
    let mut bpm = BufferPoolManager::new(2, 2);
    assert!(matches!(bpm.fetch_read_page(0), Err(BpmError::PageNotFound)));
    assert!(matches!(bpm.fetch_write_page(3), Err(BpmError::PageNotFound)));
    assert!(matches!(bpm.flush_page(0), Err(BpmError::PageNotFound)));
}

#[test]
fn fetch_of_non_resident_page_when_all_pinned_is_out_of_frames() {
    let mut bpm = BufferPoolManager::new(1, 2);
    let g0 = bpm.new_page().unwrap();
    bpm.drop_write_guard(g0);
    let g1 = bpm.new_page().unwrap();
    assert!(matches!(bpm.fetch_read_page(0), Err(BpmError::OutOfFrames)));
    bpm.drop_write_guard(g1);
    assert!(bpm.fetch_read_page(0).is_ok());
}

#[test]
fn flush_all_pages_puts_every_page_on_disk() {
    let mut bpm = BufferPoolManager::new(2, 2);
    let a = bpm.new_page().unwrap();
    let b = bpm.new_page().unwrap();
    a.write_page_data(&mut bpm, 0, &[4]);
    b.write_page_data(&mut bpm, 1, &[5]);
    assert!(bpm.flush_all_pages().is_ok());
    bpm.drop_write_guard(a);
    bpm.drop_write_guard(b);
    let disk = bpm.into_disk_manager();
    assert_eq!(disk.read_page(0)[0], 4);
    assert_eq!(disk.read_page(1)[1], 5);
    assert_eq!(disk.num_pages_exec(), 2);
}

#[test]
fn new_page_is_zeroed() {
    let mut bpm = BufferPoolManager::new(2, 2);
    let g = bpm.new_page().unwrap();
    assert!(g.read_page_data(&bpm).iter().all(|b| *b == 0));
    assert_eq!(g.read_page_data(&bpm).len(), PAGE_SIZE);
    bpm.drop_write_guard(g);
    assert_eq!(bpm.next_page_id(), 1);
}

#[test]
fn default_pool_has_five_frames() {
    let bpm = kestrel_buffer::buffer_pool_manager::create_buffer_pool_manager();
    assert_eq!(bpm.get_buffer_manager_size(), 5);
    assert_eq!(bpm.next_page_id(), 0);
}

#[test]
fn free_frame_is_used_before_evicting() {
    let mut bpm = BufferPoolManager::new(3, 2);
    let a = bpm.new_page().unwrap();
    let b = bpm.new_page().unwrap();
    bpm.drop_write_guard(a);
    bpm.drop_write_guard(b);
    let c = bpm.new_page().unwrap();
    assert_eq!(bpm.get_pin_count(0), Some(0));
    assert_eq!(bpm.get_pin_count(1), Some(0));
    assert_eq!(bpm.get_pin_count(2), Some(1));
    // with no free frame left, exactly one unpinned page leaves
    let d = bpm.new_page().unwrap();
    let gone = [0, 1].iter().filter(|p| bpm.get_pin_count(**p).is_none()).count();
    assert_eq!(gone, 1);
    bpm.drop_write_guard(c);
    bpm.drop_write_guard(d);
}

#[test]
fn delete_frees_the_frame_for_the_next_page() {
    let mut bpm = BufferPoolManager::new(1, 2);
    let a = bpm.new_page().unwrap();
    bpm.drop_write_guard(a);
    assert_eq!(bpm.replacer_size(), 1);
    assert!(bpm.delete_page(0));
    assert_eq!(bpm.replacer_size(), 0);
    let b = bpm.new_page().unwrap();
    assert_eq!(b.page_id(), 1);
    assert!(b.read_page_data(&bpm).iter().all(|x| *x == 0));
    bpm.drop_write_guard(b);
}
