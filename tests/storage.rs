use kestrel_buffer::disk_manager::DiskManager;
use kestrel_buffer::disk_scheduler::{DiskError, DiskRequest, DiskScheduler};
use kestrel_buffer::page::{Page, PAGE_SIZE};

#[test]
fn capacity_doubles_until_it_covers_the_request() {
    let mut dm = DiskManager::new();
    assert_eq!(dm.capacity(), 0);
    dm.increase_disk_space(3);
    assert_eq!(dm.capacity(), 4);
    dm.increase_disk_space(2);
    assert_eq!(dm.capacity(), 4);
    dm.increase_disk_space(9);
    assert_eq!(dm.capacity(), 16);
}

#[test]
fn written_page_reads_back_and_others_stay_zero() {
    let mut dm = DiskManager::new();
    let mut data = vec![0u8; PAGE_SIZE];
    data[0] = 42;
    dm.write_page(2, &data);
    assert_eq!(dm.read_page(2), data);
    assert_eq!(dm.read_page(0), vec![0u8; PAGE_SIZE]);
    assert_eq!(dm.read_page(7), vec![0u8; PAGE_SIZE]);
    assert_eq!(dm.num_pages_exec(), 3);
    assert_eq!(dm.capacity(), 4);
}

#[test]
fn scheduler_runs_requests_in_submission_order() {
    let mut s = DiskScheduler::new(DiskManager::new());
    let mut first = vec![0u8; PAGE_SIZE];
    first[0] = 1;
    let mut second = vec![0u8; PAGE_SIZE];
    second[0] = 2;
    assert!(s.schedule(DiskRequest { is_write: true, page_id: 0, data: first }).is_ok());
    assert!(s.schedule(DiskRequest { is_write: true, page_id: 0, data: second }).is_ok());
    assert!(s.schedule(DiskRequest { is_write: false, page_id: 0, data: Vec::new() }).is_ok());
    assert!(s.process_next().unwrap().result.is_ok());
    assert!(s.process_next().unwrap().result.is_ok());
    let read = s.process_next().unwrap();
    assert!(!read.is_write);
    assert_eq!(read.result.unwrap()[0], 2);
    assert!(s.process_next().is_none());
}

#[test]
fn malformed_request_fails_without_stopping_the_queue() {
    let mut s = DiskScheduler::new(DiskManager::new());
    assert!(s.schedule(DiskRequest { is_write: true, page_id: 0, data: vec![1, 2] }).is_ok());
    assert!(s.schedule(DiskRequest { is_write: false, page_id: 0, data: Vec::new() }).is_ok());
    assert_eq!(s.process_next().unwrap().result, Err(DiskError::IoError));
    assert_eq!(s.process_next().unwrap().result, Ok(vec![0u8; PAGE_SIZE]));
}

#[test]
fn shutdown_drains_then_refuses() {
    let mut s = DiskScheduler::new(DiskManager::new());
    assert!(s.schedule(DiskRequest { is_write: true, page_id: 1, data: vec![3u8; PAGE_SIZE] }).is_ok());
    assert!(s.schedule(DiskRequest { is_write: false, page_id: 1, data: Vec::new() }).is_ok());
    let done = s.shutdown();
    assert_eq!(done.len(), 2);
    assert!(done[0].is_write);
    assert_eq!(done[1].result, Ok(vec![3u8; PAGE_SIZE]));
    let refused = s.schedule(DiskRequest { is_write: false, page_id: 1, data: Vec::new() });
    assert_eq!(refused, Err(DiskError::ShutDown));
    assert_eq!(s.disk_manager().read_page(1), vec![3u8; PAGE_SIZE]);
}

#[test]
fn page_pin_dirty_and_reset() {
    let mut p = Page::new(3, vec![1u8; 8]);
    assert_eq!(p.page_id(), Some(3));
    assert_eq!(p.get_pin_count(), 0);
    p.pin();
    p.pin();
    assert_eq!(p.get_pin_count(), 2);
    p.unpin();
    assert_eq!(p.get_pin_count(), 1);
    assert!(!p.is_dirty());
    p.write_data(2, &[7, 7]);
    p.mark_dirty();
    assert!(p.is_dirty());
    assert_eq!(p.lock_data(), &vec![1, 1, 7, 7, 1, 1, 1, 1]);
    p.reset_memory();
    assert_eq!(p.page_id(), None);
    assert_eq!(p.get_pin_count(), 0);
    assert!(!p.is_dirty());
    assert_eq!(p.lock_data(), &vec![0u8; 8]);
}

#[test]
fn capacity_stops_at_the_first_sufficient_doubling() {
    let mut dm = DiskManager::new();
    dm.increase_disk_space(1);
    assert_eq!(dm.capacity(), 1);
    dm.increase_disk_space(5);
    assert_eq!(dm.capacity(), 8);
    dm.increase_disk_space(8);
    assert_eq!(dm.capacity(), 8);
    dm.increase_disk_space(17);
    assert_eq!(dm.capacity(), 32);
}

#[test]
fn shutdown_carries_out_each_request_in_order() {
    let mut s = DiskScheduler::new(DiskManager::new());
    assert!(s.schedule(DiskRequest { is_write: false, page_id: 0, data: Vec::new() }).is_ok());
    assert!(s.schedule(DiskRequest { is_write: true, page_id: 0, data: vec![9u8; PAGE_SIZE] }).is_ok());
    assert!(s.schedule(DiskRequest { is_write: true, page_id: 0, data: vec![1] }).is_ok());
    assert!(s.schedule(DiskRequest { is_write: false, page_id: 0, data: Vec::new() }).is_ok());
    let done = s.shutdown();
    assert_eq!(done[0].result, Ok(vec![0u8; PAGE_SIZE]));
    assert_eq!(done[1].result, Ok(Vec::new()));
    assert_eq!(done[2].result, Err(DiskError::IoError));
    assert_eq!(done[3].result, Ok(vec![9u8; PAGE_SIZE]));
}
