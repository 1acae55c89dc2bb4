use kestrel_buffer::skiplist::{ListIterator, SkipList};

fn sample() -> SkipList {
    let mut list = SkipList::new(3);
    list.append(10, "put a".to_string());
    list.append(20, "put b".to_string());
    list.append(20, "del a".to_string());
    list.append(35, "put c".to_string());
    list.append(50, "get b".to_string());
    list
}

#[test]
fn find_returns_the_command_at_an_offset() {
    let list = sample();
    assert_eq!(list.length, 5);
    assert_eq!(list.find(10), Some("put a".to_string()));
    assert_eq!(list.find(35), Some("put c".to_string()));
    assert_eq!(list.find(50), Some("get b".to_string()));
    let at_twenty = list.find(20).unwrap();
    assert!(at_twenty == "put b" || at_twenty == "del a");
}

#[test]
fn find_misses_absent_offsets() {
    let list = sample();
    assert_eq!(list.find(0), None);
    assert_eq!(list.find(11), None);
    assert_eq!(list.find(99), None);
    assert_eq!(SkipList::new(2).find(10), None);
}

#[test]
fn level_zero_walks_every_entry_in_order() {
    let list = sample();
    let mut it = list.iter_level(0);
    let mut offsets = Vec::new();
    while let Some((offset, _)) = it.next_entry(&list) {
        offsets.push(offset);
    }
    assert_eq!(offsets, vec![10, 20, 20, 35, 50]);
}

#[test]
fn top_level_holds_the_head() {
    let list = sample();
    let mut it = list.iter_level(3);
    assert_eq!(it.next_entry(&list), Some((10, "put a".to_string())));
    let mut empty = ListIterator::new(None, 0);
    assert_eq!(empty.next_entry(&list), None);
}
