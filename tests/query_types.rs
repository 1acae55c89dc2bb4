use kestrel_buffer::catalog::{Catalog, TableInfo};
use kestrel_buffer::io_rate_limiter::{get_io_rate_limiter, IoOp, IoRateLimiter, IoType};
use kestrel_buffer::query_types::{
    get_demo_schema, get_demo_table_heap_with_n_page_m_tuples_each, Column, Schema, TableHeap,
    TablePage, Tuple, TypeId,
};
use kestrel_buffer::skiplist_index::SkipListIndex;
use kestrel_buffer::transaction::{Transaction, UndoLink};

#[test]
fn test_page_heap_create_index() {
    let mut table_heap = get_demo_table_heap_with_n_page_m_tuples_each(5, 20);
    let box_cloned_list = table_heap.create_index();
    let a = table_heap.index.range_query(1, 100);
    println!("{:?}; {:?}", a.get(0), box_cloned_list.range_query(0, u64::MAX).len());
}

#[test]
fn test_insert() {
    let tuple1 = 1u64;
    let page_1 = 5;
    let tuple2 = 2u64;
    let page_2 = 7;
    let tuple3 = 3u64;
    let page_3 = 10;
    let mut l = SkipListIndex::new();
    l.insert(tuple1, page_1, 10);
    l.insert(tuple2, page_2, 10);
    l.insert(tuple3, page_3, 10);
    let t1 = l.find(tuple1).unwrap();
    let t2 = l.find(tuple2).unwrap();
    let t3 = l.find(tuple3).unwrap();
    assert_eq!(page_1, t1.0);
    assert_eq!(page_2, t2.0);
    assert_eq!(page_3, t3.0);
    assert_eq!(l.range_query(0, 2), vec![(t1), (t2)])
}

#[test]
fn index_insert_replaces_and_keeps_order() {
    let mut l = SkipListIndex::new();
    l.insert(9, 1, 1);
    l.insert(4, 2, 2);
    l.insert(6, 3, 3);
    l.insert(4, 5, 5);
    assert_eq!(l.find(4), Some((5, 5)));
    assert_eq!(l.find(5), None);
    assert_eq!(l.range_query(0, 100), vec![(5, 5), (3, 3), (1, 1)]);
    assert_eq!(l.range_query(5, 8), vec![(3, 3)]);
    assert_eq!(l.range_query(10, 20), vec![]);
}

#[test]
fn type_sizes() {
    assert_eq!(TypeId::type_size(TypeId::BOOLEAN, None), 1);
    assert_eq!(TypeId::type_size(TypeId::SMALLINT, None), 2);
    assert_eq!(TypeId::type_size(TypeId::INTEGER, None), 4);
    assert_eq!(TypeId::type_size(TypeId::TIMESTAMP, None), 8);
    assert_eq!(TypeId::type_size(TypeId::VARCHAR, Some(20)), 20);
    assert_eq!(TypeId::type_size(TypeId::VECTOR, Some(3)), 12);
    assert_eq!(TypeId::type_size(TypeId::VECTOR, None), 0);
    assert_eq!(TypeId::type_size(TypeId::INVALID, Some(5)), 0);
}

#[test]
fn tuple_weight_of_the_demo_schema() {
    let t = Tuple::construct_from_schema(17, get_demo_schema());
    assert_eq!(t.id, 17);
    assert_eq!(t.val, 310);
    assert_eq!(t.offset, 310);
    let s = Schema::new(vec![
        Column::new("a".to_string(), TypeId::INTEGER, 4),
        Column::new("b".to_string(), TypeId::INVALID, 0),
    ]);
    assert_eq!(s.length, 2);
    assert_eq!(Tuple::construct_from_schema(1, s).val, 5);
}

#[test]
fn demo_heap_has_n_pages_of_m_tuples() {
    let heap = get_demo_table_heap_with_n_page_m_tuples_each(3, 4);
    assert_eq!(heap.data.len(), 3);
    assert!(heap.data.iter().all(|p| p.data.len() == 4));
}

#[test]
fn create_index_maps_every_tuple() {
    let mut heap = TableHeap::new(2);
    heap.add_table_page(TablePage::new(vec![
        Tuple { id: 1, val: 10, offset: 100 },
        Tuple { id: 2, val: 20, offset: 200 },
    ]));
    heap.add_table_page(TablePage::new(vec![Tuple { id: 1, val: 30, offset: 300 }]));
    let copy = heap.create_index();
    assert_eq!(heap.index.find(1), Some((30, 300)));
    assert_eq!(heap.index.find(2), Some((20, 200)));
    assert_eq!(copy.find(1), Some((30, 300)));
    assert_eq!(heap.index.find(3), None);
}

#[test]
fn table_info_keeps_its_parts() {
    let info = TableInfo::new("t".to_string(), get_demo_schema(), TableHeap::new(1), 4);
    assert_eq!(info.table_id, 4);
    assert_eq!(info.table_name, "t");
    assert_eq!(info.schema.length, 5);
}

#[test]
fn small_collaborators() {
    let t = Transaction::new();
    assert_eq!(t.id, 0);
    assert!(!t.finished);
    assert!(UndoLink { prev_txn: 3 }.is_valid());
    assert!(!UndoLink { prev_txn: -1 }.is_valid());
    let limiter = IoRateLimiter::new();
    assert_eq!(limiter.request(IoType::default(), IoOp::Read, 4096), 1);
    assert!(get_io_rate_limiter().is_none());
    assert_eq!(IoType::default(), IoType::Flush);
}

#[test]
fn catalog_hands_out_ids_and_tracks_names() {
    let mut catalog = Catalog::new();
    assert_eq!(catalog.next_table_id(), 0);
    let a = catalog.create_table(Transaction::new(), "users".to_string(), get_demo_schema(), true);
    let b = catalog.create_table(Transaction::new(), "orders".to_string(), get_demo_schema(), true);
    let c = catalog.create_table(Transaction::new(), "users".to_string(), get_demo_schema(), true);
    assert_eq!((a.table_id, b.table_id, c.table_id), (0, 1, 2));
    assert_eq!(c.table_name, "users");
    assert_eq!(c.schema.columns.len(), 5);
    assert_eq!(catalog.get_table(None), vec!["users".to_string(), "orders".to_string()]);
    assert_eq!(catalog.next_table_id(), 3);
}
