use vstd::prelude::*;
use crate::skiplist_index::{SkipListIndex, TupleLocation};

verus! {

/// Relies on rand::random: a value drawn from the thread-local generator.
/// Nothing is promised of the value.
pub assume_specification<T>[ rand::random::<T> ]() -> (r: T)
    where
        rand::distributions::Standard: rand::distributions::Distribution<T>,
;

/// Column types.
#[allow(non_camel_case_types, clippy::upper_case_acronyms)]
#[non_exhaustive]
#[derive(PartialEq, Eq, Structural, Clone, Copy, Debug)]
pub enum TypeId {
    INVALID,
    BOOLEAN,
    TINYINT,
    SMALLINT,
    INTEGER,
    BIGINT,
    DECIMAL,
    VARCHAR,
    TIMESTAMP,
    VECTOR,
}

/// Bytes that one element of a vector column takes.
pub const VECTOR_ELEMENT_SIZE: u32 = 4;

/// Storage size of a value of type `id`; `length` is the declared length of
/// a VARCHAR (required) or the element count of a VECTOR (zero if absent).
pub open spec fn type_size_of(id: TypeId, length: Option<u32>) -> int {
    match id {
        TypeId::BOOLEAN | TypeId::TINYINT => 1,
        TypeId::SMALLINT => 2,
        TypeId::INTEGER => 4,
        TypeId::BIGINT | TypeId::DECIMAL | TypeId::TIMESTAMP => 8,
        TypeId::VARCHAR => length.unwrap() as int,
        TypeId::VECTOR => (match length {
            Some(n) => n as int,
            None => 0,
        }) * VECTOR_ELEMENT_SIZE,
        TypeId::INVALID => 0,
    }
}

impl TypeId {
    pub fn type_size(id: TypeId, length: Option<u32>) -> (r: u32)
        requires
            id == TypeId::VARCHAR ==> length is Some,
            id == TypeId::VECTOR ==> type_size_of(id, length) <= u32::MAX,
        ensures
            r == type_size_of(id, length),
    {
        match id {
            TypeId::BOOLEAN | TypeId::TINYINT => 1,
            TypeId::SMALLINT => 2,
            TypeId::INTEGER => 4,
            TypeId::BIGINT | TypeId::DECIMAL | TypeId::TIMESTAMP => 8,
            TypeId::VARCHAR => length.unwrap(),
            TypeId::VECTOR => {
                let n: u32 = match length {
                    Some(n) => n,
                    None => 0,
                };
                n * VECTOR_ELEMENT_SIZE
            },
            TypeId::INVALID => 0,
        }
    }
}

pub struct Column {
    pub name: String,
    pub id: TypeId,
    pub length: u32,
    pub offset: u32,
}

impl Column {
    pub fn new(name: String, id: TypeId, length: u32) -> (r: Self)
        ensures
            r.name@ == name@,
            r.id == id,
            r.length == length,
            r.offset == 0,
    {
        Column { name, id, length, offset: 0 }
    }

    /// A column equal to this one.
    pub fn copy(&self) -> (r: Self)
        ensures
            same_column(r, *self),
    {
        Column { name: self.name.clone(), id: self.id, length: self.length, offset: self.offset }
    }

    pub fn get_offset(&self) -> (r: u32)
        ensures
            r == self.offset,
    {
        self.offset
    }
}

/// Two columns with the same name, type, length and offset.
pub open spec fn same_column(a: Column, b: Column) -> bool {
    &&& a.name@ == b.name@
    &&& a.id == b.id
    &&& a.length == b.length
    &&& a.offset == b.offset
}

/// Two schemas with equal columns, in the same order.
pub open spec fn same_schema(a: Schema, b: Schema) -> bool {
    &&& a.columns@.len() == b.columns@.len()
    &&& forall|i: int| 0 <= i < a.columns@.len() ==> same_column(#[trigger] a.columns@[i], b.columns@[i])
    &&& a.length == b.length
    &&& a.tuple_is_inlined == b.tuple_is_inlined
}

pub struct Schema {
    pub columns: Vec<Column>,
    pub length: usize,
    pub tuple_is_inlined: bool,
}

impl Schema {
    /// A schema of inlined tuples over `columns`.
    pub fn new(columns: Vec<Column>) -> (r: Self)
        ensures
            r.columns@ == columns@,
            r.length == columns@.len(),
            r.tuple_is_inlined,
    {
        let length = columns.len();
        Schema { columns, length, tuple_is_inlined: true }
    }

    /// A schema equal to this one.
    pub fn copy(&self) -> (r: Self)
        ensures
            same_schema(r, *self),
    {
        let mut columns: Vec<Column> = Vec::new();
        let mut i: usize = 0;
        while i < self.columns.len()
            invariant
                i <= self.columns@.len(),
                columns@.len() == i,
                forall|j: int| 0 <= j < i ==> same_column(#[trigger] columns@[j], self.columns@[j]),
            decreases self.columns@.len() - i,
        {
            columns.push(self.columns[i].copy());
            i += 1;
        }
        Schema { columns, length: self.length, tuple_is_inlined: self.tuple_is_inlined }
    }
}

/// Bytes a tuple reserves for a column of type `id`: fixed-size types take
/// their size, VARCHAR and VECTOR a flat 100, INVALID one.
pub open spec fn column_weight(id: TypeId) -> nat {
    match id {
        TypeId::BOOLEAN | TypeId::TINYINT | TypeId::INVALID => 1,
        TypeId::SMALLINT => 2,
        TypeId::INTEGER => 4,
        TypeId::BIGINT | TypeId::DECIMAL | TypeId::TIMESTAMP => 8,
        TypeId::VARCHAR | TypeId::VECTOR => 100,
    }
}

/// Sum of the weights of the columns.
pub open spec fn schema_weight(columns: Seq<Column>) -> nat
    decreases columns.len(),
{
    if columns.len() == 0 {
        0
    } else {
        schema_weight(columns.drop_last()) + column_weight(columns.last().id)
    }
}

#[derive(Clone, Copy, Debug, Default)]
pub struct Tuple {
    pub id: u64,
    pub val: u64,
    pub offset: usize,
}

impl Tuple {
    /// A tuple whose value and offset are the total weight of the schema's
    /// columns.
    pub fn construct_from_schema(id: u64, value: Schema) -> (r: Self)
        requires
            value.columns@.len() <= usize::MAX / 100,
        ensures
            r.id == id,
            r.val == schema_weight(value.columns@),
            r.offset == schema_weight(value.columns@),
    {
        let n = value.columns.len();
        let mut val: usize = 0;
        let mut i: usize = 0;
        while i < n
            invariant
                n == value.columns@.len(),
                n <= usize::MAX / 100,
                i <= n,
                val == schema_weight(value.columns@.take(i as int)),
                val <= 100 * i,
            decreases n - i,
        {
            let w: usize = match value.columns[i].id {
                TypeId::BOOLEAN | TypeId::TINYINT => 1,
                TypeId::SMALLINT => 2,
                TypeId::INTEGER => 4,
                TypeId::BIGINT | TypeId::DECIMAL | TypeId::TIMESTAMP => 8,
                TypeId::VARCHAR => 100,
                TypeId::VECTOR => 100,
                TypeId::INVALID => 1,
            };
            proof {
                assert(value.columns@.take(i + 1).drop_last() =~= value.columns@.take(i as int));
            }
            val = val + w;
            i += 1;
        }
        assert(value.columns@.take(n as int) =~= value.columns@);
        Tuple { id, val: val as u64, offset: val }
    }
}

pub struct TablePage {
    pub data: Vec<Tuple>,
}

impl TablePage {
    pub fn new(data: Vec<Tuple>) -> (r: Self)
        ensures
            r.data@ == data@,
    {
        TablePage { data }
    }
}

/// Every tuple of `pages`, page after page.
pub open spec fn all_tuples(pages: Seq<TablePage>) -> Seq<Tuple>
    decreases pages.len(),
{
    if pages.len() == 0 {
        Seq::empty()
    } else {
        all_tuples(pages.drop_last()) + pages.last().data@
    }
}

/// Where the index puts a tuple: its value as the page and its offset.
pub open spec fn location_of(t: Tuple) -> TupleLocation {
    (t.val, t.offset)
}

/// Location of the last tuple of `ts` with id `key`, if any.
pub open spec fn last_location(ts: Seq<Tuple>, key: u64) -> Option<TupleLocation>
    decreases ts.len(),
{
    if ts.len() == 0 {
        None
    } else if ts.last().id == key {
        Some(location_of(ts.last()))
    } else {
        last_location(ts.drop_last(), key)
    }
}

/// `index` is `base` with the tuples of `ts` inserted in order.
pub open spec fn indexes(index: SkipListIndex, base: SkipListIndex, ts: Seq<Tuple>) -> bool {
    forall|k: u64, loc: TupleLocation|
        #[trigger] index.maps(k, loc) == match last_location(ts, k) {
            Some(l) => l == loc,
            None => base.maps(k, loc),
        }
}

pub struct TableHeap {
    pub data: Vec<TablePage>,
    pub index: SkipListIndex,
}

impl TableHeap {
    pub closed spec fn index(&self) -> SkipListIndex {
        self.index
    }

    pub closed spec fn wf(&self) -> bool {
        self.index.wf()
    }

    /// An empty heap with room for `size` pages.
    pub fn new(size: usize) -> (r: Self)
        ensures
            r.wf(),
            r.data@.len() == 0,
            forall|k: u64| !r.index().has_key(k),
    {
        TableHeap { data: Vec::with_capacity(size), index: SkipListIndex::new() }
    }

    pub fn add_table_page(&mut self, page: TablePage)
        ensures
            final(self).data@ == old(self).data@.push(page),
            final(self).index() == old(self).index(),
    {
        self.data.push(page)
    }

    /// Inserts every tuple of the heap into the heap's index, page after
    /// page, and returns a copy of the index.
    pub fn create_index(&mut self) -> (r: Box<SkipListIndex>)
        requires
            old(self).wf(),
        ensures
            final(self).wf(),
            final(self).data@ == old(self).data@,
            indexes(final(self).index(), old(self).index(), all_tuples(old(self).data@)),
            r.entries() == final(self).index().entries(),
            r.wf(),
    {
        let ghost base = self.index;
        let np = self.data.len();
        let mut i: usize = 0;
        while i < np
            invariant
                np == self.data@.len(),
                self.data@ == old(self).data@,
                i <= np,
                self.index.wf(),
                indexes(self.index, base, all_tuples(self.data@.take(i as int))),
            decreases np - i,
        {
            let nt = self.data[i].data.len();
            let mut j: usize = 0;
            let ghost done = all_tuples(self.data@.take(i as int));
            while j < nt
                invariant
                    np == self.data@.len(),
                    self.data@ == old(self).data@,
                    i < np,
                    nt == self.data@[i as int].data@.len(),
                    j <= nt,
                    self.index.wf(),
                    indexes(self.index, base, done + self.data@[i as int].data@.take(j as int)),
                decreases nt - j,
            {
                let t = self.data[i].data[j];
                let ghost before = self.index;
                let ghost ts = done + self.data@[i as int].data@.take(j as int);
                self.index.insert(t.id, t.val, t.offset);
                proof {
                    let ts2 = done + self.data@[i as int].data@.take(j + 1);
                    assert(ts2 =~= ts.push(t));
                    assert(ts2.drop_last() =~= ts);
                    assert forall|k: u64, loc: TupleLocation|
                        #[trigger] self.index.maps(k, loc) == match last_location(ts2, k) {
                            Some(l) => l == loc,
                            None => base.maps(k, loc),
                        } by {
                        if k == t.id {
                            if self.index.maps(k, loc) {
                                self.index.lemma_one_location(k, loc, location_of(t));
                            }
                        } else {
                            assert(before.maps(k, loc) == match last_location(ts, k) {
                                Some(l) => l == loc,
                                None => base.maps(k, loc),
                            });
                        }
                    }
                }
                j += 1;
            }
            proof {
                assert(self.data@.take(i + 1).drop_last() =~= self.data@.take(i as int));
                assert(self.data@[i as int].data@.take(nt as int) =~= self.data@[i as int].data@);
            }
            i += 1;
        }
        assert(self.data@.take(np as int) =~= self.data@);
        Box::new(self.index.copy())
    }
}

pub fn get_demo_columns() -> (r: Vec<Column>)
    ensures
        r@.len() == 5,
        r@[0].id == TypeId::VARCHAR && r@[0].length == 20,
        r@[1].id == TypeId::VARCHAR && r@[1].length == 20,
        r@[2].id == TypeId::VARCHAR && r@[2].length == 20,
        r@[3].id == TypeId::BIGINT && r@[3].length == 4,
        r@[4].id == TypeId::SMALLINT && r@[4].length == 4,
{
    let c1 = Column::new("name".to_string(), TypeId::VARCHAR, 20);
    let c2 = Column::new("lastname".to_string(), TypeId::VARCHAR, 20);
    let c3 = Column::new("address".to_string(), TypeId::VARCHAR, 20);
    let c4 = Column::new("salary".to_string(), TypeId::BIGINT, 4);
    let c5 = Column::new("age".to_string(), TypeId::SMALLINT, 4);
    vec![c1, c2, c3, c4, c5]
}

/// Weight of the demo schema: three VARCHARs, a BIGINT and a SMALLINT.
pub const DEMO_TUPLE_WEIGHT: u64 = 310;

pub fn get_demo_schema() -> (r: Schema)
    ensures
        r.columns@.len() == 5,
        r.length == 5,
        schema_weight(r.columns@) == DEMO_TUPLE_WEIGHT,
{
    let columns = get_demo_columns();
    let schema = Schema::new(columns);
    proof {
        let c = schema.columns@;
        reveal_with_fuel(schema_weight, 6);
        assert(c.drop_last().drop_last().drop_last().drop_last().drop_last().len() == 0);
    }
    schema
}

/// A demo tuple with a random id.
pub fn get_demo_tuple() -> (r: Tuple)
    ensures
        r.val == DEMO_TUPLE_WEIGHT,
        r.offset == DEMO_TUPLE_WEIGHT,
{
    let id: u64 = rand::random::<u64>();
    Tuple::construct_from_schema(id, get_demo_schema())
}

pub fn get_demo_table_page(tuples: Vec<Tuple>) -> (r: TablePage)
    ensures
        r.data@ == tuples@,
{
    TablePage::new(tuples)
}

/// A heap of `n` pages, each of `m` demo tuples with random ids.
pub fn get_demo_table_heap_with_n_page_m_tuples_each(n: usize, m: usize) -> (r: TableHeap)
    ensures
        r.wf(),
        r.data@.len() == n,
        forall|i: int| 0 <= i < n ==> (#[trigger] r.data@[i]).data@.len() == m,
        forall|i: int, j: int|
            0 <= i < n && 0 <= j < m ==> (#[trigger] r.data@[i].data@[j]).val == DEMO_TUPLE_WEIGHT
                && r.data@[i].data@[j].offset == DEMO_TUPLE_WEIGHT,
        forall|k: u64| !r.index().has_key(k),
{
    let mut table_heap = TableHeap::new(n);
    let mut p: usize = 0;
    while p < n
        invariant
            p <= n,
            table_heap.wf(),
            table_heap.data@.len() == p,
            forall|i: int| 0 <= i < p ==> (#[trigger] table_heap.data@[i]).data@.len() == m,
            forall|i: int, j: int|
                0 <= i < p && 0 <= j < m ==> (#[trigger] table_heap.data@[i].data@[j]).val
                    == DEMO_TUPLE_WEIGHT && table_heap.data@[i].data@[j].offset == DEMO_TUPLE_WEIGHT,
            forall|k: u64| !table_heap.index().has_key(k),
        decreases n - p,
    {
        let mut tuples: Vec<Tuple> = Vec::new();
        let mut t: usize = 0;
        while t < m
            invariant
                t <= m,
                tuples@.len() == t,
                forall|j: int|
                    0 <= j < t ==> (#[trigger] tuples@[j]).val == DEMO_TUPLE_WEIGHT && tuples@[j].offset
                        == DEMO_TUPLE_WEIGHT,
            decreases m - t,
        {
            tuples.push(get_demo_tuple());
            t += 1;
        }
        table_heap.add_table_page(get_demo_table_page(tuples));
        p += 1;
    }
    table_heap
}

} // verus!
