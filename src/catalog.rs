use vstd::prelude::*;
use crate::buffer_pool_manager::BufferPoolManager;
use crate::query_types::{Schema, TableHeap, same_schema};
use crate::transaction::Transaction;

verus! {

pub type TableId = u32;

pub type IndexId = u32;

/// Kinds of index a table can carry.
#[derive(PartialEq, Eq, Structural, Clone, Copy, Debug)]
pub enum IndexType {
    BPlusTreeIndex,
    SkipListIndex,
}

/// Node kinds of a B+ tree index.
#[derive(PartialEq, Eq, Structural, Clone, Copy, Debug)]
pub enum NodeType {
    Leaf,
    Regular,
}

/// What the catalog records of one table.
pub struct TableInfo {
    pub table_name: String,
    pub schema: Schema,
    pub table_heap: TableHeap,
    pub table_id: TableId,
}

impl TableInfo {
    pub fn new(table_name: String, schema: Schema, table_heap: TableHeap, table_id: TableId) -> (r: Self)
        ensures
            r.table_name@ == table_name@,
            r.schema == schema,
            r.table_heap == table_heap,
            r.table_id == table_id,
    {
        TableInfo { table_name, schema, table_heap, table_id }
    }
}

/// Tables by id and by name. Ids are handed out in creation order; a name
/// that is created again is taken over by the newer table.
pub struct Catalog {
    pub bpm: BufferPoolManager,
    tables: Vec<TableInfo>,
    table_names: Vec<(String, TableId)>,
    table_next_id: u32,
    /// Per table name, its indexes by name.
    index_names: Vec<(String, Vec<(String, IndexId)>)>,
}

impl Catalog {
    /// Number of tables created so far.
    pub closed spec fn table_count(&self) -> nat {
        self.tables@.len()
    }

    pub closed spec fn table(&self, id: TableId) -> TableInfo {
        self.tables@[id as int]
    }

    /// The distinct table names, oldest first.
    pub closed spec fn names(&self) -> Seq<Seq<char>> {
        self.table_names@.map_values(|e: (String, TableId)| e.0@)
    }

    /// The id a name currently stands for.
    pub closed spec fn id_of(&self, name: Seq<char>) -> Option<TableId> {
        if exists|i: int| 0 <= i < self.table_names@.len() && #[trigger] self.table_names@[i].0@ == name {
            let i = choose|i: int| 0 <= i < self.table_names@.len() && #[trigger] self.table_names@[i].0@ == name;
            Some(self.table_names@[i].1)
        } else {
            None
        }
    }

    /// The catalog keeps an index registry for table name `name`.
    pub closed spec fn has_index_registry(&self, name: Seq<char>) -> bool {
        exists|i: int| 0 <= i < self.index_names@.len() && #[trigger] self.index_names@[i].0@ == name
    }

    pub closed spec fn wf(&self) -> bool {
        &&& self.table_next_id == self.tables@.len()
        &&& self.bpm.wf()
        &&& forall|i: int, j: int|
            0 <= i < j < self.table_names@.len() ==> (#[trigger] self.table_names@[i]).0@
                != (#[trigger] self.table_names@[j]).0@
    }

    /// An empty catalog over a pool of one frame.
    pub fn new() -> (r: Self)
        ensures
            r.wf(),
            r.table_count() == 0,
            r.names().len() == 0,
            forall|n: Seq<char>| !r.has_index_registry(n),
    {
        Catalog {
            bpm: BufferPoolManager::new(1, 5),
            tables: Vec::new(),
            table_names: Vec::new(),
            table_next_id: 0,
            index_names: Vec::new(),
        }
    }

    /// Records a new table with an empty heap under the next id and points
    /// `table_name` at it. Returns what was recorded.
    pub fn create_table(
        &mut self,
        _trxn: Transaction,
        table_name: String,
        schema: Schema,
        create_table: bool,
    ) -> (r: TableInfo)
        requires
            old(self).wf(),
            create_table,
            old(self).table_count() < u32::MAX,
        ensures
            final(self).wf(),
            final(self).table_count() == old(self).table_count() + 1,
            r.table_id == old(self).table_count(),
            r.table_name@ == table_name@,
            same_schema(r.schema, schema),
            r.table_heap.data@.len() == 0,
            final(self).table(r.table_id).table_name@ == table_name@,
            same_schema(final(self).table(r.table_id).schema, schema),
            forall|id: TableId| id < old(self).table_count() ==> #[trigger] final(self).table(id) == old(self).table(id),
            final(self).id_of(table_name@) == Some(r.table_id),
            forall|n: Seq<char>| n != table_name@ ==> #[trigger] final(self).id_of(n) == old(self).id_of(n),
            final(self).has_index_registry(table_name@),
            forall|n: Seq<char>| #[trigger] old(self).has_index_registry(n) ==> final(self).has_index_registry(n),
            final(self).names() == if old(self).id_of(table_name@) is Some {
                old(self).names()
            } else {
                old(self).names().push(table_name@)
            },
    {
        let table_id = self.table_next_id;
        let stored = TableInfo::new(table_name.clone(), schema.copy(), TableHeap::new(1), table_id);
        self.tables.push(stored);
        self.table_next_id = self.table_next_id + 1;
        let ghost names0 = self.table_names@;
        let n = self.table_names.len();
        let mut i: usize = 0;
        while i < n && !(self.table_names[i].0 == table_name)
            invariant
                n == self.table_names@.len(),
                self.table_names@ == names0,
                i <= n,
                forall|j: int| 0 <= j < i ==> (#[trigger] names0[j]).0@ != table_name@,
            decreases n - i,
        {
            i += 1;
        }
        let found = i < n;
        proof {
            assert(self.names() =~= names0.map_values(|e: (String, TableId)| e.0@));
        }
        if found {
            let entry = (self.table_names[i].0.clone(), table_id);
            self.table_names.set(i, entry);
            proof {
                assert(names0[i as int].0@ == table_name@);
                assert(self.names() =~= old(self).names());
                assert(self.table_names@[i as int].0@ == table_name@);
                assert forall|n2: Seq<char>| n2 != table_name@ implies #[trigger] self.id_of(n2) == old(self).id_of(n2) by {
                    assert forall|j: int| 0 <= j < n implies (#[trigger] self.table_names@[j]).0@ == names0[j].0@ by {}
                    if exists|j: int| 0 <= j < n && #[trigger] self.table_names@[j].0@ == n2 {
                        let a = choose|j: int| 0 <= j < n && #[trigger] self.table_names@[j].0@ == n2;
                        let b = choose|j: int| 0 <= j < n && #[trigger] names0[j].0@ == n2;
                        assert(names0[a].0@ == n2);
                        if a != b {
                            if a < b {
                                assert(names0[a].0@ != names0[b].0@);
                            } else {
                                assert(names0[b].0@ != names0[a].0@);
                            }
                        }
                        assert(a != i);
                    } else {
                        assert forall|j: int| 0 <= j < n implies #[trigger] names0[j].0@ != n2 by {
                            assert(self.table_names@[j].0@ != n2);
                        }
                    }
                }
                let a = choose|j: int| 0 <= j < n && #[trigger] self.table_names@[j].0@ == table_name@;
                if a != i {
                    if a < i {
                        assert(names0[a].0@ != names0[i as int].0@);
                    } else {
                        assert(names0[i as int].0@ != names0[a].0@);
                    }
                }
            }
        } else {
            self.table_names.push((table_name.clone(), table_id));
            proof {
                let last = self.table_names@.len() - 1;
                assert(self.table_names@[last].0@ == table_name@);
                assert(self.names() =~= old(self).names().push(table_name@));
                assert(old(self).id_of(table_name@) is None) by {
                    if exists|j: int| 0 <= j < n && #[trigger] names0[j].0@ == table_name@ {
                        let a = choose|j: int| 0 <= j < n && #[trigger] names0[j].0@ == table_name@;
                    }
                }
                assert forall|n2: Seq<char>| n2 != table_name@ implies #[trigger] self.id_of(n2) == old(self).id_of(n2) by {
                    if exists|j: int| 0 <= j < self.table_names@.len() && #[trigger] self.table_names@[j].0@ == n2 {
                        let a = choose|j: int| 0 <= j < self.table_names@.len() && #[trigger] self.table_names@[j].0@ == n2;
                        assert(a < n);
                        assert(names0[a].0@ == n2);
                        let b = choose|j: int| 0 <= j < n && #[trigger] names0[j].0@ == n2;
                        if a != b {
                            if a < b {
                                assert(names0[a].0@ != names0[b].0@);
                            } else {
                                assert(names0[b].0@ != names0[a].0@);
                            }
                        }
                    } else {
                        assert forall|j: int| 0 <= j < n implies #[trigger] names0[j].0@ != n2 by {
                            assert(self.table_names@[j].0@ != n2);
                        }
                    }
                }
                let a = choose|j: int| 0 <= j < self.table_names@.len() && #[trigger] self.table_names@[j].0@ == table_name@;
                assert(a == last);
            }
        }
        let ghost s_pre = *self;
        self.register_indexes(&table_name);
        proof {
            assert(self.table_names == s_pre.table_names);
            assert forall|n: Seq<char>| n != table_name@ implies #[trigger] self.id_of(n) == old(self).id_of(n) by {
                assert(self.id_of(n) == s_pre.id_of(n));
            }
            assert forall|n: Seq<char>| #[trigger] old(self).has_index_registry(n) implies self.has_index_registry(n) by {
                assert(s_pre.index_names == old(self).index_names);
                assert(s_pre.has_index_registry(n));
            }
            assert(self.id_of(table_name@) == s_pre.id_of(table_name@));
            assert(self.names() == s_pre.names());
        }
        TableInfo::new(table_name, schema, TableHeap::new(1), table_id)
    }

    /// Gives table name `name` an empty index registry unless it has one.
    fn register_indexes(&mut self, name: &String)
        ensures
            final(self).has_index_registry(name@),
            forall|n: Seq<char>| #[trigger] old(self).has_index_registry(n) ==> final(self).has_index_registry(n),
            final(self).bpm == old(self).bpm,
            final(self).tables == old(self).tables,
            final(self).table_names == old(self).table_names,
            final(self).table_next_id == old(self).table_next_id,
    {
        let n = self.index_names.len();
        let mut i: usize = 0;
        while i < n && !(self.index_names[i].0 == *name)
            invariant
                n == self.index_names@.len(),
                i <= n,
            decreases n - i,
        {
            i += 1;
        }
        if i == n {
            let ghost before = self.index_names@;
            self.index_names.push((name.clone(), Vec::new()));
            proof {
                assert(self.index_names@[n as int].0@ == name@);
                assert forall|m: Seq<char>| #[trigger] old(self).has_index_registry(m) implies self.has_index_registry(m) by {
                    let j = choose|j: int| 0 <= j < before.len() && #[trigger] before[j].0@ == m;
                    assert(self.index_names@[j] == before[j]);
                }
            }
        } else {
            assert(self.index_names@[i as int].0@ == name@);
        }
    }

    /// The id the next table will get.
    pub fn next_table_id(&self) -> (r: u32)
        requires
            self.wf(),
        ensures
            r == self.table_count(),
    {
        self.table_next_id
    }

    /// Names of all tables, oldest first.
    pub fn get_table(&self, _table_name: Option<String>) -> (r: Vec<String>)
        requires
            self.wf(),
        ensures
            r@.map_values(|s: String| s@) == self.names(),
    {
        let mut out: Vec<String> = Vec::new();
        let mut i: usize = 0;
        while i < self.table_names.len()
            invariant
                i <= self.table_names@.len(),
                out@.len() == i,
                forall|j: int| 0 <= j < i ==> (#[trigger] out@[j])@ == self.table_names@[j].0@,
            decreases self.table_names@.len() - i,
        {
            out.push(self.table_names[i].0.clone());
            i += 1;
        }
        assert(out@.map_values(|s: String| s@) =~= self.names());
        out
    }
}

} // verus!
