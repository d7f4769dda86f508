//! The engine: tables held as metadata plus data pages, and the
//! `CREATE TABLE`, `CREATE INDEX`, `INSERT` and `SELECT` operations on them.
use vstd::prelude::*;
use vstd::string::StringExecFns;

use crate::data::{pages_view, pages_wf, rows, rows_of_pages, all_page_numbers, DataManager};
use crate::codec::{is_prefix, encode_page, decode_page, page_bytes, page_plain, decode_metadata, encode_metadata, index_model, metadata_bytes, table_model, type_code};
use crate::metadata::{with_page, Index};
use crate::insert::insert_post;
use crate::statement::{Query, Statement};
use crate::value::Value;
use crate::record::{clauses_view, Clause, DynamicRecord};
use crate::table::{
    columns_of, descriptions, names_primary_key, primary_key_of, valid_descriptions, Table,
    TableView, INDEX_SUFFIX,
};
use crate::metadata::{sql_type_of, SqlType};
use crate::text::{join3, same_text, texts, to_upper};

verus! {

/// A table as the engine holds it: its metadata and its data pages.
pub struct StoredTable {
    pub metadata: Table,
    pub pages: Vec<Vec<DynamicRecord>>,
}

impl StoredTable {
    /// Well-formed metadata and records, and a page count below the
    /// machine limit.
    pub open spec fn wf(&self) -> bool {
        &&& self.metadata.wf()
        &&& pages_wf(pages_view(self.pages@))
        &&& self.pages@.len() < usize::MAX - 1
        &&& forall|a: int|
            0 <= a < self.metadata.indices@.len() ==> indexes_pages(
                #[trigger] self.metadata.indices@[a],
                pages_view(self.pages@),
            )
    }
}

/// What an operation hands back: a table's metadata and/or records.
#[derive(Debug)]
pub struct EngineResponse {
    pub records: Option<Vec<DynamicRecord>>,
    pub table: Option<Table>,
}

/// The result of an operation; the error is a message for the user.
pub type EngineResult = Result<EngineResponse, String>;

/// The error of a query on a table that does not exist.
pub const NO_SUCH_TABLE: &'static str = "This table does not exist.";

/// The error of a query that selects a column the table does not have.
pub const NO_SUCH_COLUMN: &'static str = "Please choose only columns that exist on this table.";

/// The error of `CREATE INDEX` on a table that does not exist.
pub const NO_TABLE_FOR_INDEX: &'static str = "Table does not exist";

/// The error of `CREATE INDEX` on a column the table does not have.
pub open spec fn missing_column_message(table: Seq<char>, column: Seq<char>) -> Seq<char> {
    "'"@ + column + "' does not exist on '"@ + table + "'"@
}

/// The error of `CREATE INDEX` on a column that is already indexed.
pub open spec fn already_indexed_message(table: Seq<char>, column: Seq<char>) -> Seq<char> {
    "'"@ + table + "("@ + column + ")' is already indexed."@
}

/// Whether `index` records, for every stored record that has its column,
/// the page (numbered from 1) holding that record under the record's value.
pub open spec fn indexes_pages(index: Index, pages: Seq<Seq<DynamicRecord>>) -> bool {
    forall|p: int, j: int|
        0 <= p < pages.len() && 0 <= j < pages[p].len() && (#[trigger] pages[p][j]).has(
            index.column_name@,
        ) ==> index.pages_of(pages[p][j].value_of(index.column_name@).text()).contains(
            (p + 1) as usize,
        )
}

/// A new index over `column_name`, filled from the stored pages.
fn build_index(index_name: String, column_name: &str, pages: &Vec<Vec<DynamicRecord>>) -> (r: Index)
    requires
        pages_wf(pages_view(pages@)),
        pages@.len() < usize::MAX - 1,
    ensures
        r.wf(),
        r.name == index_name,
        r.column_name@ == column_name@,
        indexes_pages(r, pages_view(pages@)),
{
    let ghost pv = pages_view(pages@);
    let ghost c = column_name@;
    let mut index = Index::new(index_name, column_name);
    let mut p: usize = 0;
    while p < pages.len()
        invariant
            p <= pages@.len(),
            pages@.len() < usize::MAX - 1,
            pv == pages_view(pages@),
            pages_wf(pv),
            index.wf(),
            index.name == index_name,
            index.column_name@ == c,
            c == column_name@,
            forall|q: int, j: int|
                0 <= q < p && 0 <= j < pv[q].len() && (#[trigger] pv[q][j]).has(c) ==> index.pages_of(
                    pv[q][j].value_of(c).text(),
                ).contains((q + 1) as usize),
        decreases pages.len() - p,
    {
        let page = &pages[p];
        assert(pv[p as int] == page@);
        let mut j: usize = 0;
        while j < page.len()
            invariant
                p < pages@.len(),
                j <= page@.len(),
                pages@.len() < usize::MAX - 1,
                pv == pages_view(pages@),
                pv[p as int] == page@,
                pages_wf(pv),
                index.wf(),
                index.name == index_name,
                index.column_name@ == c,
                c == column_name@,
                forall|q: int, k: int|
                    0 <= q < p && 0 <= k < pv[q].len() && (#[trigger] pv[q][k]).has(c) ==> index.pages_of(
                        pv[q][k].value_of(c).text(),
                    ).contains((q + 1) as usize),
                forall|k: int|
                    0 <= k < j && (#[trigger] pv[p as int][k]).has(c) ==> index.pages_of(
                        pv[p as int][k].value_of(c).text(),
                    ).contains((p + 1) as usize),
            decreases page.len() - j,
        {
            let rec = &page[j];
            assert(pv[p as int][j as int] == *rec);
            assert(rec.wf());
            match rec.get(column_name) {
                Some(v) => {
                    assert(*v == rec.value_of(c));
                    let key = v.to_text();
                    let ghost kk = key@;
                    let ghost old_index = index;
                    index.update_tree((key, p + 1));
                    proof {
                        assert forall|w: Seq<char>, x: usize| #[trigger] old_index.pages_of(w).contains(x)
                            implies index.pages_of(w).contains(x) by {
                            let y = choose|y: int| 0 <= y < old_index.pages_of(w).len() && old_index.pages_of(w)[y] == x;
                            if w == kk {
                                assert(index.pages_of(w) == with_page(old_index.pages_of(w), (p + 1) as usize));
                            } else {
                                assert(index.pages_of(w) == old_index.pages_of(w));
                            }
                            assert(index.pages_of(w)[y] == x);
                        }
                        assert(index.pages_of(kk) == with_page(old_index.pages_of(kk), (p + 1) as usize));
                        if !old_index.pages_of(kk).contains((p + 1) as usize) {
                            assert(index.pages_of(kk)[index.pages_of(kk).len() - 1] == (p + 1) as usize);
                        }
                        assert(index.pages_of(kk).contains((p + 1) as usize));
                        assert forall|k: int| 0 <= k <= j && (#[trigger] pv[p as int][k]).has(c) implies index.pages_of(
                            pv[p as int][k].value_of(c).text(),
                        ).contains((p + 1) as usize) by {
                            if k < j {
                                assert(old_index.pages_of(pv[p as int][k].value_of(c).text()).contains((p + 1) as usize));
                            } else {
                                assert(pv[p as int][k] == *rec);
                                assert(rec.value_of(c) == *v);
                                assert(v.text() == kk);
                            }
                        }
                        assert forall|q: int, k: int|
                            0 <= q < p && 0 <= k < pv[q].len() && (#[trigger] pv[q][k]).has(c) implies index.pages_of(
                            pv[q][k].value_of(c).text(),
                        ).contains((q + 1) as usize) by {
                            assert(old_index.pages_of(pv[q][k].value_of(c).text()).contains((q + 1) as usize));
                        }
                    }
                },
                None => {},
            }
            j = j + 1;
        }
        p = p + 1;
    }
    index
}

/// Whether `b` is the encoding of a page of well-formed records.
pub open spec fn well_formed_page_bytes(b: Seq<u8>) -> bool {
    exists|p: Seq<DynamicRecord>|
        (forall|j: int| 0 <= j < p.len() ==> (#[trigger] p[j]).wf()) && #[trigger] page_bytes(page_plain(p))
            == b
}

/// Whether table files can be loaded: the metadata is the encoding of
/// well-formed metadata, each page the encoding of well-formed records, and
/// the page count is under the machine limit.
pub open spec fn loadable(metadata: Seq<u8>, pages: Seq<Vec<u8>>) -> bool {
    &&& exists|t0: Table| t0.wf() && #[trigger] metadata_bytes(table_model(t0)) == metadata
    &&& forall|k: int| 0 <= k < pages.len() ==> well_formed_page_bytes(#[trigger] pages[k]@)
    &&& pages.len() < usize::MAX - 1
}

/// The error of a data page file that does not hold a page of records.
pub const CORRUPT_PAGE: &'static str = "A data page of the table is unreadable.";

/// Refills every index of `t` from the stored pages.
fn index_all_pages(t: &mut Table, pages: &Vec<Vec<DynamicRecord>>)
    requires
        old(t).wf(),
        pages_wf(pages_view(pages@)),
        pages@.len() < usize::MAX - 1,
    ensures
        final(t).wf(),
        final(t).name == old(t).name,
        final(t).primary_key == old(t).primary_key,
        final(t).latest_primary_key == old(t).latest_primary_key,
        final(t).columns == old(t).columns,
        final(t).indices@.len() == old(t).indices@.len(),
        forall|a: int|
            0 <= a < final(t).indices@.len() ==> (#[trigger] final(t).indices@[a]).name == old(t).indices@[a].name
                && final(t).indices@[a].column_name@ == old(t).indices@[a].column_name@,
        forall|a: int|
            0 <= a < final(t).indices@.len() ==> indexes_pages(
                #[trigger] final(t).indices@[a],
                pages_view(pages@),
            ),
{
    let mut a: usize = 0;
    while a < t.indices.len()
        invariant
            a <= t.indices@.len(),
            pages_wf(pages_view(pages@)),
            pages@.len() < usize::MAX - 1,
            t.wf(),
            t.name == old(t).name,
            t.primary_key == old(t).primary_key,
            t.latest_primary_key == old(t).latest_primary_key,
            t.columns == old(t).columns,
            t.indices@.len() == old(t).indices@.len(),
            t.index_columns() == old(t).index_columns(),
            forall|b: int|
                0 <= b < t.indices@.len() ==> (#[trigger] t.indices@[b]).name == old(t).indices@[b].name,
            forall|b: int|
                0 <= b < a ==> indexes_pages(#[trigger] t.indices@[b], pages_view(pages@)),
        decreases t.indices.len() - a,
    {
        let index = build_index(t.indices[a].name.clone(), t.indices[a].column_name.as_str(), pages);
        let ghost before = *t;
        t.indices.set(a, index);
        proof {
            assert(t.index_columns() =~= before.index_columns());
            assert forall|b: int| 0 <= b < t.indices@.len() implies (#[trigger] t.indices@[b]).wf() by {
                if b != a {
                    assert(t.indices@[b] == before.indices@[b]);
                }
            }
            assert(t.is_indexed(t.primary_key.name@)) by {
                let c = choose|c: int| 0 <= c < before.index_columns().len() && before.index_columns()[c] == t.primary_key.name@;
                assert(t.index_columns()[c] == t.primary_key.name@);
            }
            assert forall|b: int| 0 <= b <= a implies indexes_pages(#[trigger] t.indices@[b], pages_view(pages@)) by {
                if b < a {
                    assert(t.indices@[b] == before.indices@[b]);
                }
            }
        }
        a = a + 1;
    }
    proof {
        assert forall|b: int| 0 <= b < t.indices@.len() implies (#[trigger] t.indices@[b]).column_name@ == old(t).indices@[b].column_name@ by {
            assert(t.index_columns()[b] == old(t).index_columns()[b]);
        }
    }
}

/// Writes and reads table metadata as bytes.
pub struct TableManager {}

/// The error of metadata bytes that do not hold well-formed metadata.
pub const CORRUPT_METADATA: &'static str = "The table metadata is unreadable.";

impl TableManager {
    /// A table manager.
    pub fn new() -> (r: Self) {
        TableManager {  }
    }

    /// The bytes of a table's metadata file.
    pub fn store_meta_data(&self, table: &Table) -> (r: Vec<u8>)
        ensures
            r@ == metadata_bytes(table_model(*table)),
    {
        encode_metadata(table)
    }

    /// The metadata held in `bytes`; an error when they do not hold
    /// well-formed metadata.
    pub fn load_meta_data(&self, bytes: &Vec<u8>) -> (r: Result<Table, String>)
        ensures
            r matches Ok(t) ==> t.wf() && is_prefix(metadata_bytes(table_model(t)), bytes@),
            r matches Err(m) ==> m@ == CORRUPT_METADATA@,
            (forall|t0: Table| !is_prefix(#[trigger] metadata_bytes(table_model(t0)), bytes@)) ==> r is Err,
            forall|t0: Table|
                t0.wf() && #[trigger] metadata_bytes(table_model(t0)) == bytes@ ==> (r matches Ok(t)
                    && table_model(t) == table_model(t0)),
    {
        match decode_metadata(bytes) {
            Some(t) => {
                if t.check_wf() {
                    Ok(t)
                } else {
                    proof {
                        assert forall|t0: Table| t0.wf() && #[trigger] metadata_bytes(table_model(t0)) == bytes@ implies false by {
                            lemma_model_keeps_wf(t0, t);
                        }
                    }
                    Err(String::from_str(CORRUPT_METADATA))
                }
            },
            None => Err(String::from_str(CORRUPT_METADATA)),
        }
    }
}

/// Metadata with the plain value of well-formed metadata has the same view
/// and is well formed.
pub proof fn lemma_model_keeps_wf(t0: Table, t: Table)
    requires
        table_model(t) == table_model(t0),
    ensures
        t.view() == t0.view(),
        t0.wf() ==> t.wf(),
{
    assert(table_model(t).3.len() == t.columns@.len());
    assert(table_model(t0).3.len() == t0.columns@.len());
    assert(table_model(t).4.len() == t.indices@.len());
    assert(table_model(t0).4.len() == t0.indices@.len());
    assert forall|k: int| 0 <= k < t.indices@.len() implies (#[trigger] t.indices@[k]).keys() == t0.indices@[k].keys()
        && t.indices@[k].view_map() == t0.indices@[k].view_map() && t.indices@[k].name@ == t0.indices@[k].name@
        && t.indices@[k].column_name@ == t0.indices@[k].column_name@
        && (t0.indices@[k].wf() ==> t.indices@[k].wf()) by {
        assert(table_model(t).4[k] == index_model(t.indices@[k]));
        assert(table_model(t0).4[k] == index_model(t0.indices@[k]));
        let x = t.indices@[k];
        let y = t0.indices@[k];
        assert(x.tree@.len() == y.tree@.len()) by {
            assert(index_model(x).2.len() == index_model(y).2.len());
        }
        assert forall|e: int| 0 <= e < x.tree@.len() implies x.tree@[e].key@ == y.tree@[e].key@ && x.tree@[e].pages@ == y.tree@[e].pages@ by {
            assert(index_model(x).2[e] == index_model(y).2[e]);
        }
        assert(x.keys() =~= y.keys());
        assert(x.view_map() =~= y.view_map());
        assert(y.wf() ==> x.wf()) by {
            if y.wf() {
                assert forall|e: int| 0 <= e < x.tree@.len() implies (#[trigger] x.tree@[e]).pages@.no_duplicates() by {
                    assert(x.tree@[e].pages@ == y.tree@[e].pages@);
                    assert(y.tree@[e].pages@.no_duplicates());
                }
            }
        }
    }
    assert forall|k: int| 0 <= k < t.columns@.len() implies (#[trigger] t.columns@[k]).name@ == t0.columns@[k].name@
        && t.columns@[k].data_type == t0.columns@[k].data_type && t.columns@[k].nullable == t0.columns@[k].nullable by {
        assert(table_model(t).3[k] == table_model(t0).3[k]);
        let a = t.columns@[k].data_type;
        let b = t0.columns@[k].data_type;
        assert(type_code(a) == type_code(b));
    }
    assert(t.primary_key.data_type == t0.primary_key.data_type) by {
        assert(type_code(t.primary_key.data_type) == type_code(t0.primary_key.data_type));
    }
    assert(t.view().3 =~= t0.view().3);
    assert(t.view().4 =~= t0.view().4);
    assert(t.index_columns() =~= t0.index_columns());
}

/// The kinds of storage engine.
pub enum Type {
    Binary,
}

/// A new, empty engine of the given kind.
pub fn io_engine_factory(storage_type: Type) -> (r: BinaryEngine)
    ensures
        r.wf(),
        forall|n: Seq<char>| !r.has_table(n),
{
    match storage_type {
        Type::Binary => BinaryEngine::new(),
    }
}

/// What `create_table` guarantees of its result and of the engine after it.
pub open spec fn create_table_post(
    prev: BinaryEngine,
    next: BinaryEngine,
    table_name: String,
    columns: Vec<Vec<String>>,
    r: EngineResult,
) -> bool {
    &&& r is Ok <==> valid_descriptions(descriptions(columns@))
    &&& r is Err ==> next == prev
    &&& r is Ok ==> ({
            let n = table_name@;
            let vs = descriptions(columns@);
            let t = next.metadata_of(n);
            &&& next.has_table(n)
            &&& forall|m: Seq<char>| m != n ==> (next.has_table(m) == prev.has_table(m))
            &&& forall|m: Seq<char>| m != n && prev.has_table(m) ==> next.stored(m) == prev.stored(m)
            &&& t.name@ == n
            &&& t.primary_key.name@ == primary_key_of(vs).0
            &&& t.primary_key.data_type == primary_key_of(vs).1
            &&& !t.primary_key.nullable
            &&& crate::table::columns_view(t.columns@) == columns_of(vs)
            &&& t.latest_primary_key == 0
            &&& t.indices@.len() == 1
            &&& t.indices@[0].column_name@ == t.primary_key.name@
            &&& !prev.has_table(n) ==> t.indices@[0].view_map() == Map::<Seq<char>, Seq<usize>>::empty()
            &&& indexes_pages(t.indices@[0], next.pages_of(n))
            &&& prev.has_table(n) ==> next.pages_of(n) == prev.pages_of(n)
            &&& !prev.has_table(n) ==> next.pages_of(n) == Seq::<Seq<DynamicRecord>>::empty()
            &&& r->Ok_0.table matches Some(x) && x.view() == t.view()
            &&& r->Ok_0.records is None
        })
}

/// What `create_index` guarantees of its result and of the engine after it.
pub open spec fn create_index_post(
    prev: BinaryEngine,
    next: BinaryEngine,
    table_name: String,
    column_name: String,
    index_name: String,
    r: EngineResult,
) -> bool {
    &&& r is Err ==> next == prev
    &&& !prev.has_table(table_name@) ==> (r matches Err(m) && m@ == NO_TABLE_FOR_INDEX@)
    &&& prev.has_table(table_name@) && !prev.metadata_of(table_name@).column_names().contains(column_name@)
            ==> (r matches Err(m) && m@ == missing_column_message(table_name@, column_name@))
    &&& prev.has_table(table_name@) && prev.metadata_of(table_name@).column_names().contains(column_name@)
            && prev.metadata_of(table_name@).is_indexed(column_name@)
            ==> (r matches Err(m) && m@ == already_indexed_message(table_name@, column_name@))
    &&& prev.has_table(table_name@) && prev.metadata_of(table_name@).column_names().contains(column_name@)
            && !prev.metadata_of(table_name@).is_indexed(column_name@) ==> r is Ok
    &&& r is Ok ==> ({
            let n = table_name@;
            let before = prev.metadata_of(n);
            let after = next.metadata_of(n);
            let added = after.indices@.last();
            &&& next.table_names() == prev.table_names()
            &&& forall|m: Seq<char>| m != n && prev.has_table(m) ==> next.stored(m) == prev.stored(m)
            &&& next.pages_of(n) == prev.pages_of(n)
            &&& after.name == before.name
            &&& after.primary_key == before.primary_key
            &&& after.latest_primary_key == before.latest_primary_key
            &&& after.columns == before.columns
            &&& after.indices@.len() == before.indices@.len() + 1
            &&& after.indices@.drop_last() == before.indices@
            &&& added.name == index_name
            &&& added.column_name@ == column_name@
            &&& indexes_pages(added, next.pages_of(n))
            &&& r->Ok_0.table matches Some(x) && x.view() == after.view()
        })
}

/// What `select` guarantees of its result.
pub open spec fn select_post(
    prev: BinaryEngine,
    table_name: String,
    column_names: Vec<String>,
    where_clauses: Vec<Clause>,
    r: EngineResult,
) -> bool {
    &&& !prev.has_table(table_name@) ==> (r matches Err(m) && m@ == NO_SUCH_TABLE@)
    &&& prev.has_table(table_name@) && !prev.metadata_of(table_name@).selects_existing(
            texts(column_names@),
        ) ==> (r matches Err(m) && m@ == NO_SUCH_COLUMN@)
    &&& prev.has_table(table_name@) && prev.metadata_of(table_name@).selects_existing(
            texts(column_names@),
        ) ==> (r matches Ok(resp) && resp.table is None && resp.records is Some && rows(resp.records->0@)
            == rows_of_pages(
            prev.pages_of(table_name@),
            match prev.metadata_of(table_name@).candidate_pages(clauses_view(where_clauses@)) {
                Some(p) => p,
                None => all_page_numbers(prev.pages_of(table_name@).len()),
            },
            texts(column_names@),
            clauses_view(where_clauses@),
        ))
}

/// What `execute` guarantees for a statement: what the statement's own
/// operation guarantees.
pub open spec fn execute_post(prev: BinaryEngine, next: BinaryEngine, s: Statement, r: EngineResult) -> bool {
    match s {
        Statement::CreateTable { table_name, columns } => create_table_post(prev, next, table_name, columns, r),
        Statement::Select { table_name, selection, where_clauses } => next == prev && select_post(
            prev,
            table_name,
            selection,
            where_clauses,
            r,
        ),
        Statement::InsertInto { table_name, column_names, values } => insert_post(
            prev,
            next,
            table_name,
            column_names,
            values,
            r,
        ),
        Statement::CreateIndex { table_name, column_name, index_name } => create_index_post(
            prev,
            next,
            table_name,
            column_name,
            index_name,
            r,
        ),
    }
}

/// The storage engine: every table of the storage root.
pub struct BinaryEngine {
    pub table_manager: TableManager,
    pub data_manager: DataManager,
    pub tables: Vec<StoredTable>,
}

/// Whether each description has a name and a type, the type a known one
/// unless the description only names the primary key.
pub fn check_descriptions(columns: &Vec<Vec<String>>) -> (r: bool)
    ensures
        r == valid_descriptions(descriptions(columns@)),
{
    let ghost vs = descriptions(columns@);
    let mut i: usize = 0;
    proof {
        reveal_strlit("PRIMARY KEY");
    }
    while i < columns.len()
        invariant
            i <= columns@.len(),
            vs == descriptions(columns@),
            forall|j: int|
                0 <= j < i ==> #[trigger] vs[j].len() >= 2 && (!names_primary_key(vs[j])
                    ==> sql_type_of(vs[j][1]) is Some),
        decreases columns.len() - i,
    {
        let v = &columns[i];
        assert(vs[i as int] == texts(v@));
        assert(vs[i as int].len() == v@.len());
        if v.len() < 2 {
            assert(!(vs[i as int].len() >= 2));
            return false;
        }
        let second = to_upper(v[1].as_str());
        if !crate::table::is_primary_key_marker(second.as_str()) {
            if SqlType::parse(v[1].as_str()).is_none() {
                return false;
            }
        }
        i = i + 1;
    }
    true
}

impl BinaryEngine {
    /// The names of the stored tables.
    pub open spec fn table_names(&self) -> Seq<Seq<char>> {
        self.tables@.map_values(|t: StoredTable| t.metadata.name@)
    }

    /// Tables have distinct names and are each well formed.
    pub open spec fn wf(&self) -> bool {
        &&& self.table_names().no_duplicates()
        &&& forall|i: int| 0 <= i < self.tables@.len() ==> (#[trigger] self.tables@[i]).wf()
    }

    /// Whether a table named `n` exists.
    pub open spec fn has_table(&self, n: Seq<char>) -> bool {
        self.table_names().contains(n)
    }

    /// The stored table named `n` (meaningful when `has_table(n)`).
    pub open spec fn stored(&self, n: Seq<char>) -> StoredTable {
        self.tables@[self.table_names().index_of(n)]
    }

    /// The metadata of table `n`.
    pub open spec fn metadata_of(&self, n: Seq<char>) -> Table {
        self.stored(n).metadata
    }

    /// The data pages of table `n`.
    pub open spec fn pages_of(&self, n: Seq<char>) -> Seq<Seq<DynamicRecord>> {
        pages_view(self.stored(n).pages@)
    }

    /// An engine holding no table.
    pub fn new() -> (r: Self)
        ensures
            r.wf(),
            forall|n: Seq<char>| !r.has_table(n),
    {
        let r = BinaryEngine {
            table_manager: TableManager::new(),
            data_manager: DataManager::new(),
            tables: Vec::new(),
        };
        assert(r.table_names() =~= Seq::<Seq<char>>::empty());
        r
    }

    /// Position of the table named `name`, if any.
    pub(crate) fn find_table(&self, name: &str) -> (r: Option<usize>)
        requires
            self.wf(),
        ensures
            r is None <==> !self.has_table(name@),
            r matches Some(i) ==> i < self.tables@.len() && self.table_names().index_of(name@)
                == i && self.tables@[i as int].metadata.name@ == name@,
    {
        let mut i: usize = 0;
        while i < self.tables.len()
            invariant
                i <= self.tables@.len(),
                self.wf(),
                forall|j: int| 0 <= j < i ==> self.tables@[j].metadata.name@ != name@,
            decreases self.tables.len() - i,
        {
            if same_text(self.tables[i].metadata.name.as_str(), name) {
                proof {
                    assert(self.table_names()[i as int] == name@);
                    assert(self.table_names().contains(name@));
                    let k = self.table_names().index_of(name@);
                    assert(0 <= k < self.table_names().len() && self.table_names()[k] == name@);
                }
                return Some(i);
            }
            i = i + 1;
        }
        proof {
            if self.has_table(name@) {
                let j = choose|j: int|
                    0 <= j < self.table_names().len() && self.table_names()[j] == name@;
                assert(self.tables@[j].metadata.name@ == name@);
            }
        }
        None
    }

    /// Creates the table `table_name` from column descriptions (see
    /// `Table::new`). Re-creating an existing table replaces its metadata and
    /// keeps its data pages; its new primary key index is then filled from
    /// the stored records. An unknown type name, or a description without
    /// a name and a type, is an error.
    pub fn create_table(&mut self, table_name: String, columns: Vec<Vec<String>>) -> (r:
        EngineResult)
        requires
            old(self).wf(),
        ensures
            final(self).wf(),
            create_table_post(*old(self), *final(self), table_name, columns, r),
    {
        if !check_descriptions(&columns) {
            return Err(String::from_str("Each column needs a name and a known type (VARCHAR or INTEGER)."));
        }
        let ghost n = table_name@;
        let found = self.find_table(table_name.as_str());
        let mut table = Table::new(table_name, columns);
        let ghost old_names = self.table_names();
        let copy;
        match found {
            Some(i) => {
                proof {
                    assert(self.tables@[i as int].wf());
                }
                index_all_pages(&mut table, &self.tables[i].pages);
                copy = table.clone_table();
                self.tables[i].metadata = table;
                proof {
                    assert(self.table_names() =~= old_names);
                    assert forall|m: Seq<char>| m != n && old(self).has_table(m) implies self.stored(m) == old(self).stored(m) by {
                        let a = old_names.index_of(m);
                        assert(old_names[a] == m);
                        assert(a != i);
                    }
                    assert forall|j: int| 0 <= j < self.tables@.len() implies (#[trigger] self.tables@[j]).wf() by {
                        if j != i {
                            assert(self.tables@[j] == old(self).tables@[j]);
                        }
                    }
                }
            },
            None => {
                copy = table.clone_table();
                self.tables.push(StoredTable { metadata: table, pages: Vec::new() });
                proof {
                    let l = old_names.len() as int;
                    assert(self.table_names() =~= old_names.push(n));
                    assert(self.table_names()[l] == n);
                    assert forall|m: Seq<char>| m != n implies (self.has_table(m) == old(self).has_table(m)) by {
                        if self.has_table(m) {
                            let a = choose|a: int| 0 <= a < self.table_names().len() && self.table_names()[a] == m;
                            assert(old_names[a] == m);
                        }
                        if old(self).has_table(m) {
                            let a = choose|a: int| 0 <= a < old_names.len() && old_names[a] == m;
                            assert(self.table_names()[a] == m);
                        }
                    }
                    assert forall|m: Seq<char>| m != n && old(self).has_table(m) implies self.stored(m) == old(self).stored(m) by {
                        let a = old_names.index_of(m);
                        assert(old_names[a] == m);
                        assert(self.table_names()[a] == m);
                        let b = self.table_names().index_of(m);
                        assert(self.table_names()[b] == m);
                    }
                    let b = self.table_names().index_of(n);
                    assert(self.table_names().contains(n));
                    assert(self.table_names()[b] == n);
                    assert(b == l);
                    assert(pages_view(self.tables@[l].pages@) =~= Seq::<Seq<DynamicRecord>>::empty());
                    assert forall|i: int| 0 <= i < self.tables@.len() implies (#[trigger] self.tables@[i]).wf() by {
                        if i < l {
                            assert(self.tables@[i] == old(self).tables@[i]);
                        }
                    }
                }
            },
        }
        Ok(EngineResponse { table: Some(copy), records: None })
    }

    /// Creates the index `index_name` over the regular column `column_name`
    /// of `table_name`, filled from the records already stored. Fails when
    /// the table or the column does not exist, or the column is indexed.
    pub fn create_index(&mut self, table_name: String, column_name: String, index_name: String) -> (r:
        EngineResult)
        requires
            old(self).wf(),
        ensures
            final(self).wf(),
            create_index_post(*old(self), *final(self), table_name, column_name, index_name, r),
    {
        let i = match self.find_table(table_name.as_str()) {
            Some(i) => i,
            None => {
                return Err(String::from_str(NO_TABLE_FOR_INDEX));
            },
        };
        proof {
            assert(self.tables@[i as int].wf());
        }
        if !self.tables[i].metadata.has_regular_column(column_name.as_str()) {
            let a = join3("'", column_name.as_str(), "' does not exist on '");
            return Err(join3(a.as_str(), table_name.as_str(), "'"));
        }
        if self.tables[i].metadata.index_position(column_name.as_str()).is_some() {
            let a = join3("'", table_name.as_str(), "(");
            return Err(join3(a.as_str(), column_name.as_str(), ")' is already indexed."));
        }
        let index = build_index(index_name, column_name.as_str(), &self.tables[i].pages);
        let ghost old_names = self.table_names();
        let ghost before = self.tables@[i as int];
        self.tables[i].metadata.indices.push(index);
        proof {
            let t = self.tables@[i as int].metadata;
            assert(self.table_names() =~= old_names);
            assert(t.index_columns() =~= before.metadata.index_columns().push(column_name@));
            assert(t.indices@.drop_last() =~= before.metadata.indices@);
            assert(t.is_indexed(t.primary_key.name@)) by {
                let a = choose|a: int| 0 <= a < before.metadata.index_columns().len() && before.metadata.index_columns()[a] == t.primary_key.name@;
                assert(t.index_columns()[a] == t.primary_key.name@);
            }
            assert forall|a: int, b: int| 0 <= a < b < t.index_columns().len() implies t.index_columns()[a] != t.index_columns()[b] by {
                if b == t.index_columns().len() - 1 {
                    assert(before.metadata.index_columns()[a] == t.index_columns()[a]);
                    if t.index_columns()[a] == column_name@ {
                        assert(before.metadata.index_columns().contains(column_name@));
                    }
                }
            }
            assert forall|k: int| 0 <= k < t.indices@.len() implies (#[trigger] t.indices@[k]).wf() by {
                if k < before.metadata.indices@.len() {
                    assert(t.indices@[k] == before.metadata.indices@[k]);
                }
            }
            assert(self.tables@[i as int].wf());
            assert forall|m: Seq<char>| m != table_name@ && old(self).has_table(m) implies self.stored(m) == old(self).stored(m) by {
                let a = old_names.index_of(m);
                assert(old_names[a] == m);
                assert(a != i);
            }
            assert forall|j: int| 0 <= j < self.tables@.len() implies (#[trigger] self.tables@[j]).wf() by {
                if j != i {
                    assert(self.tables@[j] == old(self).tables@[j]);
                }
            }
        }
        let copy = self.tables[i].metadata.clone_table();
        Ok(EngineResponse { table: Some(copy), records: None })
    }

    /// The records of `table_name` that meet `where_clauses`, narrowed to
    /// `column_names` (empty or `*`: every column). When a clause is over
    /// an indexed column, only the pages that index gives for the first such
    /// clause are read; otherwise every page is.
    pub fn select(&self, table_name: String, column_names: Vec<String>, where_clauses: Vec<Clause>) -> (r:
        EngineResult)
        requires
            self.wf(),
        ensures
            select_post(*self, table_name, column_names, where_clauses, r),
    {
        let i = match self.find_table(table_name.as_str()) {
            Some(i) => i,
            None => {
                return Err(String::from_str(NO_SUCH_TABLE));
            },
        };
        let stored = &self.tables[i];
        proof {
            assert(self.tables@[i as int].wf());
        }
        let data_page_indices = stored.metadata.data_page_indices(&where_clauses);
        if !stored.metadata.all_columns_exist(&column_names) {
            return Err(String::from_str(NO_SUCH_COLUMN));
        }
        let records = self.data_manager.load_table_contents(
            &stored.pages,
            &column_names,
            &where_clauses,
            data_page_indices,
        );
        Ok(EngineResponse { records: Some(records), table: None })
    }

    /// Runs a statement: each kind goes to its operation, with the same
    /// result.
    pub fn execute(&mut self, query: Query) -> (r: EngineResult)
        requires
            old(self).wf(),
        ensures
            final(self).wf(),
            execute_post(*old(self), *final(self), query.statement, r),
    {
        match query.statement {
            Statement::CreateTable { table_name, columns } => self.create_table(table_name, columns),
            Statement::Select { table_name, selection, where_clauses } => {
                self.select(table_name, selection, where_clauses)
            },
            Statement::InsertInto { table_name, column_names, values } => {
                self.insert(table_name, column_names, values)
            },
            Statement::CreateIndex { table_name, column_name, index_name } => {
                self.create_index(table_name, column_name, index_name)
            },
        }
    }

    /// Adds a stored table, replacing the table of the same name.
    fn put_table(&mut self, st: StoredTable)
        requires
            old(self).wf(),
            st.wf(),
        ensures
            final(self).wf(),
            final(self).has_table(st.metadata.name@),
            final(self).stored(st.metadata.name@) == st,
            forall|m: Seq<char>| m != st.metadata.name@ ==> (final(self).has_table(m) == old(self).has_table(m)),
            forall|m: Seq<char>| m != st.metadata.name@ && old(self).has_table(m) ==> final(self).stored(m) == old(self).stored(m),
    {
        let ghost n = st.metadata.name@;
        let ghost g = st;
        let ghost old_names = self.table_names();
        match self.find_table(st.metadata.name.as_str()) {
            Some(i) => {
                self.tables.set(i, st);
                proof {
                    assert(self.table_names() =~= old_names);
                    assert(old_names[i as int] == n);
                    assert(self.table_names().contains(n));
                    let b = self.table_names().index_of(n);
                    assert(self.table_names()[b] == n);
                    assert forall|m: Seq<char>| m != n && old(self).has_table(m) implies self.stored(m) == old(self).stored(m) by {
                        let a = old_names.index_of(m);
                        assert(old_names[a] == m);
                        assert(a != i);
                    }
                    assert forall|j: int| 0 <= j < self.tables@.len() implies (#[trigger] self.tables@[j]).wf() by {
                        if j != i {
                            assert(self.tables@[j] == old(self).tables@[j]);
                        }
                    }
                }
            },
            None => {
                self.tables.push(st);
                proof {
                    let l = old_names.len() as int;
                    assert(self.table_names() =~= old_names.push(n));
                    assert(self.table_names()[l] == n);
                    assert forall|m: Seq<char>| m != n implies (self.has_table(m) == old(self).has_table(m)) by {
                        if self.has_table(m) {
                            let a = choose|a: int| 0 <= a < self.table_names().len() && self.table_names()[a] == m;
                            assert(old_names[a] == m);
                        }
                        if old(self).has_table(m) {
                            let a = choose|a: int| 0 <= a < old_names.len() && old_names[a] == m;
                            assert(self.table_names()[a] == m);
                        }
                    }
                    assert forall|m: Seq<char>| m != n && old(self).has_table(m) implies self.stored(m) == old(self).stored(m) by {
                        let a = old_names.index_of(m);
                        assert(old_names[a] == m);
                        assert(self.table_names()[a] == m);
                        let b = self.table_names().index_of(m);
                        assert(self.table_names()[b] == m);
                    }
                    assert(self.table_names().contains(n));
                    let b = self.table_names().index_of(n);
                    assert(self.table_names()[b] == n);
                    assert forall|j: int| 0 <= j < self.tables@.len() implies (#[trigger] self.tables@[j]).wf() by {
                        if j < l {
                            assert(self.tables@[j] == old(self).tables@[j]);
                        }
                    }
                }
            },
        }
    }

    /// Adds the table stored in `metadata` and `pages` (its data pages in
    /// order), replacing a table of the same name; returns its name. An
    /// error, with nothing changed, when a file does not hold what it
    /// should.
    pub fn load_table(&mut self, metadata: &Vec<u8>, pages: &Vec<Vec<u8>>) -> (r: Result<String, String>)
        requires
            old(self).wf(),
        ensures
            final(self).wf(),
            r is Err ==> *final(self) == *old(self),
            r matches Ok(n) ==> final(self).has_table(n@) && forall|m: Seq<char>|
                m != n@ && old(self).has_table(m) ==> final(self).stored(m) == old(self).stored(m),
            r matches Ok(n) ==> final(self).pages_of(n@).len() == pages@.len() && forall|k: int, p: Seq<DynamicRecord>|
                #![trigger page_bytes(page_plain(p)), pages@[k]]
                0 <= k < pages@.len() && (forall|j: int| 0 <= j < p.len() ==> (#[trigger] p[j]).wf())
                    && page_bytes(page_plain(p)) == pages@[k]@ ==> page_plain(final(self).pages_of(n@)[k])
                    == page_plain(p),
            loadable(metadata@, pages@) ==> r is Ok,
    {
        let table = match self.table_manager.load_meta_data(metadata) {
            Ok(t) => t,
            Err(e) => {
                proof {
                    if loadable(metadata@, pages@) {
                        let t0 = choose|t0: Table| t0.wf() && #[trigger] metadata_bytes(table_model(t0)) == metadata@;
                        assert(t0.wf() && metadata_bytes(table_model(t0)) == metadata@);
                    }
                }
                return Err(e);
            },
        };
        if pages.len() >= usize::MAX - 1 {
            return Err(String::from_str(CORRUPT_PAGE));
        }
        let mut decoded: Vec<Vec<DynamicRecord>> = Vec::new();
        let mut k: usize = 0;
        while k < pages.len()
            invariant
                k <= pages@.len(),
                self.wf(),
                *self == *old(self),
                decoded@.len() == k,
                pages_wf(pages_view(decoded@)),
                pages@.len() < usize::MAX - 1,
                forall|j: int, p: Seq<DynamicRecord>|
                    #![trigger page_bytes(page_plain(p)), pages@[j]]
                    0 <= j < k && (forall|i: int| 0 <= i < p.len() ==> (#[trigger] p[i]).wf())
                        && page_bytes(page_plain(p)) == pages@[j]@ ==> page_plain(decoded@[j]@) == page_plain(p),
            decreases pages.len() - k,
        {
            match decode_page(&pages[k]) {
                None => {
                    proof {
                        if loadable(metadata@, pages@) {
                            assert(well_formed_page_bytes(pages@[k as int]@));
                            let p = choose|p: Seq<DynamicRecord>|
                                (forall|j: int| 0 <= j < p.len() ==> (#[trigger] p[j]).wf())
                                    && #[trigger] page_bytes(page_plain(p)) == pages@[k as int]@;
                            assert(page_bytes(page_plain(p)) == pages@[k as int]@);
                        }
                    }
                    return Err(String::from_str(CORRUPT_PAGE));
                },
                Some(v) => {
                    let ghost before = decoded@;
                    decoded.push(v);
                    proof {
                        let nv = pages_view(decoded@);
                        assert forall|a: int, b: int| 0 <= a < nv.len() && 0 <= b < nv[a].len() implies (#[trigger] nv[a][b]).wf() by {
                            if a < k {
                                assert(decoded@[a] == before[a]);
                                assert(nv[a] == pages_view(before)[a]);
                            }
                        }
                        assert forall|j: int, p: Seq<DynamicRecord>|
                            #![trigger page_bytes(page_plain(p)), pages@[j]]
                            0 <= j <= k && (forall|i: int| 0 <= i < p.len() ==> (#[trigger] p[i]).wf())
                                && page_bytes(page_plain(p)) == pages@[j]@ implies page_plain(decoded@[j]@) == page_plain(p) by {
                            if j < k {
                                assert(decoded@[j] == before[j]);
                            }
                        }
                    }
                },
            }
            k = k + 1;
        }
        let mut table = table;
        index_all_pages(&mut table, &decoded);
        let name = table.name.clone();
        let ghost dv = decoded@;
        self.put_table(StoredTable { metadata: table, pages: decoded });
        proof {
            assert(self.pages_of(name@) == pages_view(dv));
            assert forall|j: int, p: Seq<DynamicRecord>|
                #![trigger page_bytes(page_plain(p)), pages@[j]]
                0 <= j < pages@.len() && (forall|i: int| 0 <= i < p.len() ==> (#[trigger] p[i]).wf())
                    && page_bytes(page_plain(p)) == pages@[j]@ implies page_plain(self.pages_of(name@)[j]) == page_plain(p) by {
                assert(self.pages_of(name@)[j] == dv[j]@);
            }
        }
        Ok(name)
    }

    /// The files of the table named `table_name`: its metadata bytes and
    /// each data page's bytes, in page order. An error when there is no
    /// such table.
    pub fn table_files(&self, table_name: &str) -> (r: Result<(Vec<u8>, Vec<Vec<u8>>), String>)
        requires
            self.wf(),
        ensures
            !self.has_table(table_name@) ==> r is Err,
            self.has_table(table_name@) ==> r is Ok,
            r matches Ok(files) ==> self.has_table(table_name@) && files.0@ == metadata_bytes(
                table_model(self.metadata_of(table_name@)),
            ) && files.1@.len() == self.pages_of(table_name@).len() && forall|k: int|
                0 <= k < files.1@.len() ==> (#[trigger] files.1@[k])@ == page_bytes(
                    page_plain(self.pages_of(table_name@)[k]),
                ),
    {
        let i = match self.find_table(table_name) {
            Some(i) => i,
            None => {
                return Err(join3("Table '", table_name, "' does not exist."));
            },
        };
        let stored = &self.tables[i];
        let metadata = self.table_manager.store_meta_data(&stored.metadata);
        let mut pages: Vec<Vec<u8>> = Vec::new();
        let mut k: usize = 0;
        while k < stored.pages.len()
            invariant
                k <= stored.pages@.len(),
                pages@.len() == k,
                forall|j: int| 0 <= j < k ==> (#[trigger] pages@[j])@ == page_bytes(page_plain(stored.pages@[j]@)),
            decreases stored.pages.len() - k,
        {
            pages.push(encode_page(&stored.pages[k]));
            k = k + 1;
        }
        Ok((metadata, pages))
    }

    /// The metadata of the table named `table_name`; an error when there is
    /// no such table.
    pub fn load_meta_data(&self, table_name: &str) -> (r: Result<Table, String>)
        requires
            self.wf(),
        ensures
            r is Err <==> !self.has_table(table_name@),
            r matches Ok(t) ==> t.wf() && t.view() == self.metadata_of(table_name@).view(),
    {
        match self.find_table(table_name) {
            Some(i) => {
                proof {
                    assert(self.tables@[i as int].wf());
                }
                Ok(self.tables[i].metadata.clone_table())
            },
            None => Err(join3("Table '", table_name, "' does not exist.")),
        }
    }
}

} // verus!
