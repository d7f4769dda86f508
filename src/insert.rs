//! `INSERT`: building records from value rows, storing them in data pages
//! and recording their pages in every index.
use vstd::prelude::*;
use vstd::string::StringExecFns;

use crate::data::{pages_view, pages_wf, target_page, with_record};
use crate::data::DataManager;
use crate::engine::{BinaryEngine, EngineResponse, EngineResult, StoredTable};
use crate::record::DynamicRecord;
use crate::metadata::{map_with_page, with_page, Index};
use crate::table::Table;
use crate::text::{join3, nat_text, same_text, texts, usize_to_text};
use crate::value::Value;

verus! {

/// Position of the last occurrence of `k` in `cols`, or -1.
pub open spec fn last_index(cols: Seq<Seq<char>>, k: Seq<char>) -> int
    decreases cols.len(),
{
    if cols.len() == 0 {
        -1
    } else if cols.last() == k {
        cols.len() - 1
    } else {
        last_index(cols.drop_last(), k)
    }
}

/// Whether a value row fits the named columns: as many values as names,
/// and each value given for a column of the schema accepted by that
/// column's type (by every regular column of that name, and by the primary
/// key when it names the primary key).
pub open spec fn row_valid(t: Table, cols: Seq<Seq<char>>, row: Seq<Seq<char>>) -> bool {
    &&& row.len() == cols.len()
    &&& forall|i: int, m: int|
        0 <= i < cols.len() && 0 <= m < t.columns@.len() && #[trigger] t.columns@[m].name@
            == #[trigger] cols[i] ==> t.columns@[m].data_type.accepts(row[i])
    &&& forall|i: int|
        0 <= i < cols.len() && #[trigger] cols[i] == t.primary_key.name@
            ==> t.primary_key.data_type.accepts(row[i])
}

/// The record that a valid row gives: a text field for each named column of
/// the schema (its last value wins), plus the primary key as `key` in
/// decimal when the row does not give it.
pub open spec fn record_built(
    t: Table,
    cols: Seq<Seq<char>>,
    row: Seq<Seq<char>>,
    key: nat,
    r: DynamicRecord,
) -> bool {
    &&& r.wf()
    &&& forall|k: Seq<char>|
        #[trigger] r.has(k) == ((t.has_column(k) && cols.contains(k)) || k == t.primary_key.name@)
    &&& forall|k: Seq<char>|
        t.has_column(k) && cols.contains(k) ==> (#[trigger] r.value_of(k) is Text) && r.value_of(
            k,
        ).text() == row[last_index(cols, k)]
    &&& !cols.contains(t.primary_key.name@) ==> r.value_of(t.primary_key.name@) is Text
        && r.value_of(t.primary_key.name@).text() == nat_text(key)
}

/// The message of a value that its column's type refuses.
pub open spec fn type_message(v: Seq<char>) -> Seq<char> {
    "Type does not allow "@ + v + " value"@
}

/// The pages after storing `recs` one after the other, each in the page
/// that `target_page` picks at its turn.
pub open spec fn store_all(pages: Seq<Seq<DynamicRecord>>, recs: Seq<DynamicRecord>) -> Seq<
    Seq<DynamicRecord>,
>
    decreases recs.len(),
{
    if recs.len() == 0 {
        pages
    } else {
        let prev = store_all(pages, recs.drop_last());
        with_record(prev, target_page(prev), recs.last())
    }
}

/// The number (from 1) of the page that `recs[m]` goes to when `recs` are
/// stored in order.
pub open spec fn page_of(pages: Seq<Seq<DynamicRecord>>, recs: Seq<DynamicRecord>, m: int) -> usize {
    (target_page(store_all(pages, recs.take(m))) + 1) as usize
}

/// The error of an insert into a table that does not exist.
pub open spec fn missing_table_message(n: Seq<char>) -> Seq<char> {
    "Table '"@ + n + "' does not exist."@
}

/// The error of an insert that would run the primary key counter past its
/// largest value.
pub const KEYS_EXHAUSTED: &'static str = "The primary key counter of this table is exhausted.";

/// The error of an insert that could need more pages than can be counted.
pub const TOO_MANY_PAGES: &'static str = "This table cannot hold that many more records.";

/// The error of a row whose length differs from the column list.
pub const ARITY_MISMATCH: &'static str = "Invalid query. Your provided values must match the provided columns.";

/// Checks one value row against the schema.
pub fn check_row(t: &Table, column_names: &Vec<String>, row: &Vec<String>) -> (r: Result<(), String>)
    ensures
        r is Ok <==> row_valid(*t, texts(column_names@), texts(row@)),
        row@.len() != column_names@.len() ==> (r matches Err(m) && m@ == ARITY_MISMATCH@),
        r matches Err(m) ==> row@.len() == column_names@.len() ==> exists|i: int|
            0 <= i < row@.len() && refuses(*t, column_names@[i]@, row@[i]@) && m@ == type_message(
                #[trigger] row@[i]@,
            ),
{
    let ghost cols = texts(column_names@);
    let ghost vals = texts(row@);
    if row.len() != column_names.len() {
        return Err(String::from_str(ARITY_MISMATCH));
    }
    let mut i: usize = 0;
    while i < column_names.len()
        invariant
            i <= column_names@.len(),
            row@.len() == column_names@.len(),
            cols == texts(column_names@),
            vals == texts(row@),
            forall|a: int, m: int|
                0 <= a < i && 0 <= m < t.columns@.len() && #[trigger] t.columns@[m].name@
                    == #[trigger] cols[a] ==> t.columns@[m].data_type.accepts(vals[a]),
            forall|a: int|
                0 <= a < i && #[trigger] cols[a] == t.primary_key.name@
                    ==> t.primary_key.data_type.accepts(vals[a]),
        decreases column_names.len() - i,
    {
        let name = column_names[i].as_str();
        let value = row[i].as_str();
        assert(cols[i as int] == name@ && vals[i as int] == value@);
        let mut m: usize = 0;
        while m < t.columns.len()
            invariant
                i < column_names@.len(),
                m <= t.columns@.len(),
                row@.len() == column_names@.len(),
                cols == texts(column_names@),
                vals == texts(row@),
                cols[i as int] == name@,
                vals[i as int] == value@,
                forall|q: int|
                    0 <= q < m && #[trigger] t.columns@[q].name@ == cols[i as int]
                        ==> t.columns@[q].data_type.accepts(vals[i as int]),
            decreases t.columns.len() - m,
        {
            let column = &t.columns[m];
            if same_text(column.name.as_str(), name) && !column.data_type.allows_value(value) {
                let e = join3("Type does not allow ", value, " value");
                assert(refuses(*t, column_names@[i as int]@, row@[i as int]@)) by {
                    assert(t.columns@[m as int].name@ == column_names@[i as int]@);
                }
                return Err(e);
            }
            m = m + 1;
        }
        if same_text(t.primary_key.name.as_str(), name) && !t.primary_key.data_type.allows_value(value) {
            let e = join3("Type does not allow ", value, " value");
            return Err(e);
        }
        i = i + 1;
    }
    Ok(())
}

/// What `insert` guarantees of its result and of the engine after it.
pub open spec fn insert_post(
    prev: BinaryEngine,
    next: BinaryEngine,
    table_name: String,
    column_names: Vec<String>,
    values: Vec<Vec<String>>,
    r: EngineResult,
) -> bool {
    &&& !prev.has_table(table_name@) ==> (r matches Err(m) && m@ == missing_table_message(
            table_name@,
        )) && next == prev
    &&& prev.has_table(table_name@) && (exists|i: int|
            0 <= i < values@.len() && !row_valid(
                prev.metadata_of(table_name@),
                texts(column_names@),
                texts(#[trigger] values@[i]@),
            )) ==> r is Err && next == prev
    &&& forall|j: int|
        0 <= j < values@.len() && prev.has_table(table_name@) && (forall|i: int|
            0 <= i < j ==> row_valid(
                prev.metadata_of(table_name@),
                texts(column_names@),
                texts(#[trigger] values@[i]@),
            )) && !row_valid(
            prev.metadata_of(table_name@),
            texts(column_names@),
            texts(#[trigger] values@[j]@),
        ) ==> (r matches Err(m) && (values@[j]@.len() != column_names@.len() ==> m@ == ARITY_MISMATCH@)
            && (values@[j]@.len() == column_names@.len() ==> exists|c: int|
            0 <= c < column_names@.len() && refuses(
                prev.metadata_of(table_name@),
                column_names@[c]@,
                values@[j]@[c]@,
            ) && m@ == type_message(#[trigger] values@[j]@[c]@)))
    &&& prev.has_table(table_name@) && (forall|i: int|
        0 <= i < values@.len() ==> row_valid(
            prev.metadata_of(table_name@),
            texts(column_names@),
            texts(#[trigger] values@[i]@),
        )) ==> ({
        let t = prev.metadata_of(table_name@);
        let key_room = texts(column_names@).contains(t.primary_key.name@)
            || t.latest_primary_key + values@.len() <= usize::MAX;
        let page_room = prev.pages_of(table_name@).len() + values@.len() < usize::MAX - 1;
        &&& key_room && page_room ==> r is Ok
        &&& !key_room ==> (r matches Err(m) && m@ == KEYS_EXHAUSTED@ && next == prev)
        &&& key_room && !page_room ==> (r matches Err(m) && m@ == TOO_MANY_PAGES@ && next == prev)
    })
    &&& r is Ok ==> ({
            let n = table_name@;
            let cols = texts(column_names@);
            let before = prev.metadata_of(n);
            let after = next.metadata_of(n);
            let supplies_key = cols.contains(before.primary_key.name@);
            &&& prev.has_table(n)
            &&& forall|i: int| 0 <= i < values@.len() ==> row_valid(before, cols, texts(#[trigger] values@[i]@))
            &&& next.table_names() == prev.table_names()
            &&& forall|m: Seq<char>| m != n && prev.has_table(m) ==> next.stored(m) == prev.stored(m)
            &&& after.latest_primary_key == before.latest_primary_key + if supplies_key { 0 } else { values@.len() }
            &&& indices_grow(before, after)
            &&& exists|recs: Seq<DynamicRecord>|
                rows_stored(before, after, cols, values@, prev.pages_of(n), next.pages_of(n), recs)
            &&& r->Ok_0.table is None
            &&& r->Ok_0.records is None
        })
}

/// Whether `recs` are the records that the value rows gave, stored in
/// order from `pages0` to `pages1`, with every index of `after` equal to
/// the same index of `before` with each record's page added under its value.
pub open spec fn rows_stored(
    before: Table,
    after: Table,
    cols: Seq<Seq<char>>,
    values: Seq<Vec<String>>,
    pages0: Seq<Seq<DynamicRecord>>,
    pages1: Seq<Seq<DynamicRecord>>,
    recs: Seq<DynamicRecord>,
) -> bool {
    &&& recs.len() == values.len()
    &&& pages1 == store_all(pages0, recs)
    &&& forall|i: int|
        0 <= i < recs.len() ==> record_built(
            before,
            cols,
            texts(values[i]@),
            (before.latest_primary_key + i + 1) as nat,
            #[trigger] recs[i],
        ) && indexes_record(after, recs[i], page_of(pages0, recs, i))
    &&& forall|a: int|
        0 <= a < before.indices@.len() ==> (#[trigger] after.indices@[a]).view_map() == map_after_records(
            before.indices@[a].view_map(),
            before.indices@[a].column_name@,
            recs,
            pages0,
            recs.len() as int,
        )
}

/// Whether the value `v` given for column `col` is one that a column of
/// that name refuses (a regular column, or the primary key).
pub open spec fn refuses(t: Table, col: Seq<char>, v: Seq<char>) -> bool {
    ||| exists|m: int|
        0 <= m < t.columns@.len() && (#[trigger] t.columns@[m]).name@ == col && !t.columns@[m].data_type.accepts(v)
    ||| col == t.primary_key.name@ && !t.primary_key.data_type.accepts(v)
}

/// Whether index `y` keeps all that `x` recorded.
pub open spec fn index_grows(x: Index, y: Index) -> bool {
    &&& y.name == x.name
    &&& y.column_name == x.column_name
    &&& forall|w: Seq<char>, q: usize| #[trigger] x.pages_of(w).contains(q) ==> y.pages_of(w).contains(q)
}

/// The map of an index over `col` after `rec` is stored on page `page`:
/// the page added under the record's value, or no change when the record
/// lacks the column.
pub open spec fn map_after_record(
    m: Map<Seq<char>, Seq<usize>>,
    col: Seq<char>,
    rec: DynamicRecord,
    page: usize,
) -> Map<Seq<char>, Seq<usize>> {
    if rec.has(col) {
        map_with_page(m, rec.value_of(col).text(), page)
    } else {
        m
    }
}

/// The map of an index over `col` after the first `k` of `recs` are stored
/// in order from the pages `pages0`, each on the page `page_of` gives.
pub open spec fn map_after_records(
    m: Map<Seq<char>, Seq<usize>>,
    col: Seq<char>,
    recs: Seq<DynamicRecord>,
    pages0: Seq<Seq<DynamicRecord>>,
    k: int,
) -> Map<Seq<char>, Seq<usize>>
    decreases k,
{
    if k <= 0 {
        m
    } else {
        map_after_record(
            map_after_records(m, col, recs, pages0, k - 1),
            col,
            recs[k - 1],
            page_of(pages0, recs, k - 1),
        )
    }
}

/// Storing more records later does not change the map after the first `k`.
proof fn lemma_map_after_prefix(
    m: Map<Seq<char>, Seq<usize>>,
    col: Seq<char>,
    recs: Seq<DynamicRecord>,
    x: DynamicRecord,
    pages0: Seq<Seq<DynamicRecord>>,
    k: int,
)
    requires
        0 <= k <= recs.len(),
    ensures
        map_after_records(m, col, recs.push(x), pages0, k) == map_after_records(m, col, recs, pages0, k),
    decreases k,
{
    if k > 0 {
        lemma_map_after_prefix(m, col, recs, x, pages0, k - 1);
        assert(recs.push(x)[k - 1] == recs[k - 1]);
        assert(recs.push(x).take(k - 1) =~= recs.take(k - 1));
    }
}

/// Whether every index of `after` keeps what the same index of `before`
/// recorded, the rest of the metadata unchanged.
pub open spec fn indices_grow(before: Table, after: Table) -> bool {
    &&& after.name == before.name
    &&& after.primary_key == before.primary_key
    &&& after.columns == before.columns
    &&& after.indices@.len() == before.indices@.len()
    &&& forall|a: int| 0 <= a < before.indices@.len() ==> index_grows(before.indices@[a], #[trigger] after.indices@[a])
}

/// Whether every index over a column that `rec` has records `page` under
/// the record's value.
pub open spec fn indexes_record(t: Table, rec: DynamicRecord, page: usize) -> bool {
    forall|a: int|
        0 <= a < t.indices@.len() && rec.has(#[trigger] t.indices@[a].column_name@) ==> t.indices@[a].pages_of(
            rec.value_of(t.indices@[a].column_name@).text(),
        ).contains(page)
}

/// Records `page` in every index over a column that `rec` has.
fn index_record(t: &mut Table, rec: &DynamicRecord, page: usize)
    requires
        old(t).wf(),
        rec.wf(),
    ensures
        final(t).wf(),
        final(t).latest_primary_key == old(t).latest_primary_key,
        indices_grow(*old(t), *final(t)),
        indexes_record(*final(t), *rec, page),
        forall|a: int|
            0 <= a < old(t).indices@.len() ==> (#[trigger] final(t).indices@[a]).view_map() == map_after_record(
                old(t).indices@[a].view_map(),
                old(t).indices@[a].column_name@,
                *rec,
                page,
            ),
{
    let mut k: usize = 0;
    while k < t.indices.len()
        invariant
            k <= t.indices@.len(),
            rec.wf(),
            t.wf(),
            t.latest_primary_key == old(t).latest_primary_key,
            indices_grow(*old(t), *t),
            forall|a: int|
                0 <= a < k ==> (#[trigger] t.indices@[a]).view_map() == map_after_record(
                    old(t).indices@[a].view_map(),
                    old(t).indices@[a].column_name@,
                    *rec,
                    page,
                ),
            forall|a: int| k <= a < t.indices@.len() ==> #[trigger] t.indices@[a] == old(t).indices@[a],
            forall|a: int|
                0 <= a < k && rec.has(#[trigger] t.indices@[a].column_name@) ==> t.indices@[a].pages_of(
                    rec.value_of(t.indices@[a].column_name@).text(),
                ).contains(page),
        decreases t.indices.len() - k,
    {
        assert(t.indices@[k as int].wf());
        match rec.get(t.indices[k].column_name.as_str()) {
            Some(v) => {
                let key = v.to_text();
                let ghost kk = key@;
                let ghost before = *t;
                let ghost x = t.indices@[k as int];
                t.indices[k].update_tree((key, page));
                proof {
                    let y = t.indices@[k as int];
                    assert(y.pages_of(kk) == with_page(x.pages_of(kk), page));
                    if !x.pages_of(kk).contains(page) {
                        assert(y.pages_of(kk)[y.pages_of(kk).len() - 1] == page);
                    }
                    assert(y.pages_of(kk).contains(page));
                    assert forall|w: Seq<char>, q: usize| #[trigger] x.pages_of(w).contains(q) implies y.pages_of(w).contains(q) by {
                        let z = choose|z: int| 0 <= z < x.pages_of(w).len() && x.pages_of(w)[z] == q;
                        if w == kk {
                            assert(y.pages_of(w) == with_page(x.pages_of(w), page));
                        } else {
                            assert(y.pages_of(w) == x.pages_of(w));
                        }
                        assert(y.pages_of(w)[z] == q);
                    }
                    assert(t.index_columns() =~= before.index_columns());
                    assert forall|a: int| 0 <= a < t.indices@.len() implies (#[trigger] t.indices@[a]).wf() by {
                        if a != k {
                            assert(t.indices@[a] == before.indices@[a]);
                        }
                    }
                    assert(t.is_indexed(t.primary_key.name@)) by {
                        let c = choose|c: int| 0 <= c < before.index_columns().len() && before.index_columns()[c] == t.primary_key.name@;
                        assert(t.index_columns()[c] == t.primary_key.name@);
                    }
                    assert forall|a: int| 0 <= a < old(t).indices@.len() implies index_grows(old(t).indices@[a], #[trigger] t.indices@[a]) by {
                        if a != k {
                            assert(t.indices@[a] == before.indices@[a]);
                        } else {
                            assert(index_grows(old(t).indices@[a], x));
                            assert forall|w: Seq<char>, q: usize| #[trigger] old(t).indices@[a].pages_of(w).contains(q) implies y.pages_of(w).contains(q) by {
                                assert(x.pages_of(w).contains(q));
                            }
                        }
                    }
                    assert forall|a: int|
                        0 <= a <= k && rec.has(#[trigger] t.indices@[a].column_name@) implies t.indices@[a].pages_of(
                            rec.value_of(t.indices@[a].column_name@).text(),
                        ).contains(page) by {
                        if a < k {
                            assert(t.indices@[a] == before.indices@[a]);
                        }
                    }
                }
            },
            None => {},
        }
        k = k + 1;
    }
}

/// Recording a page in an index keeps what other records were indexed with.
proof fn lemma_indexes_record_kept(t: Table, u: Table, rec: DynamicRecord, page: usize)
    requires
        indexes_record(t, rec, page),
        indices_grow(t, u),
    ensures
        indexes_record(u, rec, page),
{
    assert forall|a: int|
        0 <= a < u.indices@.len() && rec.has(#[trigger] u.indices@[a].column_name@) implies u.indices@[a].pages_of(
            rec.value_of(u.indices@[a].column_name@).text(),
        ).contains(page) by {
        assert(index_grows(t.indices@[a], u.indices@[a]));
        assert(t.indices@[a].pages_of(rec.value_of(t.indices@[a].column_name@).text()).contains(page));
    }
}

/// Growing indices twice is growing them once.
proof fn lemma_indices_grow_trans(t: Table, u: Table, w: Table)
    requires
        indices_grow(t, u),
        indices_grow(u, w),
    ensures
        indices_grow(t, w),
{
    assert forall|a: int| 0 <= a < t.indices@.len() implies index_grows(t.indices@[a], #[trigger] w.indices@[a]) by {
        assert(index_grows(t.indices@[a], u.indices@[a]));
        assert(index_grows(u.indices@[a], w.indices@[a]));
        assert forall|x: Seq<char>, q: usize| #[trigger] t.indices@[a].pages_of(x).contains(q) implies w.indices@[a].pages_of(x).contains(q) by {
            assert(u.indices@[a].pages_of(x).contains(q));
        }
    }
}

/// The record that a row gives; `key` becomes the primary key when the
/// columns do not name it.
pub fn build_record(t: &Table, column_names: &Vec<String>, row: &Vec<String>, key: usize) -> (r:
    DynamicRecord)
    requires
        row@.len() == column_names@.len(),
    ensures
        record_built(*t, texts(column_names@), texts(row@), key as nat, r),
{
    let ghost cols = texts(column_names@);
    let ghost vals = texts(row@);
    let ghost pk = t.primary_key.name@;
    let mut record = DynamicRecord::new();
    let mut i: usize = 0;
    while i < column_names.len()
        invariant
            i <= column_names@.len(),
            row@.len() == column_names@.len(),
            cols == texts(column_names@),
            vals == texts(row@),
            record.wf(),
            forall|k: Seq<char>|
                #[trigger] record.has(k) == (t.has_column(k) && cols.take(i as int).contains(k)),
            forall|k: Seq<char>|
                #[trigger] record.has(k) ==> record.value_of(k) is Text && record.value_of(k).text()
                    == vals[last_index(cols.take(i as int), k)],
        decreases column_names.len() - i,
    {
        let name = column_names[i].as_str();
        let ghost before = record;
        let ghost n = name@;
        assert(cols[i as int] == n && vals[i as int] == row@[i as int]@);
        assert(cols.take(i as int + 1) =~= cols.take(i as int).push(n));
        assert(cols.take(i as int + 1).drop_last() =~= cols.take(i as int));
        proof {
            let pre = cols.take(i as int);
            let post = cols.take(i as int + 1);
            assert forall|k: Seq<char>| post.contains(k) == (pre.contains(k) || k == n) by {
                if post.contains(k) && k != n {
                    let a = choose|a: int| 0 <= a < post.len() && post[a] == k;
                    assert(pre[a] == k);
                }
                if pre.contains(k) {
                    let a = choose|a: int| 0 <= a < pre.len() && pre[a] == k;
                    assert(post[a] == k);
                }
                if k == n {
                    assert(post[i as int] == k);
                }
            }
        }
        if t.has_regular_column(name) || same_text(name, t.primary_key.name.as_str()) {
            record.insert(column_names[i].clone(), Value::Text(row[i].clone()));
            proof {
                assert forall|k: Seq<char>| #[trigger] record.has(k) implies record.value_of(k) is Text
                    && record.value_of(k).text() == vals[last_index(cols.take(i as int + 1), k)] by {
                    if k != n {
                        assert(before.has(k));
                    }
                }
            }
        } else {
            assert(!t.has_column(n));
        }
        i = i + 1;
    }
    assert(cols.take(cols.len() as int) =~= cols);
    if !record.contains_key(t.primary_key.name.as_str()) {
        let ghost before = record;
        record.insert(t.primary_key.name.clone(), Value::Text(usize_to_text(key)));
        proof {
            assert(!cols.contains(pk));
            assert forall|k: Seq<char>| t.has_column(k) && cols.contains(k) implies (#[trigger] record.value_of(k) is Text)
                && record.value_of(k).text() == vals[last_index(cols, k)] by {
                assert(k != pk);
                assert(before.has(k));
            }
        }
    } else {
        assert(cols.contains(pk));
    }
    assert(record.wf());
    assert(forall|k: Seq<char>| #[trigger] record.has(k) == ((t.has_column(k) && cols.contains(k)) || k == pk));
    assert forall|k: Seq<char>| t.has_column(k) && cols.contains(k) implies (#[trigger] record.value_of(k) is Text)
        && record.value_of(k).text() == vals[last_index(cols, k)] by {
        assert(record.has(k));
    }
    record
}

/// Stores one record of a table and records its page in the indices.
fn store_row(dm: &DataManager, st: &mut StoredTable, rec: DynamicRecord) -> (page: usize)
    requires
        old(st).wf(),
        old(st).pages@.len() < usize::MAX - 2,
        rec.wf(),
    ensures
        final(st).wf(),
        final(st).metadata.latest_primary_key == old(st).metadata.latest_primary_key,
        indices_grow(old(st).metadata, final(st).metadata),
        final(st).pages@.len() <= old(st).pages@.len() + 1,
        page == target_page(pages_view(old(st).pages@)) + 1,
        pages_view(final(st).pages@) == with_record(pages_view(old(st).pages@), page - 1, rec),
        indexes_record(final(st).metadata, rec, page),
        forall|a: int|
            0 <= a < old(st).metadata.indices@.len() ==> (#[trigger] final(st).metadata.indices@[a]).view_map()
                == map_after_record(
                old(st).metadata.indices@[a].view_map(),
                old(st).metadata.indices@[a].column_name@,
                rec,
                page,
            ),
{
    let copy = rec.clone_record();
    let ghost pv = pages_view(st.pages@);
    let ghost rec_g = rec;
    let page = dm.save_record(rec, &mut st.pages);
    proof {
        let nv = pages_view(st.pages@);
        let t = page - 1;
        assert(nv == with_record(pv, t, rec_g));
        assert forall|p: int, j: int| 0 <= p < nv.len() && 0 <= j < nv[p].len() implies (#[trigger] nv[p][j]).wf() by {
            if t < pv.len() {
                if p == t {
                    assert(nv[p] == pv[p].push(rec_g));
                    if j < pv[p].len() {
                        assert(nv[p][j] == pv[p][j]);
                    }
                } else {
                    assert(nv[p] == pv[p]);
                }
            } else {
                if p < pv.len() {
                    assert(nv[p] == pv[p]);
                } else {
                    assert(nv[p] == seq![rec_g]);
                }
            }
        }
        assert(nv.len() == st.pages@.len());
    }
    index_record(&mut st.metadata, &copy, page);
    proof {
        lemma_same_fields_indexed(st.metadata, copy, rec_g, page);
        assert(copy.names() == rec_g.names());
        assert forall|k: Seq<char>| copy.has(k) == rec_g.has(k) && copy.value_of(k) == rec_g.value_of(k) by {}
    }
    page
}

/// Whether a record is indexed depends on its fields alone.
proof fn lemma_same_fields_indexed(t: Table, a: DynamicRecord, b: DynamicRecord, page: usize)
    requires
        indexes_record(t, a, page),
        a.fields@ == b.fields@,
    ensures
        indexes_record(t, b, page),
{
    assert(a.names() == b.names());
    assert forall|k: Seq<char>| a.has(k) == b.has(k) && a.value_of(k) == b.value_of(k) by {}
}

/// The engine stays well formed when one table changes into a well-formed
/// table of the same name.
proof fn lemma_one_table_changed(old_e: BinaryEngine, new_e: BinaryEngine, i: int)
    requires
        old_e.wf(),
        0 <= i < old_e.tables@.len(),
        new_e.tables@.len() == old_e.tables@.len(),
        forall|j: int| 0 <= j < new_e.tables@.len() && j != i ==> new_e.tables@[j] == old_e.tables@[j],
        new_e.tables@[i].metadata.name == old_e.tables@[i].metadata.name,
        new_e.tables@[i].wf(),
    ensures
        new_e.wf(),
        new_e.table_names() == old_e.table_names(),
        forall|m: Seq<char>|
            m != old_e.tables@[i].metadata.name@ && old_e.has_table(m) ==> new_e.stored(m) == old_e.stored(m),
{
    assert(new_e.table_names() =~= old_e.table_names());
    assert forall|m: Seq<char>|
        m != old_e.tables@[i].metadata.name@ && old_e.has_table(m) implies new_e.stored(m) == old_e.stored(m) by {
        let a = old_e.table_names().index_of(m);
        assert(old_e.table_names()[a] == m);
        assert(a != i);
    }
    assert forall|j: int| 0 <= j < new_e.tables@.len() implies (#[trigger] new_e.tables@[j]).wf() by {
        if j != i {
            assert(new_e.tables@[j] == old_e.tables@[j]);
        }
    }
}

/// Stores one record per value row in a table, as `insert` describes.
fn insert_rows(
    dm: &DataManager,
    st: &mut StoredTable,
    column_names: &Vec<String>,
    values: &Vec<Vec<String>>,
    supplies_key: bool,
)
    requires
        old(st).wf(),
        supplies_key == texts(column_names@).contains(old(st).metadata.primary_key.name@),
        !supplies_key ==> old(st).metadata.latest_primary_key + values@.len() <= usize::MAX,
        old(st).pages@.len() + values@.len() < usize::MAX - 1,
        forall|a: int|
            0 <= a < values@.len() ==> row_valid(
                old(st).metadata,
                texts(column_names@),
                texts(#[trigger] values@[a]@),
            ),
    ensures
        final(st).wf(),
        final(st).metadata.name == old(st).metadata.name,
        ({
            let before = old(st).metadata;
            let after = final(st).metadata;
            let cols = texts(column_names@);
            let pages0 = pages_view(old(st).pages@);
            &&& after.latest_primary_key == before.latest_primary_key + if supplies_key { 0 } else { values@.len() }
            &&& indices_grow(before, after)
            &&& exists|recs: Seq<DynamicRecord>| rows_stored(before, after, cols, values@, pages0, pages_view(final(st).pages@), recs)
        }),
{
    let ghost before = st.metadata;
    let ghost cols = texts(column_names@);
    let ghost pages0 = pages_view(st.pages@);
    let ghost mut recs: Seq<DynamicRecord> = Seq::empty();
    let mut w: usize = 0;
    while w < values.len()
        invariant
            w <= values@.len(),
            old(st).metadata == before,
            pages_view(old(st).pages@) == pages0,
            st.metadata.name == before.name,
            st.wf(),
            st.pages@.len() <= pages0.len() + w,
            pages0.len() + values@.len() < usize::MAX - 1,
            cols == texts(column_names@),
            supplies_key == cols.contains(before.primary_key.name@),
            !supplies_key ==> before.latest_primary_key + values@.len() <= usize::MAX,
            forall|a: int| 0 <= a < values@.len() ==> row_valid(before, cols, texts(#[trigger] values@[a]@)),
            indices_grow(before, st.metadata),
            st.metadata.latest_primary_key == before.latest_primary_key + if supplies_key { 0 } else { w as int },
            recs.len() == w,
            pages_view(st.pages@) == store_all(pages0, recs),
            forall|a: int| 0 <= a < w ==> record_built(
                before,
                cols,
                texts(values@[a]@),
                (before.latest_primary_key + a + 1) as nat,
                #[trigger] recs[a],
            ) && indexes_record(st.metadata, recs[a], page_of(pages0, recs, a)),
            forall|a: int|
                0 <= a < before.indices@.len() ==> (#[trigger] st.metadata.indices@[a]).view_map()
                    == map_after_records(
                    before.indices@[a].view_map(),
                    before.indices@[a].column_name@,
                    recs,
                    pages0,
                    w as int,
                ),
        decreases values.len() - w,
    {
        let key: usize = if supplies_key {
            0
        } else {
            st.metadata.new_primary_key()
        };
        let rec = build_record(&st.metadata, column_names, &values[w], key);
        let ghost meta_before = st.metadata;
        let ghost rec_g = rec;
        let page = store_row(dm, st, rec);
        proof {
            let recs2 = recs.push(rec_g);
            assert(recs2.drop_last() =~= recs);
            assert(recs2.take(w as int) =~= recs);
            assert forall|a: int| 0 <= a <= w implies record_built(
                before,
                cols,
                texts(values@[a]@),
                (before.latest_primary_key + a + 1) as nat,
                #[trigger] recs2[a],
            ) && indexes_record(st.metadata, recs2[a], page_of(pages0, recs2, a)) by {
                if a < w {
                    assert(recs2[a] == recs[a]);
                    assert(recs2.take(a) =~= recs.take(a));
                    lemma_indexes_record_kept(meta_before, st.metadata, recs[a], page_of(pages0, recs, a));
                } else {
                    assert(page_of(pages0, recs2, a) == page);
                }
            }
            assert forall|a: int| 0 <= a < before.indices@.len() implies (#[trigger] st.metadata.indices@[a]).view_map()
                == map_after_records(
                before.indices@[a].view_map(),
                before.indices@[a].column_name@,
                recs2,
                pages0,
                w + 1,
            ) by {
                lemma_map_after_prefix(before.indices@[a].view_map(), before.indices@[a].column_name@, recs, rec_g, pages0, w as int);
                assert(index_grows(before.indices@[a], meta_before.indices@[a]));
                assert(recs2[w as int] == rec_g);
                assert(page_of(pages0, recs2, w as int) == page);
            }
            lemma_indices_grow_trans(before, meta_before, st.metadata);
            recs = recs2;
        }
        w = w + 1;
    }
    proof {
        assert(rows_stored(before, st.metadata, cols, values@, pages0, pages_view(st.pages@), recs));
    }
}

impl BinaryEngine {
    /// Inserts one record per value row into `table_name`. Each value goes
    /// to the column named at its position; values for names that are not
    /// columns of the schema are dropped. When the columns do not name the
    /// primary key, each record gets the next value of the table's counter,
    /// in decimal. Every row is checked before any is stored: a row of the
    /// wrong length, or a value its column's type refuses, fails the whole
    /// insert. Each record goes to the page `DataManager::save_record`
    /// picks, and every index over a column it has records that page.
    pub fn insert(&mut self, table_name: String, column_names: Vec<String>, values: Vec<Vec<String>>) -> (r:
        EngineResult)
        requires
            old(self).wf(),
        ensures
            final(self).wf(),
            insert_post(*old(self), *final(self), table_name, column_names, values, r),
    {
        let ghost n = table_name@;
        let ghost cols = texts(column_names@);
        let i = match self.find_table(table_name.as_str()) {
            Some(i) => i,
            None => {
                return Err(join3("Table '", table_name.as_str(), "' does not exist."));
            },
        };
        proof {
            assert(self.tables@[i as int].wf());
        }
        let mut v: usize = 0;
        while v < values.len()
            invariant
                v <= values@.len(),
                i < self.tables@.len(),
                *self == *old(self),
                self.wf(),
                n == table_name@,
                cols == texts(column_names@),
                self.has_table(n),
                self.table_names().index_of(n) == i,
                forall|a: int| 0 <= a < v ==> row_valid(self.tables@[i as int].metadata, cols, texts(#[trigger] values@[a]@)),
            decreases values.len() - v,
        {
            match check_row(&self.tables[i].metadata, &column_names, &values[v]) {
                Ok(()) => {},
                Err(e) => {
                    proof {
                        let t = self.metadata_of(n);
                        assert(t == self.tables@[i as int].metadata);
                        assert forall|j: int|
                            0 <= j < values@.len() && (forall|a: int|
                                0 <= a < j ==> row_valid(t, cols, texts(#[trigger] values@[a]@)))
                                && !row_valid(t, cols, texts(#[trigger] values@[j]@)) implies j == v by {
                            if j < v {
                            } else if j > v {
                                assert(row_valid(t, cols, texts(values@[v as int]@)));
                            }
                        }
                        assert(texts(values@[v as int]@).len() == values@[v as int]@.len());
                    }
                    return Err(e);
                },
            }
            v = v + 1;
        }
        let supplies_key = crate::text::contains_text(&column_names, self.tables[i].metadata.primary_key.name.as_str());
        if !supplies_key && values.len() > usize::MAX - self.tables[i].metadata.latest_primary_key {
            return Err(String::from_str(KEYS_EXHAUSTED));
        }
        if values.len() >= usize::MAX - 1 - self.tables[i].pages.len() {
            return Err(String::from_str(TOO_MANY_PAGES));
        }
        let ghost before = self.tables@[i as int].metadata;
        let ghost pages0 = pages_view(self.tables@[i as int].pages@);
        proof {
            assert(self.tables@[i as int].wf());
        }
        insert_rows(&self.data_manager, &mut self.tables[i], &column_names, &values, supplies_key);
        proof {
            lemma_one_table_changed(*old(self), *self, i as int);
            assert(old(self).metadata_of(n) == before);
            assert(self.metadata_of(n) == self.tables@[i as int].metadata);
            assert(old(self).pages_of(n) == pages0);
            assert(self.pages_of(n) == pages_view(self.tables@[i as int].pages@));
            let recs = choose|recs: Seq<DynamicRecord>| rows_stored(before, self.tables@[i as int].metadata, cols, values@, pages0, pages_view(self.tables@[i as int].pages@), recs);
            assert(rows_stored(before, self.metadata_of(n), cols, values@, old(self).pages_of(n), self.pages_of(n), recs));
            assert forall|j: int| 0 <= j < values@.len() implies row_valid(before, cols, texts(#[trigger] values@[j]@)) by {}
        }
        Ok(EngineResponse { table: None, records: None })
    }
}

} // verus!
