//! Byte encodings of data pages and table metadata, written with bincode
//! over plain std values.
use vstd::prelude::*;

use crate::metadata::{Column, Index, IndexEntry, SqlType};
use crate::record::{DynamicRecord, Field};
use crate::table::Table;
use crate::text::same_text;
use crate::value::Value;

verus! {

/// A field as bincode stores it: name, integer payload, text payload.
pub type PlainField = (String, Option<i32>, String);

/// A field as a plain value.
pub open spec fn field_plain(f: Field) -> (Seq<char>, Option<i32>, Seq<char>) {
    match f.value {
        Value::Int(i) => (f.name@, Some(i), Seq::empty()),
        Value::Text(s) => (f.name@, None, s@),
    }
}

/// A page of records as plain values.
pub open spec fn page_plain(p: Seq<DynamicRecord>) -> Seq<Seq<(Seq<char>, Option<i32>, Seq<char>)>> {
    p.map_values(|r: DynamicRecord| r.fields@.map_values(|f: Field| field_plain(f)))
}

/// The plain value of an encoded page, as sequences.
pub open spec fn plain_page_view(p: Seq<Vec<PlainField>>) -> Seq<Seq<(Seq<char>, Option<i32>, Seq<char>)>> {
    p.map_values(|r: Vec<PlainField>| r@.map_values(|f: PlainField| (f.0@, f.1, f.2@)))
}

/// The bytes that `bincode::serialize` writes for a page.
pub uninterp spec fn page_bytes(p: Seq<Seq<(Seq<char>, Option<i32>, Seq<char>)>>) -> Seq<u8>;

/// Relies on `bincode::serialize`: the encoding of the page, a function of
/// its value. With the default options there is no size limit and every
/// sequence here is a `Vec`, whose length is known, so it does not fail.
#[verifier::external_body]
fn serialize_page(p: &Vec<Vec<PlainField>>) -> (r: Option<Vec<u8>>)
    ensures
        r is Some,
        r matches Some(b) ==> b@ == page_bytes(plain_page_view(p@)),
{
    match bincode::serialize(p) {
        Ok(b) => Some(b),
        Err(_) => None,
    }
}

/// A field as a plain value.
fn field_to_plain(f: &Field) -> (r: PlainField)
    ensures
        (r.0@, r.1, r.2@) == field_plain(*f),
{
    match &f.value {
        Value::Int(i) => (f.name.clone(), Some(*i), String::new()),
        Value::Text(s) => (f.name.clone(), None, s.clone()),
    }
}

/// A page of records as plain values.
fn page_to_plain(records: &Vec<DynamicRecord>) -> (r: Vec<Vec<PlainField>>)
    ensures
        plain_page_view(r@) == page_plain(records@),
{
    let mut out: Vec<Vec<PlainField>> = Vec::new();
    let mut i: usize = 0;
    while i < records.len()
        invariant
            i <= records@.len(),
            out@.len() == i,
            plain_page_view(out@) == page_plain(records@.take(i as int)),
        decreases records.len() - i,
    {
        let fields = &records[i].fields;
        let mut row: Vec<PlainField> = Vec::new();
        let mut j: usize = 0;
        while j < fields.len()
            invariant
                j <= fields@.len(),
                row@.len() == j,
                forall|k: int|
                    0 <= k < j ==> ((#[trigger] row@[k]).0@, row@[k].1, row@[k].2@) == field_plain(
                        fields@[k],
                    ),
            decreases fields.len() - j,
        {
            row.push(field_to_plain(&fields[j]));
            j = j + 1;
        }
        let ghost before = out@;
        out.push(row);
        proof {
            assert(row@.map_values(|f: PlainField| (f.0@, f.1, f.2@)) =~= fields@.map_values(
                |f: Field| field_plain(f),
            ));
            assert(out@ == before.push(row));
            assert(plain_page_view(out@)[i as int] == page_plain(records@.take(i as int + 1))[i as int]);
            assert forall|k: int| 0 <= k < i + 1 implies plain_page_view(out@)[k] == page_plain(
                records@.take(i as int + 1),
            )[k] by {
                if k < i {
                    assert(plain_page_view(out@)[k] == plain_page_view(before)[k]);
                    assert(plain_page_view(before)[k] == page_plain(records@.take(i as int))[k]);
                    assert(records@.take(i as int + 1)[k] == records@.take(i as int)[k]);
                }
            }
            assert(plain_page_view(out@) =~= page_plain(records@.take(i as int + 1)));
        }
        i = i + 1;
    }
    assert(records@.take(records@.len() as int) =~= records@);
    out
}

/// Relies on `bincode::deserialize`: bytes that `bincode::serialize` wrote
/// for a page decode to that page; `None` where bincode reports an error.
#[verifier::external_body]
fn deserialize_page(b: &[u8]) -> (r: Option<Vec<Vec<PlainField>>>)
    ensures
        r is None ==> forall|p: Seq<Seq<(Seq<char>, Option<i32>, Seq<char>)>>| #[trigger] page_bytes(p) != b@,
        r matches Some(q) ==> forall|p: Seq<Seq<(Seq<char>, Option<i32>, Seq<char>)>>|
            #[trigger] page_bytes(p) == b@ ==> plain_page_view(q@) == p,
{
    match bincode::deserialize::<Vec<Vec<PlainField>>>(b) {
        Ok(p) => Some(p),
        Err(_) => None,
    }
}

/// A field from plain values: an integer when the integer payload is set.
fn field_from_plain(f: &PlainField) -> (r: Field)
    ensures
        f.1 is None ==> field_plain(r) == (f.0@, f.1, f.2@),
        f.1 is Some ==> field_plain(r) == (f.0@, f.1, Seq::<char>::empty()),
{
    match f.1 {
        Some(i) => Field { name: f.0.clone(), value: Value::Int(i) },
        None => Field { name: f.0.clone(), value: Value::Text(f.2.clone()) },
    }
}

/// Whether each integer field of a plain record has no text payload, as
/// `field_plain` writes them.
pub open spec fn plain_ok(r: Seq<(Seq<char>, Option<i32>, Seq<char>)>) -> bool {
    forall|k: int| 0 <= k < r.len() ==> (#[trigger] r[k]).1 is Some ==> r[k].2.len() == 0
}

/// A record from plain fields; `None` when a field name repeats.
fn record_from_plain(fields: &Vec<PlainField>) -> (r: Option<DynamicRecord>)
    ensures
        r matches Some(x) ==> x.wf() && (plain_ok(fields@.map_values(|f: PlainField| (f.0@, f.1, f.2@)))
            ==> x.fields@.map_values(|f: Field| field_plain(f)) == fields@.map_values(
            |f: PlainField| (f.0@, f.1, f.2@),
        )),
        r is None ==> !fields@.map_values(|f: PlainField| f.0@).no_duplicates(),
{
    let ghost pv = fields@.map_values(|f: PlainField| (f.0@, f.1, f.2@));
    let ghost names = fields@.map_values(|f: PlainField| f.0@);
    let mut out: Vec<Field> = Vec::new();
    let mut i: usize = 0;
    while i < fields.len()
        invariant
            i <= fields@.len(),
            pv == fields@.map_values(|f: PlainField| (f.0@, f.1, f.2@)),
            names == fields@.map_values(|f: PlainField| f.0@),
            out@.len() == i,
            forall|k: int| 0 <= k < i ==> (#[trigger] out@[k]).name@ == names[k],
            forall|k: int| 0 <= k < i ==> pv[k].1 is None || pv[k].2.len() == 0 ==> field_plain(#[trigger] out@[k]) == pv[k],
        decreases fields.len() - i,
    {
        let f = field_from_plain(&fields[i]);
        assert(pv[i as int] == (fields@[i as int].0@, fields@[i as int].1, fields@[i as int].2@));
        out.push(f);
        i = i + 1;
    }
    let mut a: usize = 0;
    while a < out.len()
        invariant
            a <= out@.len(),
            out@.len() == fields@.len(),
            names == fields@.map_values(|f: PlainField| f.0@),
            names.len() == fields@.len(),
            forall|k: int| 0 <= k < out@.len() ==> (#[trigger] out@[k]).name@ == names[k],
            forall|x: int, y: int| 0 <= x < y < out@.len() && x < a ==> names[x] != names[y],
        decreases out.len() - a,
    {
        let mut b: usize = a + 1;
        while b < out.len()
            invariant
                a < b <= out@.len(),
                out@.len() == fields@.len(),
                names == fields@.map_values(|f: PlainField| f.0@),
                names.len() == fields@.len(),
                forall|k: int| 0 <= k < out@.len() ==> (#[trigger] out@[k]).name@ == names[k],
                forall|x: int, y: int| 0 <= x < y < out@.len() && x < a ==> names[x] != names[y],
                forall|y: int| a < y < b ==> names[a as int] != names[y],
            decreases out.len() - b,
        {
            if same_text(out[a].name.as_str(), out[b].name.as_str()) {
                assert(names[a as int] == names[b as int]);
                return None;
            }
            b = b + 1;
        }
        a = a + 1;
    }
    let r = DynamicRecord { fields: out };
    assert(r.names() =~= names);
    proof {
        if plain_ok(pv) {
            assert(r.fields@.map_values(|f: Field| field_plain(f)) =~= pv);
        }
    }
    Some(r)
}

/// A page of plain values as `page_plain` writes them.
proof fn lemma_page_plain_ok(p: Seq<DynamicRecord>, j: int)
    requires
        0 <= j < p.len(),
    ensures
        plain_ok(page_plain(p)[j]),
{
    let r = page_plain(p)[j];
    assert(r == p[j].fields@.map_values(|f: Field| field_plain(f)));
    assert forall|k: int| 0 <= k < r.len() implies (#[trigger] r[k]).1 is Some ==> r[k].2.len() == 0 by {
        assert(r[k] == field_plain(p[j].fields@[k]));
    }
}

/// A page of records decoded from bytes; `None` when the bytes do not
/// decode or a record repeats a field name.
pub fn decode_page(b: &Vec<u8>) -> (r: Option<Vec<DynamicRecord>>)
    ensures
        r matches Some(v) ==> forall|j: int| 0 <= j < v@.len() ==> (#[trigger] v@[j]).wf(),
        forall|p: Seq<DynamicRecord>|
            (forall|j: int| 0 <= j < p.len() ==> (#[trigger] p[j]).wf()) && #[trigger] page_bytes(
                page_plain(p),
            ) == b@ ==> (r matches Some(v) && page_plain(v@) == page_plain(p)),
{
    let q = match deserialize_page(b.as_slice()) {
        Some(q) => q,
        None => {
            return None;
        },
    };
    let ghost qv = plain_page_view(q@);
    let mut out: Vec<DynamicRecord> = Vec::new();
    let mut i: usize = 0;
    while i < q.len()
        invariant
            i <= q@.len(),
            qv == plain_page_view(q@),
            out@.len() == i,
            forall|j: int| 0 <= j < i ==> (#[trigger] out@[j]).wf(),
            forall|j: int| 0 <= j < i ==> plain_ok(qv[j]) ==> page_plain(out@)[j] == #[trigger] qv[j],
            forall|p: Seq<DynamicRecord>| #[trigger] page_bytes(page_plain(p)) == b@ ==> page_plain(p) == qv,
        decreases q.len() - i,
    {
        match record_from_plain(&q[i]) {
            Some(x) => {
                let ghost before = out@;
                out.push(x);
                proof {
                    assert(qv[i as int] == q@[i as int]@.map_values(|f: PlainField| (f.0@, f.1, f.2@)));
                    assert forall|j: int| 0 <= j <= i implies plain_ok(qv[j]) ==> page_plain(out@)[j] == #[trigger] qv[j] by {
                        if j < i {
                            assert(out@[j] == before[j]);
                            assert(page_plain(out@)[j] == page_plain(before)[j]);
                        }
                    }
                }
            },
            None => {
                proof {
                    assert forall|p: Seq<DynamicRecord>|
                        (forall|j: int| 0 <= j < p.len() ==> (#[trigger] p[j]).wf()) implies #[trigger] page_bytes(page_plain(p)) != b@ by {
                        if page_bytes(page_plain(p)) == b@ {
                            assert(page_plain(p) == qv);
                            assert(page_plain(p).len() == p.len());
                            assert(qv.len() == q@.len());
                            assert(page_plain(p)[i as int] == qv[i as int]);
                            assert(p[i as int].wf());
                            let pn = p[i as int].names();
                            let qn = q@[i as int]@.map_values(|f: PlainField| f.0@);
                            assert(pn =~= qn) by {
                                assert(page_plain(p)[i as int] == p[i as int].fields@.map_values(|f: Field| field_plain(f)));
                                assert(qv[i as int] == q@[i as int]@.map_values(|f: PlainField| (f.0@, f.1, f.2@)));
                                assert(pn.len() == p[i as int].fields@.len());
                                assert(qn.len() == q@[i as int]@.len());
                                assert(page_plain(p)[i as int].len() == qv[i as int].len());
                                assert forall|k: int| 0 <= k < pn.len() implies pn[k] == qn[k] by {
                                    assert(page_plain(p)[i as int][k] == field_plain(p[i as int].fields@[k]));
                                    assert(qv[i as int][k] == (q@[i as int]@[k].0@, q@[i as int]@[k].1, q@[i as int]@[k].2@));
                                }
                            }
                        }
                    }
                }
                return None;
            },
        }
        i = i + 1;
    }
    proof {
        assert forall|p: Seq<DynamicRecord>|
            (forall|j: int| 0 <= j < p.len() ==> (#[trigger] p[j]).wf()) && #[trigger] page_bytes(page_plain(p)) == b@
            implies page_plain(out@) == page_plain(p) by {
            assert(page_plain(p) == qv);
            assert forall|j: int| 0 <= j < qv.len() implies page_plain(out@)[j] == qv[j] by {
                lemma_page_plain_ok(p, j);
                assert(plain_ok(qv[j]));
            }
            assert(page_plain(out@) =~= page_plain(p));
        }
    }
    Some(out)
}

/// The number of bytes a page of records takes once encoded.
pub open spec fn page_size(p: Seq<DynamicRecord>) -> int {
    page_bytes(page_plain(p)).len() as int
}

/// The encoding of a page of records.
pub fn encode_page(records: &Vec<DynamicRecord>) -> (r: Vec<u8>)
    ensures
        r@ == page_bytes(page_plain(records@)),
{
    let plain = page_to_plain(records);
    match serialize_page(&plain) {
        Some(b) => b,
        None => Vec::new(),
    }
}

/// A column as bincode stores it: name, type code, nullable.
pub type PlainColumn = (String, u8, bool);

/// An index as bincode stores it: name, column, and each key with its pages.
pub type PlainIndex = (String, String, Vec<(String, Vec<usize>)>);

/// Table metadata as bincode stores it: name, primary key, key counter,
/// columns and indices.
pub type PlainTable = (String, PlainColumn, usize, Vec<PlainColumn>, Vec<PlainIndex>);

/// A column as plain values.
pub type ColumnModel = (Seq<char>, u8, bool);

/// An index as plain values.
pub type IndexModel = (Seq<char>, Seq<char>, Seq<(Seq<char>, Seq<usize>)>);

/// Table metadata as plain values.
pub type TableModel = (Seq<char>, ColumnModel, usize, Seq<ColumnModel>, Seq<IndexModel>);

/// The stored code of a column type.
pub open spec fn type_code(t: SqlType) -> u8 {
    match t {
        SqlType::Varchar => 0,
        SqlType::Integer => 1,
    }
}

/// A column as plain values.
pub open spec fn column_model(c: Column) -> ColumnModel {
    (c.name@, type_code(c.data_type), c.nullable)
}

/// An index as plain values.
pub open spec fn index_model(i: Index) -> IndexModel {
    (i.name@, i.column_name@, i.tree@.map_values(|e: IndexEntry| (e.key@, e.pages@)))
}

/// Table metadata as plain values.
pub open spec fn table_model(t: Table) -> TableModel {
    (
        t.name@,
        column_model(t.primary_key),
        t.latest_primary_key,
        t.columns@.map_values(|c: Column| column_model(c)),
        t.indices@.map_values(|i: Index| index_model(i)),
    )
}

/// The plain value of stored metadata, as sequences.
pub open spec fn plain_column_view(c: PlainColumn) -> ColumnModel {
    (c.0@, c.1, c.2)
}

/// The plain value of a stored index, as sequences.
pub open spec fn plain_index_view(i: PlainIndex) -> IndexModel {
    (i.0@, i.1@, i.2@.map_values(|e: (String, Vec<usize>)| (e.0@, e.1@)))
}

/// The plain value of stored metadata, as sequences.
pub open spec fn plain_table_view(p: PlainTable) -> TableModel {
    (
        p.0@,
        plain_column_view(p.1),
        p.2,
        p.3@.map_values(|c: PlainColumn| plain_column_view(c)),
        p.4@.map_values(|i: PlainIndex| plain_index_view(i)),
    )
}

/// The bytes that `bincode::serialize` writes for table metadata.
pub uninterp spec fn metadata_bytes(m: TableModel) -> Seq<u8>;

/// Relies on `bincode::serialize`: the encoding of the metadata, a function
/// of its value. With the default options there is no size limit and every
/// sequence here is a `Vec`, whose length is known, so it does not fail.
#[verifier::external_body]
fn serialize_metadata(p: &PlainTable) -> (r: Option<Vec<u8>>)
    ensures
        r is Some,
        r matches Some(b) ==> b@ == metadata_bytes(plain_table_view(*p)),
{
    match bincode::serialize(p) {
        Ok(b) => Some(b),
        Err(_) => None,
    }
}

/// Whether `a` is the start of `b`.
pub open spec fn is_prefix(a: Seq<u8>, b: Seq<u8>) -> bool {
    a.len() <= b.len() && b.subrange(0, a.len() as int) == a
}

/// Relies on `bincode::deserialize`: bytes that `bincode::serialize` wrote
/// for a value decode to that value; `None` where bincode reports an error.
/// The fixed-width decoding reads the fields in order and accepts trailing
/// bytes, so what it reads is exactly the encoding of the value it returns.
#[verifier::external_body]
fn deserialize_metadata(b: &[u8]) -> (r: Option<PlainTable>)
    ensures
        r is None ==> forall|m: TableModel| #[trigger] metadata_bytes(m) != b@,
        r matches Some(p) ==> forall|m: TableModel| #[trigger] metadata_bytes(m) == b@ ==> plain_table_view(p) == m,
        r matches Some(p) ==> is_prefix(metadata_bytes(plain_table_view(p)), b@),
{
    match bincode::deserialize::<PlainTable>(b) {
        Ok(p) => Some(p),
        Err(_) => None,
    }
}

/// A column as plain values.
fn column_to_plain(c: &Column) -> (r: PlainColumn)
    ensures
        plain_column_view(r) == column_model(*c),
{
    let code: u8 = match c.data_type {
        SqlType::Varchar => 0,
        SqlType::Integer => 1,
    };
    (c.name.clone(), code, c.nullable)
}

/// A column from plain values; `None` for an unknown type code.
fn column_from_plain(c: &PlainColumn) -> (r: Option<Column>)
    ensures
        r matches Some(x) ==> column_model(x) == plain_column_view(*c),
        r is None <==> c.1 > 1,
{
    let data_type = if c.1 == 0 {
        SqlType::Varchar
    } else if c.1 == 1 {
        SqlType::Integer
    } else {
        return None;
    };
    Some(Column { name: c.0.clone(), data_type, nullable: c.2 })
}

/// Table metadata as plain values.
pub fn table_to_plain(t: &Table) -> (r: PlainTable)
    ensures
        plain_table_view(r) == table_model(*t),
{
    let mut columns: Vec<PlainColumn> = Vec::new();
    let mut i: usize = 0;
    while i < t.columns.len()
        invariant
            i <= t.columns@.len(),
            columns@.len() == i,
            forall|k: int| 0 <= k < i ==> plain_column_view(#[trigger] columns@[k]) == column_model(t.columns@[k]),
        decreases t.columns.len() - i,
    {
        columns.push(column_to_plain(&t.columns[i]));
        i = i + 1;
    }
    let mut indices: Vec<PlainIndex> = Vec::new();
    let mut j: usize = 0;
    while j < t.indices.len()
        invariant
            j <= t.indices@.len(),
            indices@.len() == j,
            forall|k: int| 0 <= k < j ==> plain_index_view(#[trigger] indices@[k]) == index_model(t.indices@[k]),
        decreases t.indices.len() - j,
    {
        let index = &t.indices[j];
        let mut entries: Vec<(String, Vec<usize>)> = Vec::new();
        let mut e: usize = 0;
        while e < index.tree.len()
            invariant
                e <= index.tree@.len(),
                entries@.len() == e,
                forall|k: int| 0 <= k < e ==> (#[trigger] entries@[k]).0@ == index.tree@[k].key@
                    && entries@[k].1@ == index.tree@[k].pages@,
            decreases index.tree.len() - e,
        {
            entries.push((index.tree[e].key.clone(), index.tree[e].pages.clone()));
            e = e + 1;
        }
        let p = (index.name.clone(), index.column_name.clone(), entries);
        assert(plain_index_view(p).2 =~= index_model(*index).2);
        indices.push(p);
        j = j + 1;
    }
    let r = (t.name.clone(), column_to_plain(&t.primary_key), t.latest_primary_key, columns, indices);
    assert(plain_table_view(r).3 =~= table_model(*t).3);
    assert(plain_table_view(r).4 =~= table_model(*t).4);
    r
}

/// Table metadata from plain values; `None` for an unknown type code.
pub fn table_from_plain(p: &PlainTable) -> (r: Option<Table>)
    ensures
        r matches Some(t) ==> table_model(t) == plain_table_view(*p),
        (forall|t0: Table| table_model(t0) == plain_table_view(*p) ==> r is Some),
{
    let primary_key = match column_from_plain(&p.1) {
        Some(c) => c,
        None => {
            proof {
                assert forall|t0: Table| table_model(t0) != plain_table_view(*p) by {
                    if table_model(t0) == plain_table_view(*p) {
                        assert(type_code(t0.primary_key.data_type) <= 1);
                    }
                }
            }
            return None;
        },
    };
    let mut columns: Vec<Column> = Vec::new();
    let mut i: usize = 0;
    while i < p.3.len()
        invariant
            i <= p.3@.len(),
            columns@.len() == i,
            forall|k: int| 0 <= k < i ==> column_model(#[trigger] columns@[k]) == plain_column_view(p.3@[k]),
        decreases p.3.len() - i,
    {
        match column_from_plain(&p.3[i]) {
            Some(c) => columns.push(c),
            None => {
                proof {
                    assert forall|t0: Table| table_model(t0) != plain_table_view(*p) by {
                        if table_model(t0) == plain_table_view(*p) {
                            assert(table_model(t0).3.len() == p.3@.len());
                            assert(table_model(t0).3[i as int] == plain_table_view(*p).3[i as int]);
                            assert(table_model(t0).3[i as int] == column_model(t0.columns@[i as int]));
                            assert(plain_table_view(*p).3[i as int] == plain_column_view(p.3@[i as int]));
                            assert(type_code(t0.columns@[i as int].data_type) <= 1);
                        }
                    }
                }
                return None;
            },
        }
        i = i + 1;
    }
    let mut indices: Vec<Index> = Vec::new();
    let mut j: usize = 0;
    while j < p.4.len()
        invariant
            j <= p.4@.len(),
            indices@.len() == j,
            forall|k: int| 0 <= k < j ==> index_model(#[trigger] indices@[k]) == plain_index_view(p.4@[k]),
        decreases p.4.len() - j,
    {
        let x = &p.4[j];
        let mut tree: Vec<IndexEntry> = Vec::new();
        let mut e: usize = 0;
        while e < x.2.len()
            invariant
                e <= x.2@.len(),
                tree@.len() == e,
                forall|k: int| 0 <= k < e ==> (#[trigger] tree@[k]).key@ == x.2@[k].0@ && tree@[k].pages@ == x.2@[k].1@,
            decreases x.2.len() - e,
        {
            tree.push(IndexEntry { key: x.2[e].0.clone(), pages: x.2[e].1.clone() });
            e = e + 1;
        }
        let index = Index { name: x.0.clone(), column_name: x.1.clone(), tree };
        assert(index_model(index).2 =~= plain_index_view(*x).2);
        indices.push(index);
        j = j + 1;
    }
    let t = Table { name: p.0.clone(), primary_key, latest_primary_key: p.2, columns, indices };
    assert(table_model(t).3 =~= plain_table_view(*p).3);
    assert(table_model(t).4 =~= plain_table_view(*p).4);
    Some(t)
}

/// The encoding of table metadata.
pub fn encode_metadata(t: &Table) -> (r: Vec<u8>)
    ensures
        r@ == metadata_bytes(table_model(*t)),
{
    let p = table_to_plain(t);
    match serialize_metadata(&p) {
        Some(b) => b,
        None => Vec::new(),
    }
}

/// Table metadata decoded from bytes; `None` when they do not decode.
pub fn decode_metadata(b: &Vec<u8>) -> (r: Option<Table>)
    ensures
        r matches Some(t) ==> is_prefix(metadata_bytes(table_model(t)), b@),
        forall|t0: Table| #[trigger] metadata_bytes(table_model(t0)) == b@ ==> (r matches Some(t) && table_model(t) == table_model(t0)),
{
    match deserialize_metadata(b.as_slice()) {
        Some(p) => {
            let r = table_from_plain(&p);
            proof {
                assert forall|t0: Table| #[trigger] metadata_bytes(table_model(t0)) == b@ implies (r matches Some(t) && table_model(t) == table_model(t0)) by {
                    assert(plain_table_view(p) == table_model(t0));
                }
            }
            r
        },
        None => {
            proof {
                assert forall|t0: Table| #[trigger] metadata_bytes(table_model(t0)) != b@ by {
                    assert(metadata_bytes(table_model(t0)) != b@);
                }
            }
            None
        },
    }
}

} // verus!
