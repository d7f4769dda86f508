//! Properties that hold across the library's operations, stated over the
//! same specifications as the operations' contracts and proved here.
use vstd::prelude::*;

use crate::codec::{page_size, table_model};
use crate::data::{
    pages_view,
    all_page_numbers, open_page_from, page_rows, projected, rows_of_pages, selects_all,
    target_page, PAGE_SIZE,
};
use crate::engine::{indexes_pages, StoredTable, already_indexed_message, lemma_model_keeps_wf, NO_SUCH_COLUMN, NO_SUCH_TABLE};
use crate::metadata::SqlType;
use crate::record::{DynamicRecord, Field};
use crate::insert::record_built;
use crate::table::Table;
use crate::text::{digit_char, nat_text};
use crate::table::{columns_of, flags_primary_key, primary_key_of, types_primary_key};

verus! {

/// Without a description that flags a primary key, the primary key is
/// `id`, of type `INTEGER`.
pub proof fn law_default_primary_key(vs: Seq<Seq<Seq<char>>>)
    requires
        forall|i: int| 0 <= i < vs.len() ==> !flags_primary_key(#[trigger] vs[i]),
    ensures
        primary_key_of(vs) == ("id"@, SqlType::Integer),
    decreases vs.len(),
{
    reveal_strlit("id");
    if vs.len() > 0 {
        let init = vs.drop_last();
        assert forall|i: int| 0 <= i < init.len() implies !flags_primary_key(#[trigger] init[i]) by {
            assert(init[i] == vs[i]);
        }
        law_default_primary_key(init);
        assert(!flags_primary_key(vs[vs.len() - 1]));
    }
}

/// The last description that flags the primary key gives its name, and
/// its type when it names one (`[name, type, PRIMARY KEY]`); that
/// description is not among the regular columns, which are the other
/// descriptions' columns in order.
pub proof fn law_flagged_primary_key(vs: Seq<Seq<Seq<char>>>, j: int)
    requires
        0 <= j < vs.len(),
        flags_primary_key(vs[j]),
        forall|i: int| j < i < vs.len() ==> !flags_primary_key(#[trigger] vs[i]),
    ensures
        primary_key_of(vs).0 == vs[j][0],
        types_primary_key(vs[j]) ==> primary_key_of(vs).1 == crate::metadata::sql_type_of(
            vs[j][1],
        )->0,
        columns_of(vs) == columns_of(vs.subrange(0, j)) + columns_of(
            vs.subrange(j + 1, vs.len() as int),
        ),
    decreases vs.len(),
{
    if j < vs.len() - 1 {
        let init = vs.drop_last();
        assert forall|i: int| j < i < init.len() implies !flags_primary_key(#[trigger] init[i]) by {
            assert(init[i] == vs[i]);
        }
        law_flagged_primary_key(init, j);
        assert(init[j] == vs[j]);
        assert(!flags_primary_key(vs[vs.len() - 1]));
    }
    let keep = |v: Seq<Seq<char>>| !flags_primary_key(v);
    let a = vs.subrange(0, j);
    let b = vs.subrange(j + 1, vs.len() as int);
    assert(vs =~= a + seq![vs[j]] + b);
    Seq::filter_distributes_over_add(a + seq![vs[j]], b, keep);
    Seq::filter_distributes_over_add(a, seq![vs[j]], keep);
    assert(seq![vs[j]].filter(keep) =~= Seq::<Seq<Seq<char>>>::empty()) by {
        let e = Seq::<Seq<Seq<char>>>::empty();
        assert(seq![vs[j]] =~= e.push(vs[j]));
        e.lemma_filter_push(vs[j], keep);
        assert(!keep(vs[j]));
        reveal(Seq::filter);
        assert(e.filter(keep) =~= e);
    }
    assert(a.filter(keep) + Seq::<Seq<Seq<char>>>::empty() =~= a.filter(keep));
    let f = |v: Seq<Seq<char>>| (v[0], crate::metadata::sql_type_of(v[1])->0);
    assert((a.filter(keep) + b.filter(keep)).map_values(f) =~= a.filter(keep).map_values(f)
        + b.filter(keep).map_values(f));
}

/// Distinct numbers have distinct decimal forms.
pub proof fn lemma_nat_text_injective(a: nat, b: nat)
    requires
        nat_text(a) == nat_text(b),
    ensures
        a == b,
    decreases a,
{
    lemma_nat_text_len(a);
    lemma_nat_text_len(b);
    if a < 10 && b < 10 {
        assert(nat_text(a)[0] == digit_char(a));
        assert(nat_text(b)[0] == digit_char(b));
        lemma_digit_char_injective(a, b);
    } else if a >= 10 && b >= 10 {
        let ta = nat_text(a);
        let tb = nat_text(b);
        assert(ta.last() == digit_char(a % 10));
        assert(tb.last() == digit_char(b % 10));
        lemma_digit_char_injective(a % 10, b % 10);
        assert(ta.drop_last() =~= nat_text(a / 10));
        assert(tb.drop_last() =~= nat_text(b / 10));
        lemma_nat_text_injective(a / 10, b / 10);
    } else if a < 10 {
        lemma_nat_text_len(b / 10);
        assert(nat_text(b).len() == nat_text(b / 10).len() + 1);
    } else {
        lemma_nat_text_len(a / 10);
        assert(nat_text(a).len() == nat_text(a / 10).len() + 1);
    }
}

/// A decimal form is one digit long exactly below ten.
proof fn lemma_nat_text_len(n: nat)
    ensures
        nat_text(n).len() >= 1,
        (nat_text(n).len() == 1) == (n < 10),
    decreases n,
{
    if n >= 10 {
        lemma_nat_text_len(n / 10);
    }
}

proof fn lemma_digit_char_injective(a: nat, b: nat)
    requires
        a < 10,
        b < 10,
        digit_char(a) == digit_char(b),
    ensures
        a == b,
{
}

/// The primary key text of a record.
pub open spec fn key_text(t: Table, r: DynamicRecord) -> Seq<char> {
    r.value_of(t.primary_key.name@).text()
}

/// Keys that inserts synthesize follow the table's counter: row `i` of a
/// batch gets the counter plus `i + 1` (so `1..=N` on a new table), and a
/// later batch, made once the counter has moved past the first batch,
/// repeats none of its keys.
pub proof fn law_synthesized_keys_never_repeat(
    t1: Table,
    cols1: Seq<Seq<char>>,
    rows1: Seq<Seq<Seq<char>>>,
    recs1: Seq<DynamicRecord>,
    t2: Table,
    cols2: Seq<Seq<char>>,
    rows2: Seq<Seq<Seq<char>>>,
    recs2: Seq<DynamicRecord>,
)
    requires
        t2.primary_key == t1.primary_key,
        t2.latest_primary_key >= t1.latest_primary_key + rows1.len(),
        !cols1.contains(t1.primary_key.name@),
        !cols2.contains(t2.primary_key.name@),
        recs1.len() == rows1.len(),
        recs2.len() == rows2.len(),
        forall|i: int|
            0 <= i < recs1.len() ==> record_built(
                t1,
                cols1,
                rows1[i],
                (t1.latest_primary_key + i + 1) as nat,
                #[trigger] recs1[i],
            ),
        forall|j: int|
            0 <= j < recs2.len() ==> record_built(
                t2,
                cols2,
                rows2[j],
                (t2.latest_primary_key + j + 1) as nat,
                #[trigger] recs2[j],
            ),
    ensures
        forall|i: int|
            0 <= i < recs1.len() ==> key_text(t1, #[trigger] recs1[i]) == nat_text(
                (t1.latest_primary_key + i + 1) as nat,
            ),
        forall|i: int, k: int|
            0 <= i < k < recs1.len() ==> key_text(t1, #[trigger] recs1[i]) != key_text(
                t1,
                #[trigger] recs1[k],
            ),
        forall|i: int, j: int|
            0 <= i < recs1.len() && 0 <= j < recs2.len() ==> key_text(t1, #[trigger] recs1[i])
                != key_text(t2, #[trigger] recs2[j]),
{
    assert forall|i: int, k: int| 0 <= i < k < recs1.len() implies key_text(t1, #[trigger] recs1[i])
        != key_text(t1, #[trigger] recs1[k]) by {
        if key_text(t1, recs1[i]) == key_text(t1, recs1[k]) {
            lemma_nat_text_injective(
                (t1.latest_primary_key + i + 1) as nat,
                (t1.latest_primary_key + k + 1) as nat,
            );
        }
    }
    assert forall|i: int, j: int| 0 <= i < recs1.len() && 0 <= j < recs2.len() implies key_text(
        t1,
        #[trigger] recs1[i],
    ) != key_text(t2, #[trigger] recs2[j]) by {
        assert(record_built(t1, cols1, rows1[i], (t1.latest_primary_key + i + 1) as nat, recs1[i]));
        assert(record_built(t2, cols2, rows2[j], (t2.latest_primary_key + j + 1) as nat, recs2[j]));
        if key_text(t1, recs1[i]) == key_text(t2, recs2[j]) {
            lemma_nat_text_injective(
                (t1.latest_primary_key + i + 1) as nat,
                (t2.latest_primary_key + j + 1) as nat,
            );
        }
    }
}

/// Metadata read back from the bytes written for well-formed metadata
/// (`TableManager::load_meta_data` on what `store_meta_data` gave) has the
/// same name, primary key, key counter, columns and indices, and is well
/// formed.
pub proof fn law_metadata_round_trip(t: Table, back: Table)
    requires
        t.wf(),
        table_model(back) == table_model(t),
    ensures
        back.view() == t.view(),
        back.wf(),
{
    lemma_model_keeps_wf(t, back);
}

/// Some clause over an indexed column makes a first one.
proof fn lemma_first_indexed_clause(t: Table, cv: Seq<(Seq<char>, Seq<char>)>, i: int)
    requires
        0 <= i < cv.len(),
        t.is_indexed(cv[i].0),
    ensures
        exists|m: int|
            0 <= m < cv.len() && t.is_indexed(#[trigger] cv[m].0) && forall|j: int|
                0 <= j < m ==> !t.is_indexed(#[trigger] cv[j].0),
    decreases i,
{
    if exists|j: int| 0 <= j < i && t.is_indexed(#[trigger] cv[j].0) {
        let j = choose|j: int| 0 <= j < i && t.is_indexed(#[trigger] cv[j].0);
        lemma_first_indexed_clause(t, cv, j);
    } else {
        assert(forall|j: int| 0 <= j < i ==> !t.is_indexed(#[trigger] cv[j].0));
    }
}

/// An index never hides a record from a query: when the first clause
/// over an indexed column picks the pages to read, every stored record
/// that has that column and meets the clauses lies on one of those pages.
pub proof fn law_index_pruning_keeps_matches(
    st: StoredTable,
    cv: Seq<(Seq<char>, Seq<char>)>,
    p: int,
    j: int,
)
    requires
        st.wf(),
        st.metadata.pruning_clause(cv) is Some,
        0 <= p < pages_view(st.pages@).len(),
        0 <= j < pages_view(st.pages@)[p].len(),
        pages_view(st.pages@)[p][j].satisfies(cv),
        pages_view(st.pages@)[p][j].has(cv[st.metadata.pruning_clause(cv)->0].0),
    ensures
        st.metadata.candidate_pages(cv)->0.contains((p + 1) as usize),
{
    let t = st.metadata;
    let pages = pages_view(st.pages@);
    let rec = pages[p][j];
    let c = t.pruning_clause(cv)->0;
    let col = cv[c].0;
    let w = choose|i: int| 0 <= i < cv.len() && t.is_indexed(#[trigger] cv[i].0);
    lemma_first_indexed_clause(t, cv, w);
    assert(0 <= c < cv.len() && t.is_indexed(col));
    let k = t.index_columns().index_of(col);
    assert(t.index_columns().contains(col));
    assert(0 <= k < t.indices@.len() && t.index_columns()[k] == col);
    let index = t.indices@[k];
    assert(index.column_name@ == col);
    assert(indexes_pages(index, pages));
    assert(rec.has(index.column_name@));
    assert(index.pages_of(rec.value_of(col).text()).contains((p + 1) as usize));
    assert(rec.has(cv[c].0));
    assert(rec.value_of(cv[c].0).text() == cv[c].1);
}

/// The pages an index picks for a query list each page once, so a query
/// reads no page twice.
pub proof fn law_candidate_pages_listed_once(t: Table, cv: Seq<(Seq<char>, Seq<char>)>)
    requires
        t.wf(),
        t.candidate_pages(cv) is Some,
    ensures
        t.candidate_pages(cv)->0.no_duplicates(),
{
    let c = t.pruning_clause(cv)->0;
    let w = choose|i: int| 0 <= i < cv.len() && t.is_indexed(#[trigger] cv[i].0);
    lemma_first_indexed_clause(t, cv, w);
    let col = cv[c].0;
    let k = t.index_columns().index_of(col);
    assert(t.index_columns().contains(col));
    assert(0 <= k < t.indices@.len());
    let index = t.indices@[k];
    assert(index.wf());
    let v = cv[c].1;
    if index.view_map().contains_key(v) {
        let e = index.keys().index_of(v);
        assert(index.keys().contains(v));
        assert(0 <= e < index.tree@.len());
        assert(index.view_map()[v] == index.tree@[e].pages@);
    } else {
        assert(index.pages_of(v) =~= Seq::<usize>::empty());
    }
}

/// The message of a refused duplicate index names the table and the
/// column.
pub proof fn law_duplicate_index_message_names_both(table: Seq<char>, column: Seq<char>)
    ensures
        ({
            let m = already_indexed_message(table, column);
            &&& m.subrange(1, 1 + table.len() as int) == table
            &&& m.subrange(2 + table.len() as int, 2 + table.len() + column.len() as int) == column
        }),
{
    reveal_strlit("'");
    reveal_strlit("(");
    reveal_strlit(")' is already indexed.");
    let m = already_indexed_message(table, column);
    assert(m.subrange(1, 1 + table.len() as int) =~= table);
    assert(m.subrange(2 + table.len() as int, 2 + table.len() + column.len() as int) =~= column);
}

/// A query on a missing table fails with another message than a query on
/// a missing column.
pub proof fn law_missing_table_and_column_messages_differ()
    ensures
        NO_SUCH_TABLE@ != NO_SUCH_COLUMN@,
{
    reveal_strlit("This table does not exist.");
    reveal_strlit("Please choose only columns that exist on this table.");
    assert(NO_SUCH_TABLE@.len() != NO_SUCH_COLUMN@.len());
}

/// When every page's encoding has reached `PAGE_SIZE`, the next record
/// goes to a new page after the last.
pub proof fn law_full_pages_open_a_new_page(pages: Seq<Seq<DynamicRecord>>)
    requires
        forall|i: int| 0 <= i < pages.len() ==> page_size(#[trigger] pages[i]) >= PAGE_SIZE,
    ensures
        target_page(pages) == pages.len(),
{
    lemma_open_page_past_full(pages, 0);
}

proof fn lemma_open_page_past_full(pages: Seq<Seq<DynamicRecord>>, i: int)
    requires
        0 <= i <= pages.len(),
        forall|k: int| 0 <= k < pages.len() ==> page_size(#[trigger] pages[k]) >= PAGE_SIZE,
    ensures
        open_page_from(pages, i) == pages.len(),
    decreases pages.len() - i,
{
    if i < pages.len() {
        assert(page_size(pages[i]) >= PAGE_SIZE);
        lemma_open_page_past_full(pages, i + 1);
    }
}

/// Every record of the pages, page after page, as its fields.
pub open spec fn all_rows(pages: Seq<Seq<DynamicRecord>>) -> Seq<Seq<Field>>
    decreases pages.len(),
{
    if pages.len() == 0 {
        Seq::empty()
    } else {
        all_rows(pages.drop_last()) + pages.last().map_values(|r: DynamicRecord| r.fields@)
    }
}

/// A query without clauses that selects every column returns every record
/// of every page, in page order.
pub proof fn law_unfiltered_query_reads_every_page(
    pages: Seq<Seq<DynamicRecord>>,
    sel: Seq<Seq<char>>,
)
    requires
        selects_all(sel),
        pages.len() < usize::MAX,
    ensures
        rows_of_pages(pages, all_page_numbers(pages.len()), sel, Seq::empty()) == all_rows(pages),
{
    lemma_unfiltered_prefix(pages, sel, pages.len() as int);
    assert(pages.take(pages.len() as int) =~= pages);
}

proof fn lemma_page_rows_all(page: Seq<DynamicRecord>, sel: Seq<Seq<char>>)
    requires
        selects_all(sel),
    ensures
        page_rows(page, sel, Seq::empty()) == page.map_values(|r: DynamicRecord| r.fields@),
    decreases page.len(),
{
    let keep = |r: DynamicRecord| r.satisfies(Seq::empty());
    let narrow = |r: DynamicRecord| projected(r.fields@, sel);
    if page.len() == 0 {
        reveal(Seq::filter);
        assert(page.filter(keep) =~= page);
    } else {
        let init = page.drop_last();
        lemma_page_rows_all(init, sel);
        assert(page =~= init.push(page.last()));
        init.lemma_filter_push(page.last(), keep);
        assert(keep(page.last()));
        assert(page.filter(keep) == init.filter(keep).push(page.last()));
        assert(init.filter(keep).push(page.last()).map_values(narrow) =~= init.filter(keep).map_values(
            narrow,
        ).push(narrow(page.last())));
        assert(page.map_values(|r: DynamicRecord| r.fields@) =~= init.map_values(
            |r: DynamicRecord| r.fields@,
        ).push(page.last().fields@));
    }
}

proof fn lemma_unfiltered_prefix(pages: Seq<Seq<DynamicRecord>>, sel: Seq<Seq<char>>, k: int)
    requires
        selects_all(sel),
        0 <= k <= pages.len(),
        pages.len() < usize::MAX,
    ensures
        rows_of_pages(pages, all_page_numbers(k as nat), sel, Seq::empty()) == all_rows(pages.take(k)),
    decreases k,
{
    if k == 0 {
        assert(all_page_numbers(0) =~= Seq::<usize>::empty());
    } else {
        lemma_unfiltered_prefix(pages, sel, k - 1);
        assert(all_page_numbers(k as nat).drop_last() =~= all_page_numbers((k - 1) as nat));
        assert(all_page_numbers(k as nat).last() == k as usize);
        assert(1 <= (k as usize) <= pages.len());
        assert(pages[(k as usize) - 1] == pages[k - 1]);
        assert(pages.take(k).drop_last() =~= pages.take(k - 1));
        assert(pages.take(k).last() == pages[k - 1]);
        lemma_page_rows_all(pages[k - 1], sel);
    }
}

} // verus!
