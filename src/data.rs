//! Data pages of a table: size-bounded lists of records.
use vstd::prelude::*;

use crate::codec::{encode_page, page_size};
use crate::record::{clauses_view, named_in, Clause, DynamicRecord, Field};
use crate::text::{contains_text, texts};

verus! {

/// Encoded size, in bytes, from which a page takes no more records.
pub const PAGE_SIZE: usize = 16000;

/// The selection that stands for every column.
pub const ALL_COLUMNS: &'static str = "*";

/// The pages of a table as sequences of records.
pub open spec fn pages_view(p: Seq<Vec<DynamicRecord>>) -> Seq<Seq<DynamicRecord>> {
    p.map_values(|v: Vec<DynamicRecord>| v@)
}

/// Every record of every page has unique field names.
pub open spec fn pages_wf(p: Seq<Seq<DynamicRecord>>) -> bool {
    forall|i: int, j: int| 0 <= i < p.len() && 0 <= j < p[i].len() ==> (#[trigger] p[i][j]).wf()
}

/// The first page, from `i` on, whose encoding is under `PAGE_SIZE`; the
/// number of pages when there is none.
pub open spec fn open_page_from(pages: Seq<Seq<DynamicRecord>>, i: int) -> int
    decreases pages.len() - i,
{
    if i >= pages.len() {
        pages.len() as int
    } else if page_size(pages[i]) < PAGE_SIZE {
        i
    } else {
        open_page_from(pages, i + 1)
    }
}

/// The page (0-based) a new record goes to.
pub open spec fn target_page(pages: Seq<Seq<DynamicRecord>>) -> int {
    open_page_from(pages, 0)
}

/// The pages after `record` is stored in page `t`: appended to it, or, when
/// `t` is past the last page, as the only record of a new page.
pub open spec fn with_record(pages: Seq<Seq<DynamicRecord>>, t: int, record: DynamicRecord) -> Seq<
    Seq<DynamicRecord>,
> {
    if t < pages.len() {
        pages.update(t, pages[t].push(record))
    } else {
        pages.push(seq![record])
    }
}

/// Whether a selection asks for every column: it is empty or holds `*`.
pub open spec fn selects_all(sel: Seq<Seq<char>>) -> bool {
    sel.len() == 0 || sel.contains(ALL_COLUMNS@)
}

/// The fields of a record that a selection keeps.
pub open spec fn projected(fs: Seq<Field>, sel: Seq<Seq<char>>) -> Seq<Field> {
    if selects_all(sel) {
        fs
    } else {
        fs.filter(named_in(sel))
    }
}

/// The rows a page contributes to a query: its records that meet the
/// clauses, in order, each narrowed to the selection.
pub open spec fn page_rows(
    page: Seq<DynamicRecord>,
    sel: Seq<Seq<char>>,
    cv: Seq<(Seq<char>, Seq<char>)>,
) -> Seq<Seq<Field>> {
    page.filter(|r: DynamicRecord| r.satisfies(cv)).map_values(
        |r: DynamicRecord| projected(r.fields@, sel),
    )
}

/// The rows of the pages numbered (from 1) in `numbers`, in that order;
/// numbers that name no page contribute nothing.
pub open spec fn rows_of_pages(
    pages: Seq<Seq<DynamicRecord>>,
    numbers: Seq<usize>,
    sel: Seq<Seq<char>>,
    cv: Seq<(Seq<char>, Seq<char>)>,
) -> Seq<Seq<Field>>
    decreases numbers.len(),
{
    if numbers.len() == 0 {
        Seq::empty()
    } else {
        let prev = rows_of_pages(pages, numbers.drop_last(), sel, cv);
        let n = numbers.last();
        if 1 <= n <= pages.len() {
            prev + page_rows(pages[n - 1], sel, cv)
        } else {
            prev
        }
    }
}

/// The numbers of all `len` pages: `1..=len`.
pub open spec fn all_page_numbers(len: nat) -> Seq<usize> {
    Seq::new(len, |i: int| (i + 1) as usize)
}

/// The fields of each record.
pub open spec fn rows(r: Seq<DynamicRecord>) -> Seq<Seq<Field>> {
    r.map_values(|x: DynamicRecord| x.fields@)
}

/// Reads and writes the data pages of tables.
pub struct DataManager {}

impl DataManager {
    /// A data manager.
    pub fn new() -> (r: Self) {
        DataManager {  }
    }

    /// Stores `record` in the first page whose encoding is under
    /// `PAGE_SIZE`, or in a new page after the last; returns the number
    /// (from 1) of the page written.
    pub fn save_record(&self, record: DynamicRecord, pages: &mut Vec<Vec<DynamicRecord>>) -> (r:
        usize)
        requires
            old(pages)@.len() < usize::MAX,
        ensures
            1 <= r <= old(pages)@.len() + 1,
            r == target_page(pages_view(old(pages)@)) + 1,
            pages_view(final(pages)@) == with_record(pages_view(old(pages)@), r - 1, record),
    {
        let ghost pv = pages_view(pages@);
        let mut i: usize = 0;
        while i < pages.len()
            invariant
                i <= pages@.len(),
                pv == pages_view(pages@),
                pages@ == old(pages)@,
                open_page_from(pv, 0) == open_page_from(pv, i as int),
            decreases pages.len() - i,
        {
            let b = encode_page(&pages[i]);
            assert(pv[i as int] == pages@[i as int]@);
            if b.len() < PAGE_SIZE {
                assert(open_page_from(pv, i as int) == i);
                pages[i].push(record);
                assert(pages_view(pages@) =~= with_record(pv, i as int, record));
                return i + 1;
            }
            i = i + 1;
        }
        let mut page: Vec<DynamicRecord> = Vec::new();
        page.push(record);
        pages.push(page);
        assert(pages_view(pages@) =~= with_record(pv, i as int, record));
        i + 1
    }

    /// Whether `selected_columns` asks for every column.
    pub fn selected_all_columns(selected_columns: &Vec<String>) -> (r: bool)
        ensures
            r == selects_all(texts(selected_columns@)),
    {
        selected_columns.len() == 0 || contains_text(selected_columns, ALL_COLUMNS)
    }

    /// The records of one page that meet the clauses, narrowed to the
    /// selected columns.
    fn load_records(
        &self,
        page: &Vec<DynamicRecord>,
        selected_columns: &Vec<String>,
        where_clauses: &Vec<Clause>,
    ) -> (r: Vec<DynamicRecord>)
        requires
            forall|j: int| 0 <= j < page@.len() ==> (#[trigger] page@[j]).wf(),
        ensures
            rows(r@) == page_rows(page@, texts(selected_columns@), clauses_view(where_clauses@)),
    {
        let ghost sel = texts(selected_columns@);
        let ghost cv = clauses_view(where_clauses@);
        let ghost keep = |r: DynamicRecord| r.satisfies(cv);
        let ghost narrow = |r: DynamicRecord| projected(r.fields@, sel);
        let all = Self::selected_all_columns(selected_columns);
        let mut out: Vec<DynamicRecord> = Vec::new();
        let mut i: usize = 0;
        while i < page.len()
            invariant
                i <= page@.len(),
                forall|j: int| 0 <= j < page@.len() ==> (#[trigger] page@[j]).wf(),
                sel == texts(selected_columns@),
                cv == clauses_view(where_clauses@),
                all == selects_all(sel),
                keep == (|r: DynamicRecord| r.satisfies(cv)),
                narrow == (|r: DynamicRecord| projected(r.fields@, sel)),
                rows(out@) == page@.take(i as int).filter(keep).map_values(narrow),
            decreases page.len() - i,
        {
            let rec = &page[i];
            proof {
                assert(page@.take(i as int + 1) =~= page@.take(i as int).push(page@[i as int]));
                page@.take(i as int).lemma_filter_push(page@[i as int], keep);
            }
            if rec.entry_should_be_included(where_clauses) {
                let mut copy = rec.clone_record();
                if !all {
                    copy.filter_columns(selected_columns);
                }
                let ghost before = out@;
                out.push(copy);
                proof {
                    let f = page@.take(i as int).filter(keep);
                    assert(page@.take(i as int + 1).filter(keep) == f.push(page@[i as int]));
                    assert(rows(out@) =~= rows(before).push(copy.fields@));
                    assert(f.push(page@[i as int]).map_values(narrow) =~= f.map_values(narrow).push(
                        narrow(page@[i as int]),
                    ));
                }
            }
            i = i + 1;
        }
        assert(page@.take(page@.len() as int) =~= page@);
        out
    }

    /// The records of a table that meet `where_clauses`, narrowed to
    /// `column_names`: from the pages numbered in `data_page_indices`, in
    /// that order, or from every page when it is `None`.
    pub fn load_table_contents(
        &self,
        pages: &Vec<Vec<DynamicRecord>>,
        column_names: &Vec<String>,
        where_clauses: &Vec<Clause>,
        data_page_indices: Option<Vec<usize>>,
    ) -> (r: Vec<DynamicRecord>)
        requires
            pages_wf(pages_view(pages@)),
            pages@.len() < usize::MAX,
        ensures
            rows(r@) == rows_of_pages(
                pages_view(pages@),
                match data_page_indices {
                    Some(v) => v@,
                    None => all_page_numbers(pages@.len()),
                },
                texts(column_names@),
                clauses_view(where_clauses@),
            ),
    {
        let ghost pv = pages_view(pages@);
        let ghost sel = texts(column_names@);
        let ghost cv = clauses_view(where_clauses@);
        let numbers: Vec<usize> = match data_page_indices {
            Some(v) => v,
            None => {
                let mut all: Vec<usize> = Vec::new();
                let mut n: usize = 0;
                while n < pages.len()
                    invariant
                        n <= pages@.len(),
                        pages@.len() < usize::MAX,
                        all@ =~= all_page_numbers(n as nat),
                    decreases pages.len() - n,
                {
                    all.push(n + 1);
                    n = n + 1;
                }
                all
            },
        };
        let mut records: Vec<DynamicRecord> = Vec::new();
        let mut i: usize = 0;
        while i < numbers.len()
            invariant
                i <= numbers@.len(),
                pv == pages_view(pages@),
                pages_wf(pv),
                sel == texts(column_names@),
                cv == clauses_view(where_clauses@),
                rows(records@) == rows_of_pages(pv, numbers@.take(i as int), sel, cv),
            decreases numbers.len() - i,
        {
            let n = numbers[i];
            proof {
                assert(numbers@.take(i as int + 1).drop_last() =~= numbers@.take(i as int));
            }
            if 1 <= n && n <= pages.len() {
                let page = &pages[n - 1];
                proof {
                    assert(pv[n - 1] == page@);
                    assert forall|j: int| 0 <= j < page@.len() implies (#[trigger] page@[j]).wf() by {
                        assert(pv[n - 1][j] == page@[j]);
                    }
                }
                let found = self.load_records(page, column_names, where_clauses);
                let ghost before = records@;
                let mut k: usize = 0;
                while k < found.len()
                    invariant
                        k <= found@.len(),
                        rows(records@) == rows(before) + rows(found@.take(k as int)),
                    decreases found.len() - k,
                {
                    let ghost prev = records@;
                    records.push(found[k].clone_record());
                    assert(rows(records@) =~= rows(prev).push(found@[k as int].fields@));
                    assert(rows(found@.take(k as int + 1)) =~= rows(found@.take(k as int)).push(found@[k as int].fields@));
                    k = k + 1;
                }
                assert(found@.take(found@.len() as int) =~= found@);
            }
            i = i + 1;
        }
        assert(numbers@.take(numbers@.len() as int) =~= numbers@);
        records
    }
}

} // verus!
