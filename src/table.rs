//! Table metadata: schema, primary key, key counter and indices.
use vstd::prelude::*;

use crate::data::ALL_COLUMNS;
use crate::metadata::{sql_type_of, Column, Index, SqlType};
use crate::record::{clauses_view, Clause};
use crate::text::{contains_text, join2, owned, same_text, texts, to_upper, upper_of};

verus! {

/// The marker that flags a column as the primary key.
pub const PRIMARY_KEY: &'static str = "PRIMARY KEY";

/// Name of the primary key column when none is flagged.
pub const DEFAULT_PRIMARY_KEY: &'static str = "id";

/// Suffix of the name of the index created over the primary key.
pub const INDEX_SUFFIX: &'static str = "_index";

/// Whether an upper-case word is the primary key marker.
pub fn is_primary_key_marker(upper: &str) -> (r: bool)
    ensures
        r == (upper@ == PRIMARY_KEY@),
{
    same_text(upper, PRIMARY_KEY)
}

/// A column description `[name, type]` flagged `[name, PRIMARY KEY]`: the
/// primary key takes the name only.
pub open spec fn names_primary_key(v: Seq<Seq<char>>) -> bool {
    upper_of(v[1]) == PRIMARY_KEY@
}

/// A column description `[name, type, PRIMARY KEY]`: the primary key takes
/// the name and the type.
pub open spec fn types_primary_key(v: Seq<Seq<char>>) -> bool {
    !names_primary_key(v) && v.len() > 2 && upper_of(v[2]) == PRIMARY_KEY@
}

/// Whether a column description flags the primary key.
pub open spec fn flags_primary_key(v: Seq<Seq<char>>) -> bool {
    names_primary_key(v) || types_primary_key(v)
}

/// The column descriptions as sequences of character sequences.
pub open spec fn descriptions(c: Seq<Vec<String>>) -> Seq<Seq<Seq<char>>> {
    c.map_values(|v: Vec<String>| texts(v@))
}

/// Column descriptions that `Table::new` accepts: a name and a type each,
/// the type a known one unless the entry only names the primary key.
pub open spec fn valid_descriptions(vs: Seq<Seq<Seq<char>>>) -> bool {
    forall|i: int|
        0 <= i < vs.len() ==> #[trigger] vs[i].len() >= 2 && (!names_primary_key(vs[i])
            ==> sql_type_of(vs[i][1]) is Some)
}

/// Name and type of the primary key after reading the descriptions in
/// order: `id INTEGER` unless a description flags another column; a later
/// flag overrides an earlier one.
pub open spec fn primary_key_of(vs: Seq<Seq<Seq<char>>>) -> (Seq<char>, SqlType)
    decreases vs.len(),
{
    if vs.len() == 0 {
        (DEFAULT_PRIMARY_KEY@, SqlType::Integer)
    } else {
        let prev = primary_key_of(vs.drop_last());
        let v = vs.last();
        if names_primary_key(v) {
            (v[0], prev.1)
        } else if types_primary_key(v) {
            (v[0], sql_type_of(v[1])->0)
        } else {
            prev
        }
    }
}

/// The regular columns of the descriptions: those that flag no primary
/// key, in order, as name and type.
pub open spec fn columns_of(vs: Seq<Seq<Seq<char>>>) -> Seq<(Seq<char>, SqlType)> {
    vs.filter(|v: Seq<Seq<char>>| !flags_primary_key(v)).map_values(
        |v: Seq<Seq<char>>| (v[0], sql_type_of(v[1])->0),
    )
}

/// The columns of a table as name and type.
pub open spec fn columns_view(c: Seq<Column>) -> Seq<(Seq<char>, SqlType)> {
    c.map_values(|c: Column| (c.name@, c.data_type))
}

/// Table metadata.
#[derive(Debug)]
pub struct Table {
    pub name: String,
    pub primary_key: Column,
    pub latest_primary_key: usize,
    pub columns: Vec<Column>,
    pub indices: Vec<Index>,
}

/// What a table's metadata holds, as plain values: name, primary key,
/// key counter, columns, and each index's name, column and map.
pub type TableView = (
    Seq<char>,
    (Seq<char>, SqlType, bool),
    usize,
    Seq<(Seq<char>, SqlType, bool)>,
    Seq<(Seq<char>, Seq<char>, Map<Seq<char>, Seq<usize>>)>,
);

impl Table {
    /// The metadata as plain values.
    pub open spec fn view(&self) -> TableView {
        (
            self.name@,
            (self.primary_key.name@, self.primary_key.data_type, self.primary_key.nullable),
            self.latest_primary_key,
            self.columns@.map_values(|c: Column| (c.name@, c.data_type, c.nullable)),
            self.indices@.map_values(|i: Index| (i.name@, i.column_name@, i.view_map())),
        )
    }

    /// A copy of the metadata.
    pub fn clone_table(&self) -> (r: Table)
        requires
            self.wf(),
        ensures
            r.wf(),
            r.view() == self.view(),
            r.name == self.name,
            r.primary_key == self.primary_key,
            r.latest_primary_key == self.latest_primary_key,
    {
        let mut columns: Vec<Column> = Vec::new();
        let mut i: usize = 0;
        while i < self.columns.len()
            invariant
                i <= self.columns@.len(),
                columns@ == self.columns@.take(i as int),
            decreases self.columns.len() - i,
        {
            columns.push(self.columns[i].clone_column());
            assert(self.columns@.take(i as int + 1) =~= self.columns@.take(i as int).push(self.columns@[i as int]));
            i = i + 1;
        }
        assert(self.columns@.take(self.columns@.len() as int) =~= self.columns@);
        let mut indices: Vec<Index> = Vec::new();
        let mut j: usize = 0;
        while j < self.indices.len()
            invariant
                j <= self.indices@.len(),
                self.wf(),
                indices@.len() == j,
                forall|k: int| 0 <= k < j ==> (#[trigger] indices@[k]).wf() && indices@[k].name
                    == self.indices@[k].name && indices@[k].column_name == self.indices@[k].column_name
                    && indices@[k].view_map() == self.indices@[k].view_map(),
            decreases self.indices.len() - j,
        {
            indices.push(self.indices[j].clone_index());
            j = j + 1;
        }
        let r = Table {
            name: self.name.clone(),
            primary_key: self.primary_key.clone_column(),
            latest_primary_key: self.latest_primary_key,
            columns,
            indices,
        };
        assert(r.index_columns() =~= self.index_columns());
        assert(r.view().4 =~= self.view().4);
        assert(r.view().3 =~= self.view().3);
        r
    }

    /// The column names of the indices, in order.
    pub open spec fn index_columns(&self) -> Seq<Seq<char>> {
        self.indices@.map_values(|i: Index| i.column_name@)
    }

    /// Whether some index is over the column `c`.
    pub open spec fn is_indexed(&self, c: Seq<char>) -> bool {
        self.index_columns().contains(c)
    }

    /// The index over the column `c` (meaningful when `is_indexed(c)`).
    pub open spec fn index_over(&self, c: Seq<char>) -> Index {
        self.indices@[self.index_columns().index_of(c)]
    }

    /// The names of the regular columns.
    pub open spec fn column_names(&self) -> Seq<Seq<char>> {
        self.columns@.map_values(|c: Column| c.name@)
    }

    /// Whether `c` names a column of the schema: a regular column or the
    /// primary key.
    pub open spec fn has_column(&self, c: Seq<char>) -> bool {
        self.column_names().contains(c) || c == self.primary_key.name@
    }

    /// Well-formed metadata: each index is well formed, no two indices are
    /// over the same column, and the primary key is indexed.
    pub open spec fn wf(&self) -> bool {
        &&& forall|i: int| 0 <= i < self.indices@.len() ==> (#[trigger] self.indices@[i]).wf()
        &&& self.index_columns().no_duplicates()
        &&& self.is_indexed(self.primary_key.name@)
    }

    /// Builds the metadata of a new table from column descriptions
    /// `[name, type]`, `[name, PRIMARY KEY]` or `[name, type, PRIMARY KEY]`.
    pub fn new(table_name: String, columns_vectors: Vec<Vec<String>>) -> (r: Self)
        requires
            valid_descriptions(descriptions(columns_vectors@)),
        ensures
            r.wf(),
            r.name == table_name,
            r.primary_key.name@ == primary_key_of(descriptions(columns_vectors@)).0,
            r.primary_key.data_type == primary_key_of(descriptions(columns_vectors@)).1,
            !r.primary_key.nullable,
            columns_view(r.columns@) == columns_of(descriptions(columns_vectors@)),
            forall|i: int| 0 <= i < r.columns@.len() ==> !(#[trigger] r.columns@[i]).nullable,
            r.latest_primary_key == 0,
            r.indices@.len() == 1,
            r.indices@[0].column_name@ == r.primary_key.name@,
            r.indices@[0].name@ == r.primary_key.name@ + INDEX_SUFFIX@,
            r.indices@[0].view_map() == Map::<Seq<char>, Seq<usize>>::empty(),
    {
        let ghost vs = descriptions(columns_vectors@);
        let ghost keep = |v: Seq<Seq<char>>| !flags_primary_key(v);
        let ghost as_column = |v: Seq<Seq<char>>| (v[0], sql_type_of(v[1])->0);
        let mut columns: Vec<Column> = Vec::new();
        let mut pk_name = owned(DEFAULT_PRIMARY_KEY);
        let mut pk_type = SqlType::Integer;
        let mut i: usize = 0;
        proof {
            reveal_strlit("id");
            assert(vs.take(0) =~= Seq::<Seq<Seq<char>>>::empty());
        }
        while i < columns_vectors.len()
            invariant
                i <= columns_vectors@.len(),
                vs == descriptions(columns_vectors@),
                valid_descriptions(vs),
                keep == (|v: Seq<Seq<char>>| !flags_primary_key(v)),
                as_column == (|v: Seq<Seq<char>>| (v[0], sql_type_of(v[1])->0)),
                (pk_name@, pk_type) == primary_key_of(vs.take(i as int)),
                columns_view(columns@) == vs.take(i as int).filter(keep).map_values(as_column),
                forall|j: int| 0 <= j < columns@.len() ==> !(#[trigger] columns@[j]).nullable,
            decreases columns_vectors.len() - i,
        {
            let v = &columns_vectors[i];
            let ghost d = vs[i as int];
            assert(d == texts(v@));
            assert(d.len() >= 2);
            assert(vs.take(i as int + 1) =~= vs.take(i as int).push(d));
            assert(vs.take(i as int + 1).drop_last() =~= vs.take(i as int));
            proof {
                vs.take(i as int).lemma_filter_push(d, keep);
                reveal_strlit("PRIMARY KEY");
            }
            let second = to_upper(v[1].as_str());
            if is_primary_key_marker(second.as_str()) {
                pk_name = v[0].clone();
                assert(names_primary_key(d));
            } else if v.len() > 2 && is_primary_key_marker(to_upper(v[2].as_str()).as_str()) {
                assert(types_primary_key(d));
                pk_name = v[0].clone();
                pk_type = match SqlType::parse(v[1].as_str()) {
                    Some(t) => t,
                    None => { assert(false); SqlType::Integer },
                };
            } else {
                assert(!flags_primary_key(d));
                let t = match SqlType::parse(v[1].as_str()) {
                    Some(t) => t,
                    None => { assert(false); SqlType::Integer },
                };
                let ghost before = columns@;
                columns.push(Column { name: v[0].clone(), data_type: t, nullable: false });
                assert(columns_view(columns@) =~= columns_view(before).push(as_column(d)));
                assert(vs.take(i as int + 1).filter(keep) =~= vs.take(i as int).filter(keep).push(d));
            }
            i = i + 1;
        }
        proof {
            assert(vs.take(vs.len() as int) =~= vs);
        }
        let index_name = join2(pk_name.as_str(), INDEX_SUFFIX);
        let index = Index::new(index_name, pk_name.as_str());
        let mut indices: Vec<Index> = Vec::new();
        indices.push(index);
        let r = Table {
            name: table_name,
            columns,
            indices,
            primary_key: Column { name: pk_name, data_type: pk_type, nullable: false },
            latest_primary_key: 0,
        };
        proof {
            assert(r.index_columns() =~= seq![r.primary_key.name@]);
            assert(r.index_columns()[0] == r.primary_key.name@);
        }
        r
    }

    /// Whether the metadata is well formed (see `wf`).
    pub fn check_wf(&self) -> (r: bool)
        ensures
            r == self.wf(),
    {
        let mut i: usize = 0;
        while i < self.indices.len()
            invariant
                i <= self.indices@.len(),
                forall|k: int| 0 <= k < i ==> (#[trigger] self.indices@[k]).wf(),
            decreases self.indices.len() - i,
        {
            if !self.indices[i].check_wf() {
                return false;
            }
            i = i + 1;
        }
        let mut a: usize = 0;
        while a < self.indices.len()
            invariant
                a <= self.indices@.len(),
                forall|k: int| 0 <= k < self.indices@.len() ==> (#[trigger] self.indices@[k]).wf(),
                forall|x: int, y: int| 0 <= x < y < self.indices@.len() && x < a ==> self.index_columns()[x] != self.index_columns()[y],
            decreases self.indices.len() - a,
        {
            let mut b: usize = a + 1;
            while b < self.indices.len()
                invariant
                    a < b <= self.indices@.len(),
                    forall|k: int| 0 <= k < self.indices@.len() ==> (#[trigger] self.indices@[k]).wf(),
                    forall|x: int, y: int| 0 <= x < y < self.indices@.len() && x < a ==> self.index_columns()[x] != self.index_columns()[y],
                    forall|y: int| a < y < b ==> self.index_columns()[a as int] != self.index_columns()[y],
                decreases self.indices.len() - b,
            {
                if same_text(self.indices[a].column_name.as_str(), self.indices[b].column_name.as_str()) {
                    assert(self.index_columns()[a as int] == self.index_columns()[b as int]);
                    return false;
                }
                b = b + 1;
            }
            a = a + 1;
        }
        assert(self.index_columns().no_duplicates());
        let mut k: usize = 0;
        while k < self.indices.len()
            invariant
                k <= self.indices@.len(),
                forall|i: int| 0 <= i < self.indices@.len() ==> (#[trigger] self.indices@[i]).wf(),
                self.index_columns().no_duplicates(),
                forall|x: int| 0 <= x < k ==> self.index_columns()[x] != self.primary_key.name@,
            decreases self.indices.len() - k,
        {
            if same_text(self.indices[k].column_name.as_str(), self.primary_key.name.as_str()) {
                assert(self.index_columns()[k as int] == self.primary_key.name@);
                return true;
            }
            k = k + 1;
        }
        false
    }

    /// Advances the primary key counter and returns the new key.
    pub fn new_primary_key(&mut self) -> (r: usize)
        requires
            old(self).latest_primary_key < usize::MAX,
        ensures
            r == old(self).latest_primary_key + 1,
            final(self).latest_primary_key == r,
            final(self).name == old(self).name,
            final(self).primary_key == old(self).primary_key,
            final(self).columns == old(self).columns,
            final(self).indices == old(self).indices,
    {
        let new_key = self.latest_primary_key + 1;
        self.latest_primary_key = new_key;
        new_key
    }

    /// Position of the index over `column_name`, if any.
    pub fn index_position(&self, column_name: &str) -> (r: Option<usize>)
        requires
            self.wf(),
        ensures
            r is None <==> !self.is_indexed(column_name@),
            r matches Some(i) ==> i < self.indices@.len() && self.index_columns().index_of(
                column_name@,
            ) == i && self.indices@[i as int].column_name@ == column_name@,
    {
        let mut i: usize = 0;
        while i < self.indices.len()
            invariant
                i <= self.indices@.len(),
                self.wf(),
                forall|j: int| 0 <= j < i ==> self.indices@[j].column_name@ != column_name@,
            decreases self.indices.len() - i,
        {
            if same_text(self.indices[i].column_name.as_str(), column_name) {
                proof {
                    assert(self.index_columns()[i as int] == column_name@);
                    assert(self.index_columns().contains(column_name@));
                    let k = self.index_columns().index_of(column_name@);
                    assert(0 <= k < self.index_columns().len() && self.index_columns()[k]
                        == column_name@);
                }
                return Some(i);
            }
            i = i + 1;
        }
        proof {
            if self.is_indexed(column_name@) {
                let j = choose|j: int|
                    0 <= j < self.index_columns().len() && self.index_columns()[j]
                        == column_name@;
                assert(self.indices@[j].column_name@ == column_name@);
            }
        }
        None
    }

    /// A copy of the index over `column_name`, if there is one.
    pub fn index(&self, column_name: &str) -> (r: Option<Index>)
        requires
            self.wf(),
        ensures
            r is None <==> !self.is_indexed(column_name@),
            r matches Some(x) ==> x.wf() && x.column_name@ == column_name@ && x.view_map()
                == self.index_over(column_name@).view_map() && x.name == self.index_over(
                column_name@,
            ).name,
    {
        match self.index_position(column_name) {
            Some(i) => Some(self.indices[i].clone_index()),
            None => None,
        }
    }

    /// The names of the indexed columns, in index order.
    pub fn indexed_columns_names(&self) -> (r: Vec<String>)
        ensures
            texts(r@) == self.index_columns(),
    {
        let mut r: Vec<String> = Vec::new();
        let mut i: usize = 0;
        while i < self.indices.len()
            invariant
                i <= self.indices@.len(),
                r@.len() == i,
                texts(r@) == self.index_columns().take(i as int),
            decreases self.indices.len() - i,
        {
            let ghost before = r@;
            r.push(self.indices[i].column_name.clone());
            assert(r@ == before.push(r@[i as int]));
            assert(texts(r@)[i as int] == self.index_columns()[i as int]);
            assert(texts(r@) =~= self.index_columns().take(i as int + 1)) by {
                assert(forall|j: int| 0 <= j < i ==> texts(r@)[j] == texts(before)[j]);
            }
            i = i + 1;
        }
        assert(self.index_columns().take(self.indices@.len() as int) =~= self.index_columns());
        r
    }

    /// The first clause, in order, whose column is indexed.
    pub open spec fn pruning_clause(&self, cv: Seq<(Seq<char>, Seq<char>)>) -> Option<int> {
        if exists|i: int| 0 <= i < cv.len() && self.is_indexed(#[trigger] cv[i].0) {
            Some(
                choose|i: int|
                    0 <= i < cv.len() && self.is_indexed(#[trigger] cv[i].0) && forall|j: int|
                        0 <= j < i ==> !self.is_indexed(#[trigger] cv[j].0),
            )
        } else {
            None
        }
    }

    /// The pages a query with these clauses has to read: `None` (all pages)
    /// when no clause is over an indexed column, else the pages that the
    /// index of the first such clause records for its value.
    pub open spec fn candidate_pages(&self, cv: Seq<(Seq<char>, Seq<char>)>) -> Option<
        Seq<usize>,
    > {
        match self.pruning_clause(cv) {
            None => None,
            Some(i) => Some(self.index_over(cv[i].0).pages_of(cv[i].1)),
        }
    }

    /// The data pages to read for a query with `where_clauses`: the index
    /// of the first clause over an indexed column gives them; `None` means
    /// every page.
    pub fn data_page_indices(&self, where_clauses: &Vec<Clause>) -> (r: Option<Vec<usize>>)
        requires
            self.wf(),
        ensures
            r is None <==> self.candidate_pages(clauses_view(where_clauses@)) is None,
            r matches Some(v) ==> Some(v@) == self.candidate_pages(clauses_view(where_clauses@)),
    {
        let ghost cv = clauses_view(where_clauses@);
        let mut i: usize = 0;
        while i < where_clauses.len()
            invariant
                i <= where_clauses@.len(),
                self.wf(),
                cv == clauses_view(where_clauses@),
                forall|j: int| 0 <= j < i ==> !self.is_indexed(#[trigger] cv[j].0),
            decreases where_clauses.len() - i,
        {
            let clause = &where_clauses[i];
            assert(cv[i as int] == (clause.0@, clause.1@));
            match self.index_position(clause.0.as_str()) {
                Some(p) => {
                    let ghost w = i as int;
                    proof {
                        assert(self.is_indexed(cv[w].0));
                        let c = self.pruning_clause(cv)->0;
                        assert(0 <= c < cv.len() && self.is_indexed(cv[c].0));
                        if c < w {
                        } else if c > w {
                        }
                        assert(c == w);
                    }
                    return match self.indices[p].data_page_indices(clause.1.as_str()) {
                        Ok(pages) => Some(pages),
                        Err(_) => Some(Vec::new()),
                    };
                },
                None => {},
            }
            i = i + 1;
        }
        None
    }

    /// Whether every selected name is `*` or a column of the schema.
    pub open spec fn selects_existing(&self, sel: Seq<Seq<char>>) -> bool {
        forall|i: int| 0 <= i < sel.len() ==> #[trigger] sel[i] == ALL_COLUMNS@ || self.has_column(sel[i])
    }

    /// Whether every name in `column_names` is a column of the schema (a
    /// regular column or the primary key); `*` stands for all columns.
    pub fn all_columns_exist(&self, column_names: &Vec<String>) -> (r: bool)
        ensures
            r == self.selects_existing(texts(column_names@)),
    {
        let names = self.regular_column_names();
        let mut i: usize = 0;
        proof {
            reveal_strlit("*");
        }
        while i < column_names.len()
            invariant
                i <= column_names@.len(),
                texts(names@) == self.column_names(),
                forall|j: int|
                    0 <= j < i ==> #[trigger] column_names@[j]@ == ALL_COLUMNS@ || self.has_column(
                        column_names@[j]@,
                    ),
            decreases column_names.len() - i,
        {
            let c = column_names[i].as_str();
            if !same_text(c, ALL_COLUMNS) && !contains_text(&names, c) && !same_text(
                c,
                self.primary_key.name.as_str(),
            ) {
                assert(texts(column_names@)[i as int] == column_names@[i as int]@);
                return false;
            }
            i = i + 1;
        }
        assert forall|j: int| 0 <= j < texts(column_names@).len() implies #[trigger] texts(column_names@)[j] == ALL_COLUMNS@ || self.has_column(texts(column_names@)[j]) by {
            assert(texts(column_names@)[j] == column_names@[j]@);
        }
        true
    }

    /// Whether the table has a regular column named `name`.
    pub fn has_regular_column(&self, name: &str) -> (r: bool)
        ensures
            r == self.column_names().contains(name@),
    {
        let names = self.regular_column_names();
        contains_text(&names, name)
    }

    /// The names of the regular columns.
    fn regular_column_names(&self) -> (r: Vec<String>)
        ensures
            texts(r@) == self.column_names(),
    {
        let mut r: Vec<String> = Vec::new();
        let mut i: usize = 0;
        while i < self.columns.len()
            invariant
                i <= self.columns@.len(),
                r@.len() == i,
                texts(r@) == self.column_names().take(i as int),
            decreases self.columns.len() - i,
        {
            let ghost before = r@;
            r.push(self.columns[i].name.clone());
            assert(r@ == before.push(r@[i as int]));
            assert(texts(r@)[i as int] == self.column_names()[i as int]);
            assert(texts(r@) =~= self.column_names().take(i as int + 1)) by {
                assert(forall|j: int| 0 <= j < i ==> texts(r@)[j] == texts(before)[j]);
            }
            i = i + 1;
        }
        assert(self.column_names().take(self.columns@.len() as int) =~= self.column_names());
        r
    }
}

} // verus!
