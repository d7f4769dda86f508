//! Table schema: column types, columns and per-column page indices.
use vstd::prelude::*;

use crate::text::{is_numeric, numeric, owned, same_text, to_upper, upper_of};

verus! {

/// The type name of text columns.
pub const VARCHAR: &'static str = "VARCHAR";

/// The type name of integer columns.
pub const INTEGER: &'static str = "INTEGER";

/// The error of an index lookup of a key the index does not hold.
pub const KEY_MISSING: &'static str = "Key does not exist.";

/// The type of a column.
#[derive(Debug, Clone, Copy, PartialEq, Eq, Structural)]
pub enum SqlType {
    Varchar,
    Integer,
}

/// The type that an upper-case type name stands for, if any.
pub open spec fn sql_type_named(upper: Seq<char>) -> Option<SqlType> {
    if upper == VARCHAR@ {
        Some(SqlType::Varchar)
    } else if upper == INTEGER@ {
        Some(SqlType::Integer)
    } else {
        None
    }
}

/// The type that a type name stands for, compared without regard to case.
pub open spec fn sql_type_of(name: Seq<char>) -> Option<SqlType> {
    sql_type_named(upper_of(name))
}

impl SqlType {
    /// Reads a type name, without regard to case: `VARCHAR` or `INTEGER`.
    pub fn parse(value: &str) -> (r: Option<SqlType>)
        ensures
            r == sql_type_of(value@),
    {
        let upper = to_upper(value);
        SqlType::from_upper(upper.as_str())
    }

    /// The type that an upper-case type name names: `VARCHAR` or `INTEGER`.
    pub fn from_upper(upper: &str) -> (r: Option<SqlType>)
        ensures
            r == sql_type_named(upper@),
    {
        proof {
            reveal_strlit("VARCHAR");
            reveal_strlit("INTEGER");
        }
        if same_text(upper, VARCHAR) {
            Some(SqlType::Varchar)
        } else if same_text(upper, INTEGER) {
            Some(SqlType::Integer)
        } else {
            None
        }
    }

    /// Whether a value given as text may be stored in a column of this type.
    pub open spec fn accepts(&self, raw: Seq<char>) -> bool {
        match self {
            SqlType::Varchar => true,
            SqlType::Integer => is_numeric(raw),
        }
    }

    /// Whether `raw` may be stored in a column of this type: any text for
    /// `VARCHAR`, a decimal integer for `INTEGER`.
    pub fn allows_value(&self, raw: &str) -> (r: bool)
        ensures
            r == self.accepts(raw@),
    {
        match self {
            SqlType::Varchar => true,
            SqlType::Integer => numeric(raw),
        }
    }
}

/// A column of a table.
#[derive(Debug, Clone)]
pub struct Column {
    pub name: String,
    pub data_type: SqlType,
    pub nullable: bool,
}

impl Column {
    /// A copy of the column.
    pub fn clone_column(&self) -> (r: Column)
        ensures
            r == *self,
    {
        Column { name: self.name.clone(), data_type: self.data_type, nullable: self.nullable }
    }
}

/// A page list with `p` added at the end, unless it is already listed.
pub open spec fn with_page(pages: Seq<usize>, p: usize) -> Seq<usize> {
    if pages.contains(p) {
        pages
    } else {
        pages.push(p)
    }
}

/// An index map with `p` recorded under `key`.
pub open spec fn map_with_page(m: Map<Seq<char>, Seq<usize>>, key: Seq<char>, p: usize) -> Map<
    Seq<char>,
    Seq<usize>,
> {
    m.insert(key, with_page(if m.contains_key(key) { m[key] } else { Seq::empty() }, p))
}

/// Whether `v` lists `p`.
pub fn contains_page(v: &Vec<usize>, p: usize) -> (r: bool)
    ensures
        r == v@.contains(p),
{
    let mut i: usize = 0;
    while i < v.len()
        invariant
            i <= v@.len(),
            forall|j: int| 0 <= j < i ==> v@[j] != p,
        decreases v.len() - i,
    {
        if v[i] == p {
            return true;
        }
        i = i + 1;
    }
    false
}

/// Whether no page is listed twice.
pub fn pages_unique(v: &Vec<usize>) -> (r: bool)
    ensures
        r == v@.no_duplicates(),
{
    let mut a: usize = 0;
    while a < v.len()
        invariant
            a <= v@.len(),
            forall|x: int, y: int| 0 <= x < y < v@.len() && x < a ==> v@[x] != v@[y],
        decreases v.len() - a,
    {
        let mut b: usize = a + 1;
        while b < v.len()
            invariant
                a < b <= v@.len(),
                forall|x: int, y: int| 0 <= x < y < v@.len() && x < a ==> v@[x] != v@[y],
                forall|y: int| a < y < b ==> v@[a as int] != v@[y],
            decreases v.len() - b,
        {
            if v[a] == v[b] {
                return false;
            }
            b = b + 1;
        }
        a = a + 1;
    }
    true
}

/// One key of an index with the pages that hold it.
#[derive(Debug, Clone)]
pub struct IndexEntry {
    pub key: String,
    pub pages: Vec<usize>,
}

/// An index over one column: for each value of the column, written as
/// text, the data pages holding a record with that value.
#[derive(Debug, Clone)]
pub struct Index {
    pub name: String,
    pub column_name: String,
    pub tree: Vec<IndexEntry>,
}

impl Index {
    /// The keys of the index.
    pub open spec fn keys(&self) -> Seq<Seq<char>> {
        self.tree@.map_values(|e: IndexEntry| e.key@)
    }

    /// Keys are unique, and no key lists a page twice.
    pub open spec fn wf(&self) -> bool {
        &&& self.keys().no_duplicates()
        &&& forall|i: int| 0 <= i < self.tree@.len() ==> (#[trigger] self.tree@[i]).pages@.no_duplicates()
    }

    /// The index as a map from key to its page list.
    pub open spec fn view_map(&self) -> Map<Seq<char>, Seq<usize>> {
        Map::new(
            |k: Seq<char>| self.keys().contains(k),
            |k: Seq<char>| self.tree@[self.keys().index_of(k)].pages@,
        )
    }

    /// The page list of `key`: empty when the key is absent.
    pub open spec fn pages_of(&self, key: Seq<char>) -> Seq<usize> {
        if self.view_map().contains_key(key) {
            self.view_map()[key]
        } else {
            Seq::empty()
        }
    }

    /// An empty index named `index_name` over `column_name`.
    pub fn new(index_name: String, column_name: &str) -> (r: Self)
        ensures
            r.wf(),
            r.name == index_name,
            r.column_name@ == column_name@,
            r.view_map() == Map::<Seq<char>, Seq<usize>>::empty(),
    {
        let r = Index { name: index_name, column_name: owned(column_name), tree: Vec::new() };
        assert(r.view_map() =~= Map::<Seq<char>, Seq<usize>>::empty());
        r
    }

    /// A copy of the index.
    pub fn clone_index(&self) -> (r: Index)
        requires
            self.wf(),
        ensures
            r.wf(),
            r.name == self.name,
            r.column_name == self.column_name,
            r.view_map() == self.view_map(),
    {
        let mut tree: Vec<IndexEntry> = Vec::new();
        let mut i: usize = 0;
        while i < self.tree.len()
            invariant
                i <= self.tree@.len(),
                tree@.len() == i,
                forall|j: int| 0 <= j < i ==> (#[trigger] tree@[j]).key == self.tree@[j].key
                    && tree@[j].pages@ == self.tree@[j].pages@,
            decreases self.tree.len() - i,
        {
            let e = &self.tree[i];
            tree.push(IndexEntry { key: e.key.clone(), pages: e.pages.clone() });
            i = i + 1;
        }
        let r = Index { name: self.name.clone(), column_name: self.column_name.clone(), tree };
        assert(r.keys() =~= self.keys());
        assert(r.view_map() =~= self.view_map());
        r
    }

    /// Whether the keys are unique and no key lists a page twice.
    pub fn check_wf(&self) -> (r: bool)
        ensures
            r == self.wf(),
    {
        let mut e: usize = 0;
        while e < self.tree.len()
            invariant
                e <= self.tree@.len(),
                forall|k: int| 0 <= k < e ==> (#[trigger] self.tree@[k]).pages@.no_duplicates(),
            decreases self.tree.len() - e,
        {
            if !pages_unique(&self.tree[e].pages) {
                return false;
            }
            e = e + 1;
        }
        let mut i: usize = 0;
        while i < self.tree.len()
            invariant
                i <= self.tree@.len(),
                forall|k: int| 0 <= k < self.tree@.len() ==> (#[trigger] self.tree@[k]).pages@.no_duplicates(),
                forall|a: int, b: int| 0 <= a < b < self.tree@.len() && a < i ==> self.keys()[a] != self.keys()[b],
            decreases self.tree.len() - i,
        {
            let mut j: usize = i + 1;
            while j < self.tree.len()
                invariant
                    i < j <= self.tree@.len(),
                    forall|k: int| 0 <= k < self.tree@.len() ==> (#[trigger] self.tree@[k]).pages@.no_duplicates(),
                    forall|a: int, b: int| 0 <= a < b < self.tree@.len() && a < i ==> self.keys()[a] != self.keys()[b],
                    forall|b: int| i < b < j ==> self.keys()[i as int] != self.keys()[b],
                decreases self.tree.len() - j,
            {
                if same_text(self.tree[i].key.as_str(), self.tree[j].key.as_str()) {
                    assert(self.keys()[i as int] == self.keys()[j as int]);
                    return false;
                }
                j = j + 1;
            }
            i = i + 1;
        }
        true
    }

    /// Position of `key` in the index, if present.
    fn find(&self, key: &str) -> (r: Option<usize>)
        requires
            self.wf(),
        ensures
            r is None <==> !self.keys().contains(key@),
            r matches Some(i) ==> i < self.tree@.len() && self.keys().index_of(key@) == i,
    {
        let mut i: usize = 0;
        while i < self.tree.len()
            invariant
                i <= self.tree@.len(),
                self.wf(),
                forall|j: int| 0 <= j < i ==> self.tree@[j].key@ != key@,
            decreases self.tree.len() - i,
        {
            if same_text(self.tree[i].key.as_str(), key) {
                proof {
                    assert(self.keys()[i as int] == key@);
                    assert(self.keys().contains(key@));
                    let k = self.keys().index_of(key@);
                    assert(0 <= k < self.keys().len() && self.keys()[k] == key@);
                }
                return Some(i);
            }
            i = i + 1;
        }
        proof {
            if self.keys().contains(key@) {
                let j = choose|j: int| 0 <= j < self.keys().len() && self.keys()[j] == key@;
                assert(self.tree@[j].key@ == key@);
            }
        }
        None
    }

    /// Records that the page `values.1` holds a record whose indexed value
    /// is `values.0`: the page is appended to that key's list.
    pub fn update_tree(&mut self, values: (String, usize))
        requires
            old(self).wf(),
        ensures
            final(self).wf(),
            final(self).name == old(self).name,
            final(self).column_name == old(self).column_name,
            final(self).view_map() == old(self).view_map().insert(
                values.0@,
                with_page(old(self).pages_of(values.0@), values.1),
            ),
    {
        let ghost old_keys = self.keys();
        let ghost k = values.0@;
        let ghost want = old(self).view_map().insert(k, with_page(old(self).pages_of(k), values.1));
        match self.find(values.0.as_str()) {
            Some(i) => {
                if contains_page(&self.tree[i].pages, values.1) {
                    proof {
                        assert(old_keys[i as int] == k);
                        assert(self.view_map().contains_key(k));
                        assert(self.view_map() =~= want);
                    }
                    return;
                }
                let mut pages = self.tree[i].pages.clone();
                pages.push(values.1);
                self.tree.set(i, IndexEntry { key: values.0, pages });
                proof {
                    assert(self.keys() =~= old_keys);
                    assert(old_keys[i as int] == k);
                    assert forall|q: Seq<char>| self.keys().contains(q) implies self.tree@[self.keys().index_of(q)].pages@ == want[q] by {
                        let a = old_keys.index_of(q);
                        assert(old_keys[a] == q);
                        if q != k {
                            assert(a != i);
                        }
                    }
                    assert(self.view_map() =~= want);
                }
            },
            None => {
                let mut pages: Vec<usize> = Vec::new();
                pages.push(values.1);
                self.tree.push(IndexEntry { key: values.0, pages });
                proof {
                    let l = old_keys.len() as int;
                    assert(self.keys() =~= old_keys.push(k));
                    assert(self.keys()[l] == k);
                    assert forall|q: Seq<char>| self.keys().contains(q) == want.contains_key(q) by {
                        if self.keys().contains(q) && q != k {
                            let a = choose|a: int| 0 <= a < self.keys().len() && self.keys()[a] == q;
                            assert(a != l);
                            assert(old_keys[a] == q);
                        }
                        if old_keys.contains(q) {
                            let a = choose|a: int| 0 <= a < old_keys.len() && old_keys[a] == q;
                            assert(self.keys()[a] == q);
                        }
                    }
                    assert forall|q: Seq<char>| self.keys().contains(q) implies self.tree@[self.keys().index_of(q)].pages@ == want[q] by {
                        let b = self.keys().index_of(q);
                        assert(self.keys()[b] == q);
                        if q == k {
                            assert(b == l);
                            assert(pages@ =~= seq![values.1]);
                            assert(old(self).pages_of(k) =~= Seq::<usize>::empty());
                            assert(!Seq::<usize>::empty().contains(values.1));
                        } else {
                            assert(b != l);
                            assert(old_keys[b] == q);
                            assert(old_keys.contains(q));
                            let a = old_keys.index_of(q);
                            assert(old_keys[a] == q);
                            assert(a == b);
                        }
                    }
                    assert(self.view_map() =~= want);
                }
            },
        }
    }

    /// The pages recorded for `key`; an error when the key is absent.
    pub fn data_page_indices(&self, key: &str) -> (r: Result<Vec<usize>, String>)
        requires
            self.wf(),
        ensures
            r is Err <==> !self.view_map().contains_key(key@),
            r matches Err(m) ==> m@ == KEY_MISSING@,
            r matches Ok(v) ==> v@ == self.view_map()[key@],
    {
        match self.find(key) {
            Some(i) => Ok(self.tree[i].pages.clone()),
            None => Err(owned(KEY_MISSING)),
        }
    }
}

} // verus!
