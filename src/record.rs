//! Schema-less records: a set of named fields.
use vstd::prelude::*;

use crate::text::{contains_text, same_text, texts};
use crate::value::Value;

verus! {

/// One named field of a record.
#[derive(Debug, Clone)]
pub struct Field {
    pub name: String,
    pub value: Value,
}

/// Whether a field's name is among `names`.
pub open spec fn named_in(names: Seq<Seq<char>>) -> spec_fn(Field) -> bool {
    |f: Field| names.contains(f.name@)
}

/// An equality condition of a query: `(column name, expected text)`.
pub type Clause = (String, String);

/// The clauses of a query as pairs of character sequences.
pub open spec fn clauses_view(c: Seq<Clause>) -> Seq<(Seq<char>, Seq<char>)> {
    c.map_values(|x: Clause| (x.0@, x.1@))
}

/// A record: named fields, each name at most once.
#[derive(Debug, Clone)]
pub struct DynamicRecord {
    pub fields: Vec<Field>,
}

impl DynamicRecord {
    /// The names of the fields, in storage order.
    pub open spec fn names(&self) -> Seq<Seq<char>> {
        self.fields@.map_values(|f: Field| f.name@)
    }

    /// Field names are unique.
    pub open spec fn wf(&self) -> bool {
        self.names().no_duplicates()
    }

    /// Whether the record has a field named `k`.
    pub open spec fn has(&self, k: Seq<char>) -> bool {
        self.names().contains(k)
    }

    /// The value of the field named `k` (meaningful when `has(k)`).
    pub open spec fn value_of(&self, k: Seq<char>) -> Value {
        self.fields@[self.names().index_of(k)].value
    }

    /// Whether the record meets every clause whose column it has.
    pub open spec fn satisfies(&self, clauses: Seq<(Seq<char>, Seq<char>)>) -> bool {
        forall|i: int|
            0 <= i < clauses.len() && #[trigger] self.has(clauses[i].0) ==> self.value_of(
                clauses[i].0,
            ).text() == clauses[i].1
    }

    /// A copy of the record.
    pub fn clone_record(&self) -> (r: DynamicRecord)
        ensures
            r.fields@ == self.fields@,
    {
        let mut fields: Vec<Field> = Vec::new();
        let mut i: usize = 0;
        while i < self.fields.len()
            invariant
                i <= self.fields@.len(),
                fields@ == self.fields@.take(i as int),
            decreases self.fields.len() - i,
        {
            fields.push(self.fields[i].clone_field());
            assert(self.fields@.take(i as int + 1) =~= self.fields@.take(i as int).push(self.fields@[i as int]));
            i = i + 1;
        }
        assert(self.fields@.take(self.fields@.len() as int) =~= self.fields@);
        DynamicRecord { fields }
    }

    /// The record with no fields.
    pub fn new() -> (r: Self)
        ensures
            r.wf(),
            r.fields@.len() == 0,
    {
        DynamicRecord { fields: Vec::new() }
    }

    /// Position of the field named `name`, if any.
    pub fn position(&self, name: &str) -> (r: Option<usize>)
        requires
            self.wf(),
        ensures
            r is None <==> !self.has(name@),
            r matches Some(i) ==> i < self.fields@.len() && self.fields@[i as int].name@ == name@
                && self.names().index_of(name@) == i,
    {
        let mut i: usize = 0;
        while i < self.fields.len()
            invariant
                i <= self.fields@.len(),
                self.wf(),
                forall|j: int| 0 <= j < i ==> self.fields@[j].name@ != name@,
            decreases self.fields.len() - i,
        {
            if same_text(self.fields[i].name.as_str(), name) {
                proof {
                    assert(self.names()[i as int] == name@);
                    assert(self.names().contains(name@));
                    let k = self.names().index_of(name@);
                    assert(0 <= k < self.names().len() && self.names()[k] == name@);
                    assert(k == i as int);
                }
                return Some(i);
            }
            i = i + 1;
        }
        proof {
            if self.has(name@) {
                let j = choose|j: int| 0 <= j < self.names().len() && self.names()[j] == name@;
                assert(self.fields@[j].name@ == name@);
            }
        }
        None
    }

    /// Whether the record has a field named `name`.
    pub fn contains_key(&self, name: &str) -> (r: bool)
        requires
            self.wf(),
        ensures
            r == self.has(name@),
    {
        self.position(name).is_some()
    }

    /// The value of the field named `name`, if any.
    pub fn get(&self, name: &str) -> (r: Option<&Value>)
        requires
            self.wf(),
        ensures
            r is None <==> !self.has(name@),
            r matches Some(v) ==> *v == self.value_of(name@),
    {
        match self.position(name) {
            Some(i) => Some(&self.fields[i].value),
            None => None,
        }
    }

    /// Sets the field `name` to `value`, replacing an earlier value.
    pub fn insert(&mut self, name: String, value: Value)
        requires
            old(self).wf(),
        ensures
            final(self).wf(),
            final(self).has(name@),
            final(self).value_of(name@) == value,
            forall|k: Seq<char>| k != name@ ==> (final(self).has(k) == old(self).has(k)),
            forall|k: Seq<char>|
                k != name@ && old(self).has(k) ==> final(self).value_of(k) == old(self).value_of(k),
    {
        let ghost old_names = self.names();
        match self.position(name.as_str()) {
            Some(i) => {
                let ghost n = name@;
                self.fields.set(i, Field { name, value });
                proof {
                    assert(self.names() =~= old_names);
                    assert(self.names()[i as int] == n);
                    assert forall|k: Seq<char>| k != n && old(self).has(k) implies self.value_of(k)
                        == old(self).value_of(k) by {
                        let a = old_names.index_of(k);
                        assert(old_names[a] == k);
                        assert(a != i);
                    }
                }
            },
            None => {
                let ghost n = name@;
                self.fields.push(Field { name, value });
                proof {
                    assert(self.names() =~= old_names.push(n));
                    let l = old_names.len() as int;
                    assert(self.names()[l] == n);
                    assert forall|k: Seq<char>| k != n implies (self.has(k) == old(self).has(k)) by {
                        if self.has(k) {
                            let a = self.names().index_of(k);
                            assert(self.names()[a] == k);
                            assert(old_names[a] == k);
                        }
                        if old(self).has(k) {
                            let a = old_names.index_of(k);
                            assert(self.names()[a] == k);
                        }
                    }
                    assert forall|k: Seq<char>| k != n && old(self).has(k) implies self.value_of(k)
                        == old(self).value_of(k) by {
                        let a = old_names.index_of(k);
                        assert(old_names[a] == k);
                        assert(self.names()[a] == k);
                        let b = self.names().index_of(k);
                        assert(self.names()[b] == k);
                    }
                }
            },
        }
    }

    /// Keeps only the fields whose names are in `column_names`, in their order.
    pub fn filter_columns(&mut self, column_names: &Vec<String>)
        requires
            old(self).wf(),
        ensures
            final(self).wf(),
            final(self).fields@ == old(self).fields@.filter(named_in(texts(column_names@))),
    {
        let ghost pred = named_in(texts(column_names@));
        let ghost src = self.fields@;
        let mut kept: Vec<Field> = Vec::new();
        let mut i: usize = 0;
        while i < self.fields.len()
            invariant
                i <= self.fields@.len(),
                self.fields@ == src,
                pred == named_in(texts(column_names@)),
                kept@ == src.take(i as int).filter(pred),
            decreases self.fields.len() - i,
        {
            proof {
                assert(src.take(i as int + 1) =~= src.take(i as int).push(src[i as int]));
                src.take(i as int).lemma_filter_push(src[i as int], pred);
                assert(pred == named_in(texts(column_names@)));
                assert(named_in(texts(column_names@))(src[i as int]) == texts(column_names@).contains(src[i as int].name@));
            }
            if contains_text(column_names, self.fields[i].name.as_str()) {
                kept.push(self.fields[i].clone_field());
            }
            i = i + 1;
        }
        proof {
            assert(src.take(src.len() as int) =~= src);
            lemma_filter_names_unique(src, pred);
        }
        self.fields = kept;
    }

    /// Whether the record meets the clauses: every clause whose column the
    /// record has must match that field's text.
    pub fn entry_should_be_included(&self, where_clauses: &Vec<Clause>) -> (r: bool)
        requires
            self.wf(),
        ensures
            r == self.satisfies(clauses_view(where_clauses@)),
    {
        let ghost cv = clauses_view(where_clauses@);
        let mut i: usize = 0;
        while i < where_clauses.len()
            invariant
                i <= where_clauses@.len(),
                self.wf(),
                cv == clauses_view(where_clauses@),
                forall|j: int|
                    0 <= j < i && #[trigger] self.has(cv[j].0) ==> self.value_of(cv[j].0).text()
                        == cv[j].1,
            decreases where_clauses.len() - i,
        {
            let clause = &where_clauses[i];
            match self.get(clause.0.as_str()) {
                Some(v) => {
                    if !v.fullfills(clause.1.as_str()) {
                        assert(cv[i as int] == (clause.0@, clause.1@));
                        assert(self.has(cv[i as int].0));
                        return false;
                    }
                },
                None => {},
            }
            i = i + 1;
        }
        true
    }
}

impl Field {
    /// A copy of the field.
    pub fn clone_field(&self) -> (r: Field)
        ensures
            r == *self,
    {
        Field { name: self.name.clone(), value: self.value.clone_value() }
    }
}

/// Keeping some of the fields keeps their names unique.
pub proof fn lemma_filter_names_unique(src: Seq<Field>, pred: spec_fn(Field) -> bool)
    requires
        src.map_values(|f: Field| f.name@).no_duplicates(),
    ensures
        src.filter(pred).map_values(|f: Field| f.name@).no_duplicates(),
    decreases src.len(),
{
    if src.len() > 0 {
        let init = src.drop_last();
        let e = src.last();
        assert(src =~= init.push(e));
        assert(init.map_values(|f: Field| f.name@) =~= src.map_values(|f: Field| f.name@).drop_last());
        lemma_filter_names_unique(init, pred);
        init.lemma_filter_push(e, pred);
        let fi = init.filter(pred);
        if pred(e) {
            assert forall|j: int| 0 <= j < fi.len() implies fi[j].name@ != e.name@ by {
                assert(fi.contains(fi[j]));
                init.lemma_filter_contains_rev(pred, fi[j]);
                let m = choose|m: int| 0 <= m < init.len() && init[m] == fi[j];
                assert(src.map_values(|f: Field| f.name@)[m] == fi[j].name@);
                assert(src.map_values(|f: Field| f.name@)[src.len() - 1] == e.name@);
            }
            assert(fi.push(e).map_values(|f: Field| f.name@) =~= fi.map_values(|f: Field| f.name@).push(e.name@));
        }
    }
}

} // verus!
