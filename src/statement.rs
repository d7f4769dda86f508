//! Parsed statements, as the engine consumes them.
use vstd::prelude::*;

use vstd::string::StringExecFns;

use crate::text::join3;
use crate::record::Clause;
use crate::text::texts;

verus! {

/// A parsed statement.
#[derive(Debug)]
pub enum Statement {
    Select { table_name: String, selection: Vec<String>, where_clauses: Vec<Clause> },
    InsertInto { table_name: String, column_names: Vec<String>, values: Vec<Vec<String>> },
    CreateTable { table_name: String, columns: Vec<Vec<String>> },
    CreateIndex { table_name: String, column_name: String, index_name: String },
}

impl Statement {
    /// The table a statement is about.
    pub open spec fn table(&self) -> Seq<char> {
        match self {
            Statement::Select { table_name, .. } => table_name@,
            Statement::InsertInto { table_name, .. } => table_name@,
            Statement::CreateTable { table_name, .. } => table_name@,
            Statement::CreateIndex { table_name, .. } => table_name@,
        }
    }

    /// The name of the table the statement is about.
    pub fn table_name(&self) -> (r: &str)
        ensures
            r@ == self.table(),
    {
        match self {
            Statement::Select { table_name, .. } => table_name.as_str(),
            Statement::InsertInto { table_name, .. } => table_name.as_str(),
            Statement::CreateTable { table_name, .. } => table_name.as_str(),
            Statement::CreateIndex { table_name, .. } => table_name.as_str(),
        }
    }
}

/// The parts joined with `sep` between each two.
pub open spec fn joined(parts: Seq<Seq<char>>, sep: Seq<char>) -> Seq<char>
    decreases parts.len(),
{
    if parts.len() == 0 {
        Seq::empty()
    } else if parts.len() == 1 {
        parts[0]
    } else {
        joined(parts.drop_last(), sep) + sep + parts.last()
    }
}

/// Joins strings with a separator.
pub fn join(parts: &Vec<String>, sep: &str) -> (r: String)
    ensures
        r@ == joined(texts(parts@), sep@),
{
    let mut r = String::new();
    let mut i: usize = 0;
    while i < parts.len()
        invariant
            i <= parts@.len(),
            r@ == joined(texts(parts@).take(i as int), sep@),
        decreases parts.len() - i,
    {
        proof {
            assert(texts(parts@).take(i as int + 1).drop_last() =~= texts(parts@).take(i as int));
            assert(texts(parts@).take(i as int + 1).last() == parts@[i as int]@);
        }
        if i > 0 {
            r.append(sep);
        } else {
            assert(texts(parts@).take(1) =~= seq![parts@[0]@]);
        }
        r.append(parts[i].as_str());
        i = i + 1;
    }
    assert(texts(parts@).take(parts@.len() as int) =~= texts(parts@));
    r
}

/// The text of each row: `(\n` values joined by `, ` `\n)`.
pub open spec fn row_texts(rows: Seq<Vec<String>>) -> Seq<Seq<char>> {
    rows.map_values(|v: Vec<String>| "(\n"@ + joined(texts(v@), ", "@) + "\n)"@)
}

/// The text of each column description: its words joined by spaces.
pub open spec fn column_texts(cols: Seq<Vec<String>>) -> Seq<Seq<char>> {
    cols.map_values(|v: Vec<String>| joined(texts(v@), " "@))
}

/// The statement written back as SQL text.
pub open spec fn statement_text(s: Statement) -> Seq<char> {
    match s {
        Statement::Select { table_name, selection, .. } => "SELECT "@ + joined(texts(selection@), ", "@)
            + " FROM "@ + table_name@ + ";"@,
        Statement::InsertInto { table_name, column_names, values } => "INSERT INTO "@ + table_name@
            + "(\n"@ + joined(texts(column_names@), ", "@) + "\n) VALUES "@ + joined(
            row_texts(values@),
            ", "@,
        ) + ";"@,
        Statement::CreateTable { table_name, columns } => "CREATE TABLE "@ + table_name@ + "(\n"@
            + joined(column_texts(columns@), ",\n"@) + "\n);"@,
        Statement::CreateIndex { table_name, column_name, index_name } => "CREATE INDEX "@
            + index_name@ + "\nON "@ + table_name@ + "("@ + column_name@ + ");"@,
    }
}

impl Statement {
    /// The statement written back as SQL text.
    pub fn to_text(&self) -> (r: String)
        ensures
            r@ == statement_text(*self),
    {
        match self {
            Statement::Select { table_name, selection, .. } => {
                let a = join3("SELECT ", join(selection, ", ").as_str(), " FROM ");
                join3(a.as_str(), table_name.as_str(), ";")
            },
            Statement::InsertInto { table_name, column_names, values } => {
                let mut rows: Vec<String> = Vec::new();
                let mut i: usize = 0;
                while i < values.len()
                    invariant
                        i <= values@.len(),
                        texts(rows@) == row_texts(values@).take(i as int),
                    decreases values.len() - i,
                {
                    let row = join3("(\n", join(&values[i], ", ").as_str(), "\n)");
                    let ghost before = rows@;
                    rows.push(row);
                    assert(texts(rows@) =~= row_texts(values@).take(i as int + 1)) by {
                        assert(texts(rows@) =~= texts(before).push(row@));
                    }
                    i = i + 1;
                }
                assert(row_texts(values@).take(values@.len() as int) =~= row_texts(values@));
                let a = join3("INSERT INTO ", table_name.as_str(), "(\n");
                let b = join3(a.as_str(), join(column_names, ", ").as_str(), "\n) VALUES ");
                join3(b.as_str(), join(&rows, ", ").as_str(), ";")
            },
            Statement::CreateTable { table_name, columns } => {
                let mut cols: Vec<String> = Vec::new();
                let mut i: usize = 0;
                while i < columns.len()
                    invariant
                        i <= columns@.len(),
                        texts(cols@) == column_texts(columns@).take(i as int),
                    decreases columns.len() - i,
                {
                    let c = join(&columns[i], " ");
                    let ghost before = cols@;
                    cols.push(c);
                    assert(texts(cols@) =~= column_texts(columns@).take(i as int + 1)) by {
                        assert(texts(cols@) =~= texts(before).push(c@));
                    }
                    i = i + 1;
                }
                assert(column_texts(columns@).take(columns@.len() as int) =~= column_texts(columns@));
                let a = join3("CREATE TABLE ", table_name.as_str(), "(\n");
                join3(a.as_str(), join(&cols, ",\n").as_str(), "\n);")
            },
            Statement::CreateIndex { table_name, column_name, index_name } => {
                let a = join3("CREATE INDEX ", index_name.as_str(), "\nON ");
                let b = join3(a.as_str(), table_name.as_str(), "(");
                join3(b.as_str(), column_name.as_str(), ");")
            },
        }
    }
}

/// A query: its text and the statement parsed from it.
#[derive(Debug)]
pub struct Query {
    pub text: String,
    pub statement: Statement,
}

impl Query {
    /// A query of `text` parsed as `statement`.
    pub fn new(text: String, statement: Statement) -> (r: Self)
        ensures
            r.text == text,
            r.statement == statement,
    {
        Query { text, statement }
    }
}

/// The result of parsing a query; the error is a message for the user.
pub type QueryResult = Result<Query, String>;

} // verus!
