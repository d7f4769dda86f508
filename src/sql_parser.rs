//! The statement parser: query text to tokens, and tokens to a statement.
use vstd::prelude::*;
use vstd::string::{StrSliceExecFns, StringExecFns};

use crate::record::{clauses_view, Clause};
use crate::table::descriptions;
use crate::statement::{Query, QueryResult, Statement};
use crate::text::{push_char, same_text, texts, to_upper, upper_of};

verus! {

/// Characters that separate tokens.
pub open spec fn is_space(c: char) -> bool {
    c == ' ' || c == '\n' || c == '\t' || c == '\r'
}

/// Characters that are tokens of their own.
pub open spec fn is_punct(c: char) -> bool {
    c == '(' || c == ')' || c == ',' || c == ';'
}

/// The finished tokens plus the pending one, if not empty.
pub open spec fn flush(acc: Seq<Seq<char>>, cur: Seq<char>) -> Seq<Seq<char>> {
    if cur.len() == 0 {
        acc
    } else {
        acc.push(cur)
    }
}

/// Scanning a text: the finished tokens and the token being read.
pub open spec fn scan(s: Seq<char>) -> (Seq<Seq<char>>, Seq<char>)
    decreases s.len(),
{
    if s.len() == 0 {
        (Seq::empty(), Seq::empty())
    } else {
        let prev = scan(s.drop_last());
        let c = s.last();
        if is_space(c) {
            (flush(prev.0, prev.1), Seq::empty())
        } else if is_punct(c) {
            (flush(prev.0, prev.1).push(seq![c]), Seq::empty())
        } else {
            (prev.0, prev.1.push(c))
        }
    }
}

/// The tokens of a text: maximal runs of characters other than spaces and
/// `( ) , ;`, and each of `( ) , ;` on its own, in order.
pub open spec fn tokens_of(s: Seq<char>) -> Seq<Seq<char>> {
    flush(scan(s).0, scan(s).1)
}

/// Splits query text into tokens.
pub fn graphemes(input: &str) -> (r: Vec<String>)
    ensures
        texts(r@) == tokens_of(input@),
{
    let n = input.unicode_len();
    let mut acc: Vec<String> = Vec::new();
    let mut cur = String::new();
    let mut i: usize = 0;
    while i < n
        invariant
            i <= n,
            n == input@.len(),
            (texts(acc@), cur@) == scan(input@.take(i as int)),
        decreases n - i,
    {
        let c = input.get_char(i);
        let ghost acc0 = texts(acc@);
        let ghost cur0 = cur@;
        proof {
            assert(input@.take(i as int + 1).drop_last() =~= input@.take(i as int));
            assert(input@.take(i as int + 1).last() == c);
        }
        if c == ' ' || c == '\n' || c == '\t' || c == '\r' {
            if !cur.as_str().is_empty() {
                acc.push(cur);
                assert(texts(acc@) =~= acc0.push(cur0));
            }
            cur = String::new();
        } else if c == '(' || c == ')' || c == ',' || c == ';' {
            if !cur.as_str().is_empty() {
                acc.push(cur);
                assert(texts(acc@) =~= acc0.push(cur0));
            }
            let ghost acc1 = texts(acc@);
            let mut p = String::new();
            push_char(&mut p, c);
            acc.push(p);
            assert(p@ =~= seq![c]);
            assert(texts(acc@) =~= acc1.push(seq![c]));
            cur = String::new();
        } else {
            push_char(&mut cur, c);
        }
        i = i + 1;
    }
    let ghost acc0 = texts(acc@);
    let ghost cur0 = cur@;
    if !cur.as_str().is_empty() {
        acc.push(cur);
        assert(texts(acc@) =~= acc0.push(cur0));
    }
    proof {
        assert(input@.take(n as int) =~= input@);
    }
    acc
}

/// The kind of a statement, read from its first one or two words.
#[derive(Debug, Clone, Copy, PartialEq, Eq, Structural)]
pub enum StatementType {
    Invalid,
    Select,
    InsertInto,
    CreateTable,
    CreateIndex,
}

/// The kind that an upper-case keyword (or two, joined by a space) names.
pub open spec fn kind_named(upper: Seq<char>) -> StatementType {
    if upper == "SELECT"@ {
        StatementType::Select
    } else if upper == "INSERT INTO"@ {
        StatementType::InsertInto
    } else if upper == "CREATE TABLE"@ {
        StatementType::CreateTable
    } else if upper == "CREATE INDEX"@ {
        StatementType::CreateIndex
    } else {
        StatementType::Invalid
    }
}

/// The kind named by the first word, or else by the first two words.
pub open spec fn kind_of(first: Seq<char>, second: Seq<char>) -> StatementType {
    if kind_named(upper_of(first)) != StatementType::Invalid {
        kind_named(upper_of(first))
    } else {
        kind_named(upper_of(first + " "@ + second))
    }
}

impl StatementType {
    /// The kind that a keyword names, without regard to case.
    pub fn from_text(value: &str) -> (r: StatementType)
        ensures
            r == kind_named(upper_of(value@)),
    {
        let u = to_upper(value);
        StatementType::from_upper(u.as_str())
    }

    /// The kind that an upper-case keyword (or two, joined by a space)
    /// names.
    pub fn from_upper(u: &str) -> (r: StatementType)
        ensures
            r == kind_named(u@),
    {
        proof {
            reveal_strlit("SELECT");
            reveal_strlit("INSERT INTO");
            reveal_strlit("CREATE TABLE");
            reveal_strlit("CREATE INDEX");
        }
        if same_text(u, "SELECT") {
            StatementType::Select
        } else if same_text(u, "INSERT INTO") {
            StatementType::InsertInto
        } else if same_text(u, "CREATE TABLE") {
            StatementType::CreateTable
        } else if same_text(u, "CREATE INDEX") {
            StatementType::CreateIndex
        } else {
            StatementType::Invalid
        }
    }

    /// The kind named by `first_grapheme`, or else by the two words.
    pub fn new(first_grapheme: &str, second_grapheme: &str) -> (r: Self)
        ensures
            r == kind_of(first_grapheme@, second_grapheme@),
    {
        let statement_type = StatementType::from_text(first_grapheme);
        if statement_type.id() == StatementType::Invalid.id() {
            let two = crate::text::join3(first_grapheme, " ", second_grapheme);
            StatementType::from_text(two.as_str())
        } else {
            statement_type
        }
    }

    /// A number per kind: 0 for `Invalid`, then 1 to 4.
    pub fn id(&self) -> (r: u8)
        ensures
            r == match self {
                StatementType::Invalid => 0u8,
                StatementType::Select => 1u8,
                StatementType::InsertInto => 2u8,
                StatementType::CreateTable => 3u8,
                StatementType::CreateIndex => 4u8,
            },
    {
        match self {
            StatementType::Invalid => 0,
            StatementType::Select => 1,
            StatementType::InsertInto => 2,
            StatementType::CreateTable => 3,
            StatementType::CreateIndex => 4,
        }
    }
}

/// The kind of a parsed statement.
pub open spec fn statement_kind(s: Statement) -> StatementType {
    match s {
        Statement::Select { .. } => StatementType::Select,
        Statement::InsertInto { .. } => StatementType::InsertInto,
        Statement::CreateTable { .. } => StatementType::CreateTable,
        Statement::CreateIndex { .. } => StatementType::CreateIndex,
    }
}

/// Turns the tokens of one kind of statement into a statement.
pub trait StatementParser {
    fn parse_statement(&mut self, graphemes: Vec<String>) -> Result<Statement, String>;
}

/// Where the `CREATE TABLE` parser is.
#[derive(Clone, Copy, PartialEq, Eq, Structural)]
pub enum CreateTableState {
    TableName,
    Columns,
}

/// What the `CREATE TABLE` parser has read: its state, the table name,
/// the finished column descriptions and the one being read.
pub type CreateTableRead = (CreateTableState, Seq<char>, Seq<Seq<Seq<char>>>, Seq<Seq<char>>);

/// The `CREATE TABLE` parser after one more token: before the columns, `(`
/// starts them and any word but `CREATE` and `TABLE` names the table (and
/// starts them too); in the columns, `(` and `)` are skipped, `,` and `;`
/// end a description, `PRIMARY` adds the word `PRIMARY KEY`, `KEY` is
/// skipped, and any other token is added as a word.
pub open spec fn create_table_step(s: CreateTableRead, g: Seq<char>) -> CreateTableRead {
    match s.0 {
        CreateTableState::TableName => if g == "("@ {
            (CreateTableState::Columns, s.1, s.2, s.3)
        } else if upper_of(g) != "CREATE"@ && upper_of(g) != "TABLE"@ {
            (CreateTableState::Columns, g, s.2, s.3)
        } else {
            s
        },
        CreateTableState::Columns => if g == "("@ || g == ")"@ {
            s
        } else if g == ","@ || g == ";"@ {
            (s.0, s.1, s.2.push(s.3), Seq::empty())
        } else if upper_of(g) == "PRIMARY"@ {
            (s.0, s.1, s.2, s.3.push("PRIMARY KEY"@))
        } else if upper_of(g) == "KEY"@ {
            s
        } else {
            (s.0, s.1, s.2, s.3.push(g))
        },
    }
}

/// The `CREATE TABLE` parser after reading `gs` from `start`.
pub open spec fn create_table_read(start: CreateTableRead, gs: Seq<Seq<char>>) -> CreateTableRead
    decreases gs.len(),
{
    if gs.len() == 0 {
        start
    } else {
        create_table_step(create_table_read(start, gs.drop_last()), gs.last())
    }
}

/// Parses `CREATE TABLE name(col type [PRIMARY KEY], ...);`.
pub struct CreateTableStatementParser {
    pub state: CreateTableState,
}

impl CreateTableStatementParser {
    /// A parser at the start of a statement.
    pub fn new() -> (r: Self)
        ensures
            r.state == CreateTableState::TableName,
    {
        Self { state: CreateTableState::TableName }
    }

    /// Moves from the table name to the columns on `(`; true when it moved.
    fn change_parser_state(&mut self, grapheme: &str) -> (r: bool)
        ensures
            r == (old(self).state == CreateTableState::TableName && grapheme@ == "("@),
            final(self).state == if r { CreateTableState::Columns } else { old(self).state },
    {
        proof {
            reveal_strlit("(");
        }
        match self.state {
            CreateTableState::TableName => {
                if same_text(grapheme, "(") {
                    self.state = CreateTableState::Columns;
                    true
                } else {
                    false
                }
            },
            CreateTableState::Columns => false,
        }
    }

    /// The table name and one description per column: its words, with
    /// `PRIMARY KEY` as one word.
    pub fn parse(&mut self, graphemes: Vec<String>) -> (r: Result<Statement, String>)
        ensures
            r matches Ok(s) && statement_kind(s) == StatementType::CreateTable,
            r matches Ok(Statement::CreateTable { table_name, columns }) ==> ({
                let read = create_table_read(
                    (old(self).state, Seq::empty(), Seq::empty(), Seq::empty()),
                    texts(graphemes@),
                );
                &&& final(self).state == read.0
                &&& table_name@ == read.1
                &&& descriptions(columns@) == read.2
            }),
    {
        let ghost start = (self.state, Seq::<char>::empty(), Seq::<Seq<Seq<char>>>::empty(), Seq::<Seq<char>>::empty());
        let ghost gs = texts(graphemes@);
        let mut table_name = String::new();
        let mut columns: Vec<Vec<String>> = Vec::new();
        let mut current: Vec<String> = Vec::new();
        let mut i: usize = 0;
        proof {
            reveal_strlit("CREATE");
            reveal_strlit("TABLE");
            reveal_strlit("PRIMARY");
            reveal_strlit("PRIMARY KEY");
            reveal_strlit("KEY");
            reveal_strlit("(");
            reveal_strlit(")");
            reveal_strlit(",");
            reveal_strlit(";");
            assert(gs.take(0) =~= Seq::<Seq<char>>::empty());
            assert(descriptions(columns@) =~= Seq::<Seq<Seq<char>>>::empty());
            assert(texts(current@) =~= Seq::<Seq<char>>::empty());
        }
        while i < graphemes.len()
            invariant
                i <= graphemes@.len(),
                gs == texts(graphemes@),
                (self.state, table_name@, descriptions(columns@), texts(current@)) == create_table_read(start, gs.take(i as int)),
            decreases graphemes.len() - i,
        {
            let g = graphemes[i].as_str();
            proof {
                assert(gs.take(i as int + 1).drop_last() =~= gs.take(i as int));
                assert(gs.take(i as int + 1).last() == g@);
            }
            let ghost cols0 = descriptions(columns@);
            let ghost cur0 = texts(current@);
            i = i + 1;
            if self.change_parser_state(g) {
                continue;
            }
            match self.state {
                CreateTableState::TableName => {
                    let u = to_upper(g);
                    if !same_text(u.as_str(), "CREATE") && !same_text(u.as_str(), "TABLE") {
                        table_name = String::from_str(g);
                        self.state = CreateTableState::Columns;
                    }
                },
                CreateTableState::Columns => {
                    if same_text(g, "(") || same_text(g, ")") {
                        continue;
                    }
                    if same_text(g, ",") || same_text(g, ";") {
                        columns.push(current);
                        current = Vec::new();
                        assert(descriptions(columns@) =~= cols0.push(cur0));
                        assert(texts(current@) =~= Seq::<Seq<char>>::empty());
                        continue;
                    }
                    let u = to_upper(g);
                    if same_text(u.as_str(), "PRIMARY") {
                        current.push(String::from_str("PRIMARY KEY"));
                        assert(texts(current@) =~= cur0.push("PRIMARY KEY"@));
                        continue;
                    }
                    if same_text(u.as_str(), "KEY") {
                        continue;
                    }
                    current.push(String::from_str(g));
                    assert(texts(current@) =~= cur0.push(g@));
                },
            }
        }
        proof {
            assert(gs.take(gs.len() as int) =~= gs);
        }
        Ok(Statement::CreateTable { table_name, columns })
    }
}

impl StatementParser for CreateTableStatementParser {
    fn parse_statement(&mut self, graphemes: Vec<String>) -> Result<Statement, String> {
        self.parse(graphemes)
    }
}

/// Where the `INSERT INTO` parser is.
#[derive(Clone, Copy, PartialEq, Eq, Structural)]
pub enum InsertState {
    TableName,
    Columns,
    Values,
}

/// The error of an insert whose value rows do not match its column list.
pub const ROW_LENGTH_MISMATCH: &'static str = "Invalid query. Your provided values must match the provided columns.";

/// What the `INSERT INTO` parser has read: its state, the table name, the
/// column names, the finished value rows and the row being read.
pub type InsertRead = (InsertState, Seq<char>, Seq<Seq<char>>, Seq<Seq<Seq<char>>>, Seq<Seq<char>>);

/// The `INSERT INTO` parser after one more token; `None` when a finished
/// row's length differs from the number of columns. `,` and `)` are
/// skipped; `(` moves from the table name to the columns and `VALUES` from
/// the columns to the values; a word before them names the table, a word
/// among the columns names one; among the values, `(` or `;` ends a
/// non-empty row and any other token but `(` is a value.
pub open spec fn insert_step(s: InsertRead, g: Seq<char>) -> Option<InsertRead> {
    if g == ","@ || g == ")"@ {
        Some(s)
    } else {
        match s.0 {
            InsertState::TableName => if g == "("@ {
                Some((InsertState::Columns, s.1, s.2, s.3, s.4))
            } else {
                Some((s.0, g, s.2, s.3, s.4))
            },
            InsertState::Columns => if upper_of(g) == "VALUES"@ {
                Some((InsertState::Values, s.1, s.2, s.3, s.4))
            } else {
                Some((s.0, s.1, s.2.push(g), s.3, s.4))
            },
            InsertState::Values => if (g == "("@ || g == ";"@) && s.4.len() > 0 {
                if s.4.len() != s.2.len() {
                    None
                } else {
                    Some((s.0, s.1, s.2, s.3.push(s.4), Seq::empty()))
                }
            } else if g != "("@ {
                Some((s.0, s.1, s.2, s.3, s.4.push(g)))
            } else {
                Some(s)
            },
        }
    }
}

/// The `INSERT INTO` parser after reading `gs` from `start`; `None` once a
/// row was refused.
pub open spec fn insert_read(start: InsertRead, gs: Seq<Seq<char>>) -> Option<InsertRead>
    decreases gs.len(),
{
    if gs.len() == 0 {
        Some(start)
    } else {
        match insert_read(start, gs.drop_last()) {
            Some(s) => insert_step(s, gs.last()),
            None => None,
        }
    }
}

/// Once a row was refused, reading more tokens keeps the refusal.
proof fn lemma_insert_read_stays_refused(start: InsertRead, gs: Seq<Seq<char>>, i: int)
    requires
        0 <= i <= gs.len(),
        insert_read(start, gs.take(i)) is None,
    ensures
        insert_read(start, gs) is None,
    decreases gs.len() - i,
{
    if i < gs.len() {
        assert(gs.take(i + 1).drop_last() =~= gs.take(i));
        lemma_insert_read_stays_refused(start, gs, i + 1);
    } else {
        assert(gs.take(i) =~= gs);
    }
}

/// Parses `INSERT INTO name(cols...) VALUES (vals...), ...;`.
pub struct InsertIntoParser {
    pub state: InsertState,
}

impl InsertIntoParser {
    /// A parser at the start of a statement.
    pub fn new() -> (r: Self)
        ensures
            r.state == InsertState::TableName,
    {
        Self { state: InsertState::TableName }
    }

    /// Moves to the columns on `(`, and to the values on `VALUES`; true
    /// when it moved.
    fn change_parser_state(&mut self, grapheme: &str) -> (r: bool)
        ensures
            final(self).state == if r {
                if old(self).state == InsertState::TableName {
                    InsertState::Columns
                } else {
                    InsertState::Values
                }
            } else {
                old(self).state
            },
            r ==> old(self).state != InsertState::Values,
            r == ((old(self).state == InsertState::TableName && grapheme@ == "("@) || (old(self).state
                == InsertState::Columns && upper_of(grapheme@) == "VALUES"@)),
    {
        proof {
            reveal_strlit("(");
            reveal_strlit("VALUES");
        }
        match self.state {
            InsertState::TableName => {
                if same_text(grapheme, "(") {
                    self.state = InsertState::Columns;
                    true
                } else {
                    false
                }
            },
            InsertState::Columns => {
                let u = to_upper(grapheme);
                if same_text(u.as_str(), "VALUES") {
                    self.state = InsertState::Values;
                    true
                } else {
                    false
                }
            },
            InsertState::Values => false,
        }
    }

    /// The table name, the column names, and the value rows; an error when
    /// a row's length differs from the number of columns.
    pub fn parse(&mut self, graphemes: Vec<String>) -> (r: Result<Statement, String>)
        ensures
            r matches Err(m) ==> m@ == ROW_LENGTH_MISMATCH@,
            r matches Ok(s) ==> statement_kind(s) == StatementType::InsertInto && (s matches Statement::InsertInto { column_names, values, .. }
                && forall|k: int| 0 <= k < values@.len() ==> (#[trigger] values@[k])@.len() == column_names@.len()),
            ({
                let read = insert_read(
                    (old(self).state, Seq::empty(), Seq::empty(), Seq::empty(), Seq::empty()),
                    texts(graphemes@),
                );
                &&& r is Err <==> read is None
                &&& r matches Ok(Statement::InsertInto { table_name, column_names, values }) ==> read matches Some(x)
                    && table_name@ == x.1 && texts(column_names@) == x.2 && descriptions(values@) == x.3
            }),
    {
        let ghost start = (
            self.state,
            Seq::<char>::empty(),
            Seq::<Seq<char>>::empty(),
            Seq::<Seq<Seq<char>>>::empty(),
            Seq::<Seq<char>>::empty(),
        );
        let ghost gs = texts(graphemes@);
        let mut table_name = String::new();
        let mut column_names: Vec<String> = Vec::new();
        let mut values: Vec<Vec<String>> = Vec::new();
        let mut current: Vec<String> = Vec::new();
        let mut i: usize = 0;
        proof {
            reveal_strlit("VALUES");
            reveal_strlit("(");
            reveal_strlit(")");
            reveal_strlit(",");
            reveal_strlit(";");
            assert(gs.take(0) =~= Seq::<Seq<char>>::empty());
            assert(texts(column_names@) =~= Seq::<Seq<char>>::empty());
            assert(descriptions(values@) =~= Seq::<Seq<Seq<char>>>::empty());
            assert(texts(current@) =~= Seq::<Seq<char>>::empty());
        }
        while i < graphemes.len()
            invariant
                i <= graphemes@.len(),
                gs == texts(graphemes@),
                forall|k: int| 0 <= k < values@.len() ==> (#[trigger] values@[k])@.len() == column_names@.len(),
                self.state != InsertState::Values ==> values@.len() == 0,
                start == (
                    old(self).state,
                    Seq::<char>::empty(),
                    Seq::<Seq<char>>::empty(),
                    Seq::<Seq<Seq<char>>>::empty(),
                    Seq::<Seq<char>>::empty(),
                ),
                insert_read(start, gs.take(i as int)) == Some(
                    (self.state, table_name@, texts(column_names@), descriptions(values@), texts(current@)),
                ),
            decreases graphemes.len() - i,
        {
            let g = graphemes[i].as_str();
            proof {
                assert(gs.take(i as int + 1).drop_last() =~= gs.take(i as int));
                assert(gs.take(i as int + 1).last() == g@);
            }
            let ghost cols0 = texts(column_names@);
            let ghost vals0 = descriptions(values@);
            let ghost cur0 = texts(current@);
            i = i + 1;
            if same_text(g, ",") || same_text(g, ")") {
                continue;
            }
            if self.change_parser_state(g) {
                continue;
            }
            match self.state {
                InsertState::TableName => {
                    table_name = String::from_str(g);
                },
                InsertState::Columns => {
                    column_names.push(String::from_str(g));
                    assert(texts(column_names@) =~= cols0.push(g@));
                },
                InsertState::Values => {
                    if (same_text(g, "(") || same_text(g, ";")) && current.len() > 0 {
                        if current.len() != column_names.len() {
                            proof {
                                assert(cur0.len() == current@.len());
                                assert(cols0.len() == column_names@.len());
                                assert(insert_read(start, gs.take(i as int)) is None);
                                lemma_insert_read_stays_refused(start, gs, i as int);
                                assert(gs.take(gs.len() as int) =~= gs);
                            }
                            return Err(String::from_str(ROW_LENGTH_MISMATCH));
                        }
                        values.push(current);
                        current = Vec::new();
                        assert(descriptions(values@) =~= vals0.push(cur0));
                        assert(texts(current@) =~= Seq::<Seq<char>>::empty());
                    } else if !same_text(g, "(") {
                        current.push(String::from_str(g));
                        assert(texts(current@) =~= cur0.push(g@));
                    }
                },
            }
        }
        proof {
            assert(gs.take(gs.len() as int) =~= gs);
        }
        Ok(Statement::InsertInto { table_name, column_names, values })
    }
}

impl StatementParser for InsertIntoParser {
    fn parse_statement(&mut self, graphemes: Vec<String>) -> Result<Statement, String> {
        self.parse(graphemes)
    }
}

/// Where the `SELECT` parser is.
#[derive(Clone, Copy, PartialEq, Eq, Structural)]
pub enum SelectState {
    TableName,
    Selection,
    WhereClauses,
}

/// Parses `SELECT cols FROM name [WHERE col = value [AND ...]];`.
pub struct SelectStatementParser {
    pub state: SelectState,
}

/// The clauses with `k` set to `v`: the first clause on `k` is replaced,
/// or, when there is none, the clause is appended.
pub open spec fn clause_set(cl: Seq<(Seq<char>, Seq<char>)>, k: Seq<char>, v: Seq<char>) -> Seq<
    (Seq<char>, Seq<char>),
>
    decreases cl.len(),
{
    if cl.len() == 0 {
        seq![(k, v)]
    } else if cl[0].0 == k {
        cl.update(0, (k, v))
    } else {
        seq![cl[0]] + clause_set(cl.drop_first(), k, v)
    }
}

/// Setting a clause replaces the first clause on its column.
proof fn lemma_clause_set_at(cl: Seq<(Seq<char>, Seq<char>)>, k: Seq<char>, v: Seq<char>, i: int)
    requires
        0 <= i < cl.len(),
        cl[i].0 == k,
        forall|j: int| 0 <= j < i ==> cl[j].0 != k,
    ensures
        clause_set(cl, k, v) == cl.update(i, (k, v)),
    decreases i,
{
    if i > 0 {
        let rest = cl.drop_first();
        assert forall|j: int| 0 <= j < i - 1 implies rest[j].0 != k by {
            assert(rest[j] == cl[j + 1]);
        }
        lemma_clause_set_at(rest, k, v, i - 1);
        assert(seq![cl[0]] + rest.update(i - 1, (k, v)) =~= cl.update(i, (k, v)));
    }
}

/// Setting a clause on a new column appends it.
proof fn lemma_clause_set_new(cl: Seq<(Seq<char>, Seq<char>)>, k: Seq<char>, v: Seq<char>)
    requires
        forall|j: int| 0 <= j < cl.len() ==> cl[j].0 != k,
    ensures
        clause_set(cl, k, v) == cl.push((k, v)),
    decreases cl.len(),
{
    if cl.len() > 0 {
        let rest = cl.drop_first();
        assert forall|j: int| 0 <= j < rest.len() implies rest[j].0 != k by {
            assert(rest[j] == cl[j + 1]);
        }
        lemma_clause_set_new(rest, k, v);
        assert(seq![cl[0]] + rest.push((k, v)) =~= cl.push((k, v)));
    }
}

/// Sets `key` to `value` in the clause list: replaces the first clause on
/// that column, else appends.
fn set_clause(clauses: &mut Vec<Clause>, key: String, value: String)
    ensures
        clauses_view(final(clauses)@) == clause_set(clauses_view(old(clauses)@), key@, value@),
{
    let ghost cv = clauses_view(clauses@);
    let ghost kk = key@;
    let ghost vv = value@;
    let mut i: usize = 0;
    while i < clauses.len()
        invariant
            i <= clauses@.len(),
            *clauses == *old(clauses),
            cv == clauses_view(clauses@),
            kk == key@,
            vv == value@,
            forall|j: int| 0 <= j < i ==> cv[j].0 != kk,
        decreases clauses.len() - i,
    {
        assert(cv[i as int] == (clauses@[i as int].0@, clauses@[i as int].1@));
        if same_text(clauses[i].0.as_str(), key.as_str()) {
            proof {
                lemma_clause_set_at(cv, kk, vv, i as int);
            }
            clauses.set(i, (key, value));
            assert(clauses_view(clauses@) =~= cv.update(i as int, (kk, vv)));
            return;
        }
        i = i + 1;
    }
    proof {
        lemma_clause_set_new(cv, kk, vv);
    }
    clauses.push((key, value));
    assert(clauses_view(clauses@) =~= cv.push((kk, vv)));
}

/// What the `SELECT` parser has read: its state, the selection, the table
/// name, a clause column waiting for its value, and the clauses.
pub type SelectRead = (
    SelectState,
    Seq<Seq<char>>,
    Seq<char>,
    Seq<char>,
    Seq<(Seq<char>, Seq<char>)>,
);

/// The `SELECT` parser after one more token: `FROM` moves to the table
/// name and `WHERE` after it to the clauses; in the selection any token but
/// `SELECT` and `,` is a selected column; then any token but `;` names the
/// table; in the clauses, tokens other than `=` and `AND` alternate between
/// a column and its value.
pub open spec fn select_step(s: SelectRead, g: Seq<char>) -> SelectRead {
    match s.0 {
        SelectState::Selection => if upper_of(g) == "FROM"@ {
            (SelectState::TableName, s.1, s.2, s.3, s.4)
        } else if upper_of(g) != "SELECT"@ && g != ","@ {
            (s.0, s.1.push(g), s.2, s.3, s.4)
        } else {
            s
        },
        SelectState::TableName => if upper_of(g) == "WHERE"@ {
            (SelectState::WhereClauses, s.1, s.2, s.3, s.4)
        } else if g != ";"@ {
            (s.0, s.1, g, s.3, s.4)
        } else {
            s
        },
        SelectState::WhereClauses => if g == "="@ || g == "AND"@ {
            s
        } else if s.3.len() == 0 {
            (s.0, s.1, s.2, g, s.4)
        } else {
            (s.0, s.1, s.2, Seq::empty(), clause_set(s.4, s.3, g))
        },
    }
}

/// The `SELECT` parser after reading `gs` from `start`.
pub open spec fn select_read(start: SelectRead, gs: Seq<Seq<char>>) -> SelectRead
    decreases gs.len(),
{
    if gs.len() == 0 {
        start
    } else {
        select_step(select_read(start, gs.drop_last()), gs.last())
    }
}

impl SelectStatementParser {
    /// A parser at the start of a statement.
    pub fn new() -> (r: Self)
        ensures
            r.state == SelectState::Selection,
    {
        Self { state: SelectState::Selection }
    }

    /// Moves to the table name on `FROM`, and to the clauses on `WHERE`;
    /// true when it moved.
    fn change_parser_state(&mut self, grapheme: &str) -> (r: bool)
        ensures
            final(self).state == if r {
                if old(self).state == SelectState::Selection {
                    SelectState::TableName
                } else {
                    SelectState::WhereClauses
                }
            } else {
                old(self).state
            },
            r ==> old(self).state != SelectState::WhereClauses,
            r == ((old(self).state == SelectState::Selection && upper_of(grapheme@) == "FROM"@) || (
            old(self).state == SelectState::TableName && upper_of(grapheme@) == "WHERE"@)),
    {
        proof {
            reveal_strlit("FROM");
            reveal_strlit("WHERE");
        }
        let u = to_upper(grapheme);
        match self.state {
            SelectState::Selection => {
                if same_text(u.as_str(), "FROM") {
                    self.state = SelectState::TableName;
                    true
                } else {
                    false
                }
            },
            SelectState::TableName => {
                if same_text(u.as_str(), "WHERE") {
                    self.state = SelectState::WhereClauses;
                    true
                } else {
                    false
                }
            },
            SelectState::WhereClauses => false,
        }
    }

    /// The selected columns, the table name and the `column = value`
    /// clauses (a later clause on a column replaces an earlier one).
    pub fn parse(&mut self, graphemes: Vec<String>) -> (r: Result<Statement, String>)
        ensures
            r matches Ok(s) && statement_kind(s) == StatementType::Select,
            r matches Ok(Statement::Select { table_name, selection, where_clauses }) ==> ({
                let read = select_read(
                    (old(self).state, Seq::empty(), Seq::empty(), Seq::empty(), Seq::empty()),
                    texts(graphemes@),
                );
                &&& final(self).state == read.0
                &&& texts(selection@) == read.1
                &&& table_name@ == read.2
                &&& clauses_view(where_clauses@) == read.4
            }),
    {
        let ghost start = (
            self.state,
            Seq::<Seq<char>>::empty(),
            Seq::<char>::empty(),
            Seq::<char>::empty(),
            Seq::<(Seq<char>, Seq<char>)>::empty(),
        );
        let ghost gs = texts(graphemes@);
        let mut selection: Vec<String> = Vec::new();
        let mut table_name = String::new();
        let mut last_where_attribute = String::new();
        let mut where_clauses: Vec<Clause> = Vec::new();
        let mut i: usize = 0;
        proof {
            reveal_strlit("FROM");
            reveal_strlit("WHERE");
            reveal_strlit("SELECT");
            reveal_strlit("AND");
            reveal_strlit("=");
            reveal_strlit(",");
            reveal_strlit(";");
            assert(gs.take(0) =~= Seq::<Seq<char>>::empty());
            assert(texts(selection@) =~= Seq::<Seq<char>>::empty());
            assert(clauses_view(where_clauses@) =~= Seq::<(Seq<char>, Seq<char>)>::empty());
        }
        while i < graphemes.len()
            invariant
                i <= graphemes@.len(),
                gs == texts(graphemes@),
                (self.state, texts(selection@), table_name@, last_where_attribute@, clauses_view(where_clauses@))
                    == select_read(start, gs.take(i as int)),
            decreases graphemes.len() - i,
        {
            let g = graphemes[i].as_str();
            proof {
                assert(gs.take(i as int + 1).drop_last() =~= gs.take(i as int));
                assert(gs.take(i as int + 1).last() == g@);
            }
            let ghost sel0 = texts(selection@);
            i = i + 1;
            if self.change_parser_state(g) {
                continue;
            }
            match self.state {
                SelectState::Selection => {
                    let u = to_upper(g);
                    if !same_text(u.as_str(), "SELECT") && !same_text(g, ",") {
                        selection.push(String::from_str(g));
                        assert(texts(selection@) =~= sel0.push(g@));
                    }
                },
                SelectState::TableName => {
                    if !same_text(g, ";") {
                        table_name = String::from_str(g);
                    }
                },
                SelectState::WhereClauses => {
                    if !same_text(g, "=") && !same_text(g, "AND") {
                        if last_where_attribute.as_str().is_empty() {
                            last_where_attribute = String::from_str(g);
                        } else {
                            let key = last_where_attribute;
                            set_clause(&mut where_clauses, key, String::from_str(g));
                            last_where_attribute = String::new();
                        }
                    }
                },
            }
        }
        proof {
            assert(gs.take(gs.len() as int) =~= gs);
        }
        Ok(Statement::Select { table_name, selection, where_clauses })
    }
}

impl StatementParser for SelectStatementParser {
    fn parse_statement(&mut self, graphemes: Vec<String>) -> Result<Statement, String> {
        self.parse(graphemes)
    }
}

/// Where the `CREATE INDEX` parser is.
#[derive(Clone, Copy, PartialEq, Eq, Structural)]
pub enum CreateIndexState {
    Index,
    Table,
    Column,
}

/// What the `CREATE INDEX` parser has read: its state, the table, the
/// column and the index name.
pub type CreateIndexRead = (CreateIndexState, Seq<char>, Seq<char>, Seq<char>);

/// The `CREATE INDEX` parser after one more token: `ON` moves to the
/// table, `(` after it to the column; before `ON` any word but `CREATE` and
/// `INDEX` names the index, the word after `ON` names the table, and after
/// that any token but `(`, `)` and `;` names the column.
pub open spec fn create_index_step(s: CreateIndexRead, g: Seq<char>) -> CreateIndexRead {
    match s.0 {
        CreateIndexState::Index => if upper_of(g) == "ON"@ {
            (CreateIndexState::Table, s.1, s.2, s.3)
        } else if upper_of(g) != "CREATE"@ && upper_of(g) != "INDEX"@ {
            (s.0, s.1, s.2, g)
        } else {
            s
        },
        CreateIndexState::Table => if g == "("@ {
            (CreateIndexState::Column, s.1, s.2, s.3)
        } else {
            (CreateIndexState::Column, g, s.2, s.3)
        },
        CreateIndexState::Column => if g != "("@ && g != ")"@ && g != ";"@ {
            (s.0, s.1, g, s.3)
        } else {
            s
        },
    }
}

/// The `CREATE INDEX` parser after reading `gs` from `start`.
pub open spec fn create_index_read(start: CreateIndexRead, gs: Seq<Seq<char>>) -> CreateIndexRead
    decreases gs.len(),
{
    if gs.len() == 0 {
        start
    } else {
        create_index_step(create_index_read(start, gs.drop_last()), gs.last())
    }
}

/// Parses `CREATE INDEX name ON table(column);`.
pub struct CreateIndexStatementParser {
    pub state: CreateIndexState,
}

impl CreateIndexStatementParser {
    /// A parser at the start of a statement.
    pub fn new() -> (r: Self)
        ensures
            r.state == CreateIndexState::Index,
    {
        Self { state: CreateIndexState::Index }
    }

    /// Moves to the table on `ON`, and to the column on `(`; true when it
    /// moved.
    fn change_parser_state(&mut self, grapheme: &str) -> (r: bool)
        ensures
            final(self).state == if r {
                if old(self).state == CreateIndexState::Index {
                    CreateIndexState::Table
                } else {
                    CreateIndexState::Column
                }
            } else {
                old(self).state
            },
            r ==> old(self).state != CreateIndexState::Column,
            r == ((old(self).state == CreateIndexState::Index && upper_of(grapheme@) == "ON"@) || (
            old(self).state == CreateIndexState::Table && grapheme@ == "("@)),
    {
        proof {
            reveal_strlit("ON");
            reveal_strlit("(");
        }
        match self.state {
            CreateIndexState::Index => {
                let u = to_upper(grapheme);
                if same_text(u.as_str(), "ON") {
                    self.state = CreateIndexState::Table;
                    true
                } else {
                    false
                }
            },
            CreateIndexState::Table => {
                if same_text(grapheme, "(") {
                    self.state = CreateIndexState::Column;
                    true
                } else {
                    false
                }
            },
            CreateIndexState::Column => false,
        }
    }

    /// The index name, the table name and the column name.
    pub fn parse(&mut self, graphemes: Vec<String>) -> (r: Result<Statement, String>)
        ensures
            r matches Ok(s) && statement_kind(s) == StatementType::CreateIndex,
            r matches Ok(Statement::CreateIndex { table_name, column_name, index_name }) ==> ({
                let read = create_index_read(
                    (old(self).state, Seq::empty(), Seq::empty(), Seq::empty()),
                    texts(graphemes@),
                );
                &&& final(self).state == read.0
                &&& table_name@ == read.1
                &&& column_name@ == read.2
                &&& index_name@ == read.3
            }),
    {
        let ghost start = (self.state, Seq::<char>::empty(), Seq::<char>::empty(), Seq::<char>::empty());
        let ghost gs = texts(graphemes@);
        let mut table_name = String::new();
        let mut column_name = String::new();
        let mut index_name = String::new();
        let mut i: usize = 0;
        proof {
            reveal_strlit("ON");
            reveal_strlit("CREATE");
            reveal_strlit("INDEX");
            reveal_strlit("(");
            reveal_strlit(")");
            reveal_strlit(";");
            assert(gs.take(0) =~= Seq::<Seq<char>>::empty());
        }
        while i < graphemes.len()
            invariant
                i <= graphemes@.len(),
                gs == texts(graphemes@),
                (self.state, table_name@, column_name@, index_name@) == create_index_read(start, gs.take(i as int)),
            decreases graphemes.len() - i,
        {
            let g = graphemes[i].as_str();
            proof {
                assert(gs.take(i as int + 1).drop_last() =~= gs.take(i as int));
                assert(gs.take(i as int + 1).last() == g@);
            }
            i = i + 1;
            if self.change_parser_state(g) {
                continue;
            }
            match self.state {
                CreateIndexState::Index => {
                    let u = to_upper(g);
                    if !same_text(u.as_str(), "CREATE") && !same_text(u.as_str(), "INDEX") {
                        index_name = String::from_str(g);
                    }
                },
                CreateIndexState::Table => {
                    table_name = String::from_str(g);
                    self.state = CreateIndexState::Column;
                },
                CreateIndexState::Column => {
                    if !same_text(g, "(") && !same_text(g, ")") && !same_text(g, ";") {
                        column_name = String::from_str(g);
                    }
                },
            }
        }
        proof {
            assert(gs.take(gs.len() as int) =~= gs);
        }
        Ok(Statement::CreateIndex { table_name, column_name, index_name })
    }
}

impl StatementParser for CreateIndexStatementParser {
    fn parse_statement(&mut self, graphemes: Vec<String>) -> Result<Statement, String> {
        self.parse(graphemes)
    }
}

/// One parser per statement kind.
pub enum AnyStatementParser {
    CreateTable(CreateTableStatementParser),
    CreateIndex(CreateIndexStatementParser),
    Select(SelectStatementParser),
    InsertInto(InsertIntoParser),
}

/// Whether `s` is what the parser of its kind, from its start, reads from
/// the tokens `gs`.
pub open spec fn parsed_from(s: Statement, gs: Seq<Seq<char>>) -> bool {
    match s {
        Statement::CreateTable { table_name, columns } => {
            let x = create_table_read(
                (CreateTableState::TableName, Seq::empty(), Seq::empty(), Seq::empty()),
                gs,
            );
            table_name@ == x.1 && descriptions(columns@) == x.2
        },
        Statement::CreateIndex { table_name, column_name, index_name } => {
            let x = create_index_read(
                (CreateIndexState::Index, Seq::empty(), Seq::empty(), Seq::empty()),
                gs,
            );
            table_name@ == x.1 && column_name@ == x.2 && index_name@ == x.3
        },
        Statement::Select { table_name, selection, where_clauses } => {
            let x = select_read(
                (SelectState::Selection, Seq::empty(), Seq::empty(), Seq::empty(), Seq::empty()),
                gs,
            );
            texts(selection@) == x.1 && table_name@ == x.2 && clauses_view(where_clauses@) == x.4
        },
        Statement::InsertInto { table_name, column_names, values } => {
            &&& insert_read(
                (InsertState::TableName, Seq::empty(), Seq::empty(), Seq::empty(), Seq::empty()),
                gs,
            ) is Some
            &&& ({
                let x = insert_read(
                    (InsertState::TableName, Seq::empty(), Seq::empty(), Seq::empty(), Seq::empty()),
                    gs,
                )->0;
                table_name@ == x.1 && texts(column_names@) == x.2 && descriptions(values@) == x.3
            })
        },
    }
}

/// Whether the `INSERT INTO` parser, from its start, refuses the tokens.
pub open spec fn insert_refused(gs: Seq<Seq<char>>) -> bool {
    insert_read((InsertState::TableName, Seq::empty(), Seq::empty(), Seq::empty(), Seq::empty()), gs)
        is None
}

impl AnyStatementParser {
    /// Whether the parser is at the start of a statement.
    pub open spec fn fresh(&self) -> bool {
        match self {
            AnyStatementParser::CreateTable(p) => p.state == CreateTableState::TableName,
            AnyStatementParser::CreateIndex(p) => p.state == CreateIndexState::Index,
            AnyStatementParser::Select(p) => p.state == SelectState::Selection,
            AnyStatementParser::InsertInto(p) => p.state == InsertState::TableName,
        }
    }

    /// The kind of statement this parser reads.
    pub open spec fn kind(&self) -> StatementType {
        match self {
            AnyStatementParser::CreateTable(_) => StatementType::CreateTable,
            AnyStatementParser::CreateIndex(_) => StatementType::CreateIndex,
            AnyStatementParser::Select(_) => StatementType::Select,
            AnyStatementParser::InsertInto(_) => StatementType::InsertInto,
        }
    }

    /// Parses the tokens with the parser of this kind.
    pub fn parse(&mut self, graphemes: Vec<String>) -> (r: Result<Statement, String>)
        requires
            old(self).fresh(),
        ensures
            r matches Ok(s) ==> statement_kind(s) == old(self).kind() && parsed_from(s, texts(graphemes@)),
            r matches Err(m) ==> old(self).kind() == StatementType::InsertInto && m@ == ROW_LENGTH_MISMATCH@,
            r is Err <==> (old(self).kind() == StatementType::InsertInto && insert_refused(texts(graphemes@))),
    {
        match self {
            AnyStatementParser::CreateTable(p) => p.parse(graphemes),
            AnyStatementParser::CreateIndex(p) => p.parse(graphemes),
            AnyStatementParser::Select(p) => p.parse(graphemes),
            AnyStatementParser::InsertInto(p) => p.parse(graphemes),
        }
    }
}

impl StatementParser for AnyStatementParser {
    fn parse_statement(&mut self, graphemes: Vec<String>) -> Result<Statement, String> {
        match self {
            AnyStatementParser::CreateTable(p) => p.parse(graphemes),
            AnyStatementParser::CreateIndex(p) => p.parse(graphemes),
            AnyStatementParser::Select(p) => p.parse(graphemes),
            AnyStatementParser::InsertInto(p) => p.parse(graphemes),
        }
    }
}

/// The parser for statements of kind `statement_type`.
pub fn statement_parser_factory(statement_type: StatementType) -> (r: AnyStatementParser)
    requires
        statement_type != StatementType::Invalid,
    ensures
        r.kind() == statement_type,
        r.fresh(),
{
    match statement_type {
        StatementType::CreateTable => AnyStatementParser::CreateTable(CreateTableStatementParser::new()),
        StatementType::CreateIndex => AnyStatementParser::CreateIndex(CreateIndexStatementParser::new()),
        StatementType::Select => AnyStatementParser::Select(SelectStatementParser::new()),
        StatementType::InsertInto => AnyStatementParser::InsertInto(InsertIntoParser::new()),
        StatementType::Invalid => AnyStatementParser::Select(SelectStatementParser::new()),
    }
}

/// The error of query text whose last token is not `;`.
pub const MISSING_SEMICOLON: &'static str = "Your statement must end with a semicolon.";

/// The error of query text too short to be a statement.
pub const INVALID_QUERY: &'static str = "Invalid query.";

/// The error of query text that starts with no known statement keyword.
pub const UNKNOWN_STATEMENT: &'static str = "Unimplemented Command. Please use 'SELECT', 'CREATE TABLE', 'CREATE INDEX' or 'INSERT'";

/// Parses query text into statements.
pub struct SqlParser {}

impl SqlParser {
    /// A parser.
    pub fn new() -> (r: Self) {
        SqlParser {  }
    }

    /// Parses `input`: splits it into tokens, reads the statement kind from
    /// the first one or two, and parses the tokens with that kind's parser.
    pub fn parse_query(&self, input: String) -> (r: QueryResult)
        ensures
            ({
                let toks = tokens_of(input@);
                &&& (toks.len() == 0 || toks.last() != ";"@) ==> (r matches Err(m) && m@ == MISSING_SEMICOLON@)
                &&& (toks.len() == 1 && toks.last() == ";"@) ==> (r matches Err(m) && m@ == INVALID_QUERY@)
                &&& (toks.len() >= 2 && toks.last() == ";"@ && kind_of(toks[0], toks[1]) == StatementType::Invalid)
                    ==> (r matches Err(m) && m@ == UNKNOWN_STATEMENT@)
                &&& (toks.len() >= 2 && toks.last() == ";"@ && kind_of(toks[0], toks[1]) != StatementType::Select
                    && kind_of(toks[0], toks[1]) != StatementType::InsertInto && kind_of(toks[0], toks[1]) != StatementType::Invalid) ==> r is Ok
                &&& (toks.len() >= 2 && toks.last() == ";"@ && kind_of(toks[0], toks[1]) == StatementType::Select) ==> r is Ok
                &&& r matches Ok(q) ==> q.text@ == input@ && toks.len() >= 2 && statement_kind(q.statement) == kind_of(toks[0], toks[1])
                    && parsed_from(q.statement, toks)
                &&& (toks.len() >= 2 && toks.last() == ";"@ && kind_of(toks[0], toks[1]) == StatementType::InsertInto)
                    ==> (r is Ok <==> !insert_refused(toks))
                &&& (toks.len() >= 2 && toks.last() == ";"@ && kind_of(toks[0], toks[1]) == StatementType::InsertInto
                    && insert_refused(toks)) ==> (r matches Err(m) && m@ == ROW_LENGTH_MISMATCH@)
            }),
    {
        let graphemes = graphemes(input.as_str());
        let ghost toks = tokens_of(input@);
        assert(texts(graphemes@) == toks);
        proof {
            reveal_strlit(";");
        }
        let n = graphemes.len();
        if n == 0 || !same_text(graphemes[n - 1].as_str(), ";") {
            return Err(String::from_str(MISSING_SEMICOLON));
        }
        if n < 2 {
            return Err(String::from_str(INVALID_QUERY));
        }
        assert(toks[0] == graphemes@[0]@ && toks[1] == graphemes@[1]@);
        let statement_type = StatementType::new(graphemes[0].as_str(), graphemes[1].as_str());
        if statement_type.id() == 0 {
            return Err(String::from_str(UNKNOWN_STATEMENT));
        }
        let mut parser = statement_parser_factory(statement_type);
        match parser.parse(graphemes) {
            Ok(statement) => Ok(Query::new(input, statement)),
            Err(message) => Err(message),
        }
    }
}

} // verus!
