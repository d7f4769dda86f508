//! Query text in, engine result out.
use vstd::prelude::*;

use crate::engine::{execute_post, io_engine_factory, BinaryEngine, EngineResult, Type};
use crate::statement::Statement;
use crate::sql_parser::{
    insert_refused, kind_of, parsed_from, statement_kind, tokens_of, SqlParser, StatementType,
    MISSING_SEMICOLON, ROW_LENGTH_MISMATCH, UNKNOWN_STATEMENT,
};

verus! {

/// A parser in front of a storage engine.
pub struct SQLEngine {
    pub input_parser: SqlParser,
    pub io_engine: BinaryEngine,
}

impl SQLEngine {
    /// Well formed when the engine is.
    pub open spec fn wf(&self) -> bool {
        self.io_engine.wf()
    }

    /// A parser in front of a new, empty engine of the given kind.
    pub fn new(io_type: Type) -> (r: Self)
        ensures
            r.wf(),
            forall|n: Seq<char>| !r.io_engine.has_table(n),
    {
        SQLEngine { input_parser: SqlParser::new(), io_engine: io_engine_factory(io_type) }
    }

    /// Parses `query` and runs it; a parse error is returned as it is,
    /// with the engine unchanged.
    pub fn execute(&mut self, query: String) -> (r: EngineResult)
        requires
            old(self).wf(),
        ensures
            final(self).wf(),
            (tokens_of(query@).len() == 0 || tokens_of(query@).last() != ";"@) ==> (r matches Err(m)
                && m@ == MISSING_SEMICOLON@ && final(self).io_engine == old(self).io_engine),
            (tokens_of(query@).len() >= 2 && tokens_of(query@).last() == ";"@ && kind_of(
                tokens_of(query@)[0],
                tokens_of(query@)[1],
            ) == StatementType::Invalid) ==> (r matches Err(m) && m@ == UNKNOWN_STATEMENT@
                && final(self).io_engine == old(self).io_engine),
            ({
                let toks = tokens_of(query@);
                (toks.len() >= 2 && toks.last() == ";"@ && kind_of(toks[0], toks[1]) == StatementType::InsertInto
                    && insert_refused(toks)) ==> (r matches Err(m) && m@ == ROW_LENGTH_MISMATCH@
                    && final(self).io_engine == old(self).io_engine)
            }),
            ({
                let toks = tokens_of(query@);
                (toks.len() >= 2 && toks.last() == ";"@ && kind_of(toks[0], toks[1]) != StatementType::Invalid
                    && !(kind_of(toks[0], toks[1]) == StatementType::InsertInto && insert_refused(toks)))
                    ==> exists|s: Statement|
                    statement_kind(s) == kind_of(toks[0], toks[1]) && parsed_from(s, toks) && execute_post(
                        old(self).io_engine,
                        final(self).io_engine,
                        s,
                        r,
                    )
            }),
    {
        let ghost toks = tokens_of(query@);
        match self.input_parser.parse_query(query) {
            Ok(q) => {
                let ghost s = q.statement;
                let r = self.io_engine.execute(q);
                assert(statement_kind(s) == kind_of(toks[0], toks[1]) && parsed_from(s, toks));
                r
            },
            Err(message) => Err(message),
        }
    }
}

} // verus!
