//! Running a script: its statements are parsed one at a time, so that a
//! caller can run each request before the next statement is read.

use vstd::prelude::*;
use crate::error::Error;
use crate::lexer::{lex, lex_statements, statements_view, Token, TokenView};
use crate::parser::{statement_call, statement_error, statement_fails, CallType, Env, Parser};
use crate::table::StringMap;

verus! {

/// Steps through the statements of a script.
pub struct QueryExecutor {
    statements: Vec<Vec<Token>>,
    parser: Parser,
    position: usize,
}

impl QueryExecutor {
    pub closed spec fn statements(&self) -> Seq<Seq<TokenView>> {
        statements_view(self.statements@)
    }

    pub closed spec fn env(&self) -> Env {
        self.parser.env()
    }

    /// How many statements have been handed out.
    pub closed spec fn position(&self) -> nat {
        self.position as nat
    }

    pub closed spec fn wf(&self) -> bool {
        &&& self.parser.wf()
        &&& self.position <= self.statements@.len()
    }

    /// A run of `source` with `$name` arguments taken from `env`.
    pub fn new(source: String, env: StringMap) -> (r: QueryExecutor)
        requires
            env.wf(),
        ensures
            r.wf(),
            r.statements() == lex_statements(source@),
            r.env() == env@,
            r.position() == 0,
    {
        QueryExecutor { statements: lex(source), parser: Parser::new(env), position: 0 }
    }

    /// The next statement, parsed; `None` once every statement was handed
    /// out.
    pub fn next_call(&mut self) -> (r: Option<Result<CallType, Error>>)
        requires
            old(self).wf(),
        ensures
            final(self).wf(),
            final(self).statements() == old(self).statements(),
            final(self).env() == old(self).env(),
            old(self).position() == old(self).statements().len() ==> r is None && final(self).position()
                == old(self).position(),
            old(self).position() < old(self).statements().len() ==> {
                let ts = old(self).statements()[old(self).position() as int];
                &&& r is Some
                &&& final(self).position() == old(self).position() + 1
                &&& (r->Some_0 is Err <==> statement_fails(old(self).env(), ts))
                &&& (r->Some_0 is Err ==> statement_error(r->Some_0->Err_0, old(self).env(), ts))
                &&& (r->Some_0 is Ok ==> statement_call(r->Some_0->Ok_0, old(self).env(), ts))
            },
    {
        if self.position >= self.statements.len() {
            return None;
        }
        let mut tokens: Vec<Token> = Vec::new();
        let i = self.position;
        let mut j: usize = 0;
        while j < self.statements[i].len()
            invariant
                i < self.statements@.len(),
                0 <= j <= self.statements@[i as int]@.len(),
                tokens@ == self.statements@[i as int]@.subrange(0, j as int),
            decreases self.statements@[i as int]@.len() - j,
        {
            tokens.push(self.statements[i][j].duplicate());
            j = j + 1;
            assert(tokens@ =~= self.statements@[i as int]@.subrange(0, j as int));
        }
        assert(tokens@ =~= self.statements@[i as int]@);
        self.position = self.position + 1;
        Some(self.parser.execute(tokens))
    }
}

} // verus!
