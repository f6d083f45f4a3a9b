//! The parser of the query language: one statement of tokens becomes one
//! request, with `$name` arguments taken from an environment and a trailing
//! `?` on the command asking not to wait for the answer.

use vstd::prelude::*;
use crate::error::Error;
use crate::lexer::{same_chars, tokens_view, Token, TokenView};
use crate::messaging::Request;
use crate::number::{parse_uint, parses_as_uint, uint_value};
use crate::table::StringMap;
use crate::text::{chars_of, owned, string_of};

verus! {

/// How a parsed request is to be run.
#[derive(Debug, Clone, PartialEq, Eq)]
pub enum CallType {
    /// Run it and wait for the answer, which joins the results.
    Await(Request),
    /// Run it without waiting; its answer is dropped.
    Spawn(Request),
}

pub type Env = Map<Seq<char>, Seq<char>>;

/// An argument after substitution: `$name` becomes the value bound to
/// `name`; anything else, and an unbound `$name`, stays as written.
pub open spec fn substitute(env: Env, t: Seq<char>) -> Seq<char> {
    if t.len() > 0 && t[0] == '$' && env.contains_key(t.drop_first()) {
        env[t.drop_first()]
    } else {
        t
    }
}

pub open spec fn is_spawn_word(w: Seq<char>) -> bool {
    w.len() > 0 && w.last() == '?'
}

/// The command word without its `?`.
pub open spec fn command_name(w: Seq<char>) -> Seq<char> {
    if is_spawn_word(w) {
        w.drop_last()
    } else {
        w
    }
}

pub open spec fn command_words() -> Seq<Seq<char>> {
    seq![
        seq!['s', 'e', 't'],
        seq!['g', 'e', 't'],
        seq!['d', 'e', 'l', 'e', 't', 'e'],
        seq!['e', 'x', 'i', 's', 't', 's'],
        seq!['i', 'n', 'c', 'r'],
        seq!['d', 'e', 'c', 'r'],
        seq!['s', 'e', 'a', 'r', 'c', 'h'],
        seq!['f', 'l', 'u', 's', 'h'],
        seq!['d', 'o', 'w', 'n', 'g', 'r', 'a', 'd', 'e'],
    ]
}

/// The position of a command in `command_words`, or -1 when it is unknown.
pub open spec fn command_index(name: Seq<char>) -> int {
    if exists|i: int| 0 <= i < 9 && command_words()[i] == name {
        choose|i: int| 0 <= i < 9 && command_words()[i] == name
    } else {
        -1
    }
}

/// How many arguments each command takes.
pub open spec fn arity(idx: int) -> nat {
    seq![2nat, 1, 1, 1, 2, 2, 1, 0, 0][idx]
}

pub open spec fn arity_message(idx: int) -> Seq<char> {
    if idx == 0 {
        "Set command requires two (2) argument"@
    } else if idx == 1 {
        "Get command requires one (1) argument"@
    } else if idx == 2 {
        "Delete command requires one (1) argument"@
    } else if idx == 3 {
        "Exists command requires one (1) argument"@
    } else if idx == 4 {
        "Increment command requires two (2) argument"@
    } else if idx == 5 {
        "Decrement command requires two (2) argument"@
    } else if idx == 6 {
        "Search command requires one (1) argument"@
    } else if idx == 7 {
        "Flush command can't take any value"@
    } else {
        "Downgrade permission command can't take any value"@
    }
}

pub open spec fn amount_message(idx: int) -> Seq<char> {
    if idx == 4 {
        "Second argument for increment command must be a valid unsigned integer"@
    } else {
        "Second argument for decrement command must be a valid unsigned integer"@
    }
}

/// A parse error with this message at this token.
pub open spec fn error_at(e: Error, msg: Seq<char>, t: TokenView) -> bool {
    match e {
        Error::CommandError(m, line, column) => m@ == msg && line as nat == t.1 && column as nat
            == t.2,
        _ => false,
    }
}

pub open spec fn arg(env: Env, ts: Seq<TokenView>, i: int) -> Seq<char> {
    substitute(env, ts[i].0)
}

/// Whether the statement of command `idx` fails: a wrong number of
/// arguments, or an amount that is not an unsigned number.
pub open spec fn command_fails(env: Env, ts: Seq<TokenView>, idx: int) -> bool {
    ts.len() != arity(idx) + 1 || ((idx == 4 || idx == 5) && !parses_as_uint(arg(env, ts, 2)))
}

/// The error for a failing statement of command `idx`.
pub open spec fn command_error(e: Error, env: Env, ts: Seq<TokenView>, idx: int) -> bool {
    if ts.len() != arity(idx) + 1 {
        error_at(e, arity_message(idx), ts[0])
    } else {
        error_at(e, amount_message(idx), ts[2])
    }
}

/// The request for a well-formed statement of command `idx`.
pub open spec fn command_request(r: Request, env: Env, ts: Seq<TokenView>, idx: int) -> bool {
    match r {
        Request::SetKey(k, v) => idx == 0 && k@ == arg(env, ts, 1) && v@ == arg(env, ts, 2),
        Request::Get(k) => idx == 1 && k@ == arg(env, ts, 1),
        Request::Delete(k) => idx == 2 && k@ == arg(env, ts, 1),
        Request::Exists(k) => idx == 3 && k@ == arg(env, ts, 1),
        Request::Increment(k, n) => idx == 4 && k@ == arg(env, ts, 1) && n as nat == uint_value(
            arg(env, ts, 2),
        ),
        Request::Decrement(k, n) => idx == 5 && k@ == arg(env, ts, 1) && n as nat == uint_value(
            arg(env, ts, 2),
        ),
        Request::Search(k) => idx == 6 && k@ == arg(env, ts, 1),
        Request::Flush => idx == 7,
        Request::DowngradePermission => idx == 8,
    }
}

pub open spec fn command_outcome(r: Result<Request, Error>, env: Env, ts: Seq<TokenView>, idx: int) -> bool {
    match r {
        Ok(req) => !command_fails(env, ts, idx) && command_request(req, env, ts, idx),
        Err(e) => command_fails(env, ts, idx) && command_error(e, env, ts, idx),
    }
}

/// Whether a statement fails to parse.
pub open spec fn statement_fails(env: Env, ts: Seq<TokenView>) -> bool {
    ts.len() == 0 || command_index(command_name(ts[0].0)) < 0 || command_fails(
        env,
        ts,
        command_index(command_name(ts[0].0)),
    )
}

/// The error of a statement that fails to parse.
pub open spec fn statement_error(e: Error, env: Env, ts: Seq<TokenView>) -> bool {
    if ts.len() == 0 {
        e == Error::CommandNotFound
    } else if command_index(command_name(ts[0].0)) < 0 {
        error_at(e, "Command not found"@, ts[0])
    } else {
        command_error(e, env, ts, command_index(command_name(ts[0].0)))
    }
}

/// The call of a statement that parses.
pub open spec fn statement_call(c: CallType, env: Env, ts: Seq<TokenView>) -> bool {
    let idx = command_index(command_name(ts[0].0));
    match c {
        CallType::Await(r) => !is_spawn_word(ts[0].0) && command_request(r, env, ts, idx),
        CallType::Spawn(r) => is_spawn_word(ts[0].0) && command_request(r, env, ts, idx),
    }
}

/// Turns statements into requests, with `$name` arguments taken from an
/// environment.
pub struct Parser {
    env: StringMap,
}

proof fn lemma_command_words_distinct()
    ensures
        forall|i: int, j: int| 0 <= i < 9 && 0 <= j < 9 && i != j ==> command_words()[i] != command_words()[j],
{
    let w = command_words();
    assert forall|i: int, j: int| 0 <= i < 9 && 0 <= j < 9 && i != j implies w[i] != w[j] by {
        if w[i].len() == w[j].len() {
            assert(w[i][0] != w[j][0] || w[i][1] != w[j][1] || w[i][2] != w[j][2]);
        }
    }
}

/// The position of `name` among the command words; 9 when it is none.
fn command_index_of(name: &Vec<char>) -> (r: usize)
    ensures
        r < 9 ==> r as int == command_index(name@),
        r >= 9 ==> command_index(name@) == -1,
        r <= 9,
{
    let words: [Vec<char>; 9] = [
        vec!['s', 'e', 't'],
        vec!['g', 'e', 't'],
        vec!['d', 'e', 'l', 'e', 't', 'e'],
        vec!['e', 'x', 'i', 's', 't', 's'],
        vec!['i', 'n', 'c', 'r'],
        vec!['d', 'e', 'c', 'r'],
        vec!['s', 'e', 'a', 'r', 'c', 'h'],
        vec!['f', 'l', 'u', 's', 'h'],
        vec!['d', 'o', 'w', 'n', 'g', 'r', 'a', 'd', 'e'],
    ];
    assert forall|i: int| 0 <= i < 9 implies #[trigger] words@[i]@ == command_words()[i] by {
        assert(words@[0]@ =~= command_words()[0]);
        assert(words@[1]@ =~= command_words()[1]);
        assert(words@[2]@ =~= command_words()[2]);
        assert(words@[3]@ =~= command_words()[3]);
        assert(words@[4]@ =~= command_words()[4]);
        assert(words@[5]@ =~= command_words()[5]);
        assert(words@[6]@ =~= command_words()[6]);
        assert(words@[7]@ =~= command_words()[7]);
        assert(words@[8]@ =~= command_words()[8]);
    }
    proof { lemma_command_words_distinct(); }
    let mut i: usize = 0;
    while i < 9
        invariant
            0 <= i <= 9,
            forall|k: int| 0 <= k < 9 ==> #[trigger] words@[k]@ == command_words()[k],
            forall|k: int| 0 <= k < i ==> command_words()[k] != name@,
        decreases 9 - i,
    {
        if same_chars(&words[i], name) {
            assert(command_words()[i as int] == name@);
            return i;
        }
        i = i + 1;
    }
    9
}

fn command_error_at(msg: &str, token: &Token) -> (e: Error)
    ensures
        error_at(e, msg@, crate::lexer::token_view(*token)),
{
    Error::CommandError(owned(msg), token.line, token.column)
}

impl Parser {
    pub closed spec fn env(&self) -> Env {
        self.env@
    }

    pub closed spec fn wf(&self) -> bool {
        self.env.wf()
    }

    /// A parser that reads `$name` from `env`.
    pub fn new(env: StringMap) -> (r: Parser)
        requires
            env.wf(),
        ensures
            r.wf(),
            r.env() == env@,
    {
        Parser { env }
    }

    /// The value bound to `value` without its `$`, when `value` starts
    /// with `$` and the name is bound; otherwise `value` as written.
    pub fn fetch_env(&self, value: &str) -> (r: String)
        requires
            self.wf(),
        ensures
            r@ == substitute(self.env(), value@),
    {
        let cs = chars_of(value);
        if cs.len() > 0 && cs[0] == '$' {
            let mut rest: Vec<char> = Vec::new();
            let mut i: usize = 1;
            while i < cs.len()
                invariant
                    1 <= i <= cs@.len(),
                    rest@ == cs@.subrange(1, i as int),
                decreases cs@.len() - i,
            {
                rest.push(cs[i]);
                i = i + 1;
                assert(rest@ =~= cs@.subrange(1, i as int));
            }
            assert(rest@ =~= value@.drop_first());
            let name = string_of(&rest);
            match self.env.get(name.as_str()) {
                Some(v) => return v,
                None => {},
            }
        }
        owned(value)
    }

    fn parse_set(&self, tokens: &Vec<Token>) -> (r: Result<Request, Error>)
        requires
            self.wf(),
            tokens@.len() >= 1,
        ensures
            command_outcome(r, self.env(), tokens_view(tokens@), 0),
    {
        if tokens.len() != 3 {
            Err(command_error_at("Set command requires two (2) argument", &tokens[0]))
        } else {
            let key = self.fetch_env(tokens[1].value.as_str());
            let value = self.fetch_env(tokens[2].value.as_str());
            Ok(Request::SetKey(key, value))
        }
    }

    fn parse_get(&self, tokens: &Vec<Token>) -> (r: Result<Request, Error>)
        requires
            self.wf(),
            tokens@.len() >= 1,
        ensures
            command_outcome(r, self.env(), tokens_view(tokens@), 1),
    {
        if tokens.len() != 2 {
            Err(command_error_at("Get command requires one (1) argument", &tokens[0]))
        } else {
            Ok(Request::Get(self.fetch_env(tokens[1].value.as_str())))
        }
    }

    fn parse_delete(&self, tokens: &Vec<Token>) -> (r: Result<Request, Error>)
        requires
            self.wf(),
            tokens@.len() >= 1,
        ensures
            command_outcome(r, self.env(), tokens_view(tokens@), 2),
    {
        if tokens.len() != 2 {
            Err(command_error_at("Delete command requires one (1) argument", &tokens[0]))
        } else {
            Ok(Request::Delete(self.fetch_env(tokens[1].value.as_str())))
        }
    }

    fn parse_exists(&self, tokens: &Vec<Token>) -> (r: Result<Request, Error>)
        requires
            self.wf(),
            tokens@.len() >= 1,
        ensures
            command_outcome(r, self.env(), tokens_view(tokens@), 3),
    {
        if tokens.len() != 2 {
            Err(command_error_at("Exists command requires one (1) argument", &tokens[0]))
        } else {
            Ok(Request::Exists(self.fetch_env(tokens[1].value.as_str())))
        }
    }

    fn parse_increment(&self, tokens: &Vec<Token>) -> (r: Result<Request, Error>)
        requires
            self.wf(),
            tokens@.len() >= 1,
        ensures
            command_outcome(r, self.env(), tokens_view(tokens@), 4),
    {
        if tokens.len() != 3 {
            return Err(command_error_at("Increment command requires two (2) argument", &tokens[0]));
        }
        let key = self.fetch_env(tokens[1].value.as_str());
        let value = self.fetch_env(tokens[2].value.as_str());
        match parse_uint(value.as_str()) {
            Some(number) => Ok(Request::Increment(key, number)),
            None => Err(
                command_error_at(
                    "Second argument for increment command must be a valid unsigned integer",
                    &tokens[2],
                ),
            ),
        }
    }

    fn parse_decrement(&self, tokens: &Vec<Token>) -> (r: Result<Request, Error>)
        requires
            self.wf(),
            tokens@.len() >= 1,
        ensures
            command_outcome(r, self.env(), tokens_view(tokens@), 5),
    {
        if tokens.len() != 3 {
            return Err(command_error_at("Decrement command requires two (2) argument", &tokens[0]));
        }
        let key = self.fetch_env(tokens[1].value.as_str());
        let value = self.fetch_env(tokens[2].value.as_str());
        match parse_uint(value.as_str()) {
            Some(number) => Ok(Request::Decrement(key, number)),
            None => Err(
                command_error_at(
                    "Second argument for decrement command must be a valid unsigned integer",
                    &tokens[2],
                ),
            ),
        }
    }

    fn parse_search(&self, tokens: &Vec<Token>) -> (r: Result<Request, Error>)
        requires
            self.wf(),
            tokens@.len() >= 1,
        ensures
            command_outcome(r, self.env(), tokens_view(tokens@), 6),
    {
        if tokens.len() != 2 {
            Err(command_error_at("Search command requires one (1) argument", &tokens[0]))
        } else {
            Ok(Request::Search(self.fetch_env(tokens[1].value.as_str())))
        }
    }

    fn parse_flush(&self, tokens: &Vec<Token>) -> (r: Result<Request, Error>)
        requires
            self.wf(),
            tokens@.len() >= 1,
        ensures
            command_outcome(r, self.env(), tokens_view(tokens@), 7),
    {
        if tokens.len() != 1 {
            Err(command_error_at("Flush command can't take any value", &tokens[0]))
        } else {
            Ok(Request::Flush)
        }
    }

    fn parse_downgrade(&self, tokens: &Vec<Token>) -> (r: Result<Request, Error>)
        requires
            self.wf(),
            tokens@.len() >= 1,
        ensures
            command_outcome(r, self.env(), tokens_view(tokens@), 8),
    {
        if tokens.len() != 1 {
            Err(command_error_at("Downgrade permission command can't take any value", &tokens[0]))
        } else {
            Ok(Request::DowngradePermission)
        }
    }

    /// Parses one statement. An empty statement gives `CommandNotFound`; an
    /// unknown command, a wrong number of arguments or an amount that is
    /// not an unsigned number give `CommandError` with the offending
    /// token's line and column.
    pub fn execute(&self, tokens: Vec<Token>) -> (r: Result<CallType, Error>)
        requires
            self.wf(),
        ensures
            r is Err <==> statement_fails(self.env(), tokens_view(tokens@)),
            r is Err ==> statement_error(r->Err_0, self.env(), tokens_view(tokens@)),
            r is Ok ==> statement_call(r->Ok_0, self.env(), tokens_view(tokens@)),
    {
        let ghost ts = tokens_view(tokens@);
        if tokens.len() == 0 {
            return Err(Error::CommandNotFound);
        }
        let word = chars_of(tokens[0].value.as_str());
        let is_cast = word.len() > 0 && word[word.len() - 1] == '?';
        let mut name: Vec<char> = Vec::new();
        let end: usize = if is_cast { word.len() - 1 } else { word.len() };
        let mut i: usize = 0;
        while i < end
            invariant
                end <= word@.len(),
                0 <= i <= end,
                name@ == word@.subrange(0, i as int),
            decreases end - i,
        {
            name.push(word[i]);
            i = i + 1;
            assert(name@ =~= word@.subrange(0, i as int));
        }
        assert(ts[0].0 == word@);
        assert(name@ =~= command_name(word@));
        let idx = command_index_of(&name);
        let request = if idx == 0 {
            self.parse_set(&tokens)
        } else if idx == 1 {
            self.parse_get(&tokens)
        } else if idx == 2 {
            self.parse_delete(&tokens)
        } else if idx == 3 {
            self.parse_exists(&tokens)
        } else if idx == 4 {
            self.parse_increment(&tokens)
        } else if idx == 5 {
            self.parse_decrement(&tokens)
        } else if idx == 6 {
            self.parse_search(&tokens)
        } else if idx == 7 {
            self.parse_flush(&tokens)
        } else if idx == 8 {
            self.parse_downgrade(&tokens)
        } else {
            Err(command_error_at("Command not found", &tokens[0]))
        };
        match request {
            Err(e) => Err(e),
            Ok(req) => {
                if is_cast {
                    Ok(CallType::Spawn(req))
                } else {
                    Ok(CallType::Await(req))
                }
            },
        }
    }
}

} // verus!
