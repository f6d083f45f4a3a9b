//! The lexer of the query language: splits source text into tokens, with
//! double-quoted strings, `#` comments to the end of the line, and `;`
//! between statements.

use vstd::prelude::*;
use crate::text::{chars_of, string_of};

verus! {

/// One word of the source with the line and column where it ended.
#[derive(Debug, Clone, PartialEq, Eq)]
pub struct Token {
    pub value: String,
    pub line: usize,
    pub column: usize,
}

/// What the lexer is in the middle of.
#[derive(Debug, Clone, Copy, PartialEq, Eq, Structural)]
pub enum State {
    /// Inside a double-quoted string.
    Quoted,
    /// Between or inside bare words.
    Identifier,
    /// After `#`, until the end of the line.
    Comment,
}

/// A token as value, line and column.
pub type TokenView = (Seq<char>, nat, nat);

pub open spec fn token_view(t: Token) -> TokenView {
    (t.value@, t.line as nat, t.column as nat)
}

pub open spec fn tokens_view(ts: Seq<Token>) -> Seq<TokenView> {
    ts.map_values(|t: Token| token_view(t))
}

pub open spec fn statements_view(ss: Seq<Vec<Token>>) -> Seq<Seq<TokenView>> {
    ss.map_values(|s: Vec<Token>| tokens_view(s@))
}

/// The lexer's state between two characters.
pub struct LexModel {
    pub state: State,
    pub line: nat,
    pub column: nat,
    pub temp: Seq<char>,
    pub tokens: Seq<TokenView>,
}

pub open spec fn start_model() -> LexModel {
    LexModel { state: State::Identifier, line: 1, column: 0, temp: Seq::empty(), tokens: Seq::empty() }
}

/// Ends the current word: it becomes a token unless it is empty outside a
/// string (an empty string `""` is a token); the lexer is then between words.
pub open spec fn emit(m: LexModel) -> LexModel {
    if m.temp.len() == 0 && m.state != State::Quoted {
        LexModel { state: State::Identifier, ..m }
    } else {
        LexModel {
            state: State::Identifier,
            temp: Seq::empty(),
            tokens: m.tokens.push((m.temp, m.line, m.column)),
            ..m
        }
    }
}

pub open spec fn is_blank(c: char) -> bool {
    c == ' ' || c == '\t' || c == '\n' || c == '\r'
}

/// What one character does, before the position moves on.
pub open spec fn on_char(m: LexModel, c: char) -> LexModel {
    match m.state {
        State::Quoted => if c == '"' {
            if m.temp.len() > 0 && m.temp.last() == '\\' {
                LexModel { temp: m.temp.drop_last().push('"'), ..m }
            } else {
                emit(m)
            }
        } else {
            LexModel { temp: m.temp.push(c), ..m }
        },
        State::Identifier => if is_blank(c) {
            emit(m)
        } else if c == ';' {
            emit(LexModel { temp: seq![';'], ..emit(m) })
        } else if c == '"' {
            LexModel { state: State::Quoted, ..m }
        } else if c == '#' {
            LexModel { state: State::Comment, ..m }
        } else {
            LexModel { temp: m.temp.push(c), ..m }
        },
        State::Comment => if c == '\n' {
            LexModel { state: State::Identifier, ..m }
        } else {
            m
        },
    }
}

/// One character: its effect, then the move to the next column or line.
pub open spec fn advance(m: LexModel, c: char) -> LexModel {
    let n = on_char(m, c);
    if c == '\n' {
        LexModel { line: n.line + 1, column: 0, ..n }
    } else {
        LexModel { column: n.column + 1, ..n }
    }
}

pub open spec fn run(m: LexModel, cs: Seq<char>) -> LexModel
    decreases cs.len(),
{
    if cs.len() == 0 {
        m
    } else {
        advance(run(m, cs.drop_last()), cs.last())
    }
}

/// The tokens of a source text, in order.
pub open spec fn lex_tokens(src: Seq<char>) -> Seq<TokenView> {
    emit(run(start_model(), src)).tokens
}

/// Statements so far and the tokens of the statement being read.
pub open spec fn split_progress(ts: Seq<TokenView>) -> (Seq<Seq<TokenView>>, Seq<TokenView>)
    decreases ts.len(),
{
    if ts.len() == 0 {
        (Seq::empty(), Seq::empty())
    } else {
        let (done, cur) = split_progress(ts.drop_last());
        if ts.last().0 == seq![';'] {
            (if cur.len() > 0 { done.push(cur) } else { done }, Seq::empty())
        } else {
            (done, cur.push(ts.last()))
        }
    }
}

/// Tokens cut into statements at each `;` token; the separators and empty
/// statements are dropped.
pub open spec fn split_statements(ts: Seq<TokenView>) -> Seq<Seq<TokenView>> {
    let (done, cur) = split_progress(ts);
    if cur.len() > 0 {
        done.push(cur)
    } else {
        done
    }
}

pub open spec fn lex_statements(src: Seq<char>) -> Seq<Seq<TokenView>> {
    split_statements(lex_tokens(src))
}

/// A single-pass lexer over a source text.
pub struct Lexer {
    source: String,
    line: usize,
    column: usize,
    state: State,
    tokens: Vec<Token>,
    temp: Vec<char>,
}

impl Token {
    /// A copy of this token.
    pub fn duplicate(&self) -> (r: Token)
        ensures
            r == *self,
    {
        Token { value: self.value.clone(), line: self.line, column: self.column }
    }
}

impl Lexer {
    pub closed spec fn model(&self) -> LexModel {
        LexModel {
            state: self.state,
            line: self.line as nat,
            column: self.column as nat,
            temp: self.temp@,
            tokens: tokens_view(self.tokens@),
        }
    }

    pub closed spec fn source(&self) -> Seq<char> {
        self.source@
    }

    /// A lexer at the start of `source`: line 1, column 0.
    pub fn new(source: String) -> (r: Lexer)
        ensures
            r.model() == start_model(),
            r.source() == source@,
    {
        let r = Lexer {
            source,
            line: 1,
            column: 0,
            state: State::Identifier,
            tokens: Vec::new(),
            temp: Vec::new(),
        };
        assert(tokens_view(r.tokens@) =~= Seq::<TokenView>::empty());
        r
    }

    fn make_token(&mut self)
        ensures
            final(self).model() == emit(old(self).model()),
            final(self).source == old(self).source,
    {
        let old_state = self.state;
        self.state = State::Identifier;
        if self.temp.len() == 0 && old_state != State::Quoted {
            return;
        }
        let value = string_of(&self.temp);
        self.temp = Vec::new();
        let ghost before = self.tokens@;
        self.tokens.push(Token { value, line: self.line, column: self.column });
        assert(tokens_view(self.tokens@) =~= tokens_view(before).push(
            (old(self).temp@, self.line as nat, self.column as nat),
        ));
        assert(self.temp@ =~= Seq::<char>::empty());
    }

    fn handle_string(&mut self, character: char)
        requires
            old(self).state == State::Quoted,
        ensures
            final(self).model() == on_char(old(self).model(), character),
            final(self).source == old(self).source,
    {
        if character == '"' {
            match self.temp.pop() {
                Some(c) => {
                    if c == '\\' {
                        self.temp.push(character);
                    } else {
                        self.temp.push(c);
                        assert(self.temp@ =~= old(self).temp@);
                        self.make_token();
                    }
                },
                None => self.make_token(),
            }
        } else {
            self.temp.push(character);
        }
    }

    fn handle_identifier(&mut self, character: char)
        requires
            old(self).state == State::Identifier,
        ensures
            final(self).model() == on_char(old(self).model(), character),
            final(self).source == old(self).source,
    {
        if character == ' ' || character == '\t' || character == '\n' || character == '\r' {
            self.make_token();
        } else if character == ';' {
            self.make_token();
            self.temp = vec![';'];
            assert(self.temp@ =~= seq![';']);
            self.make_token();
        } else if character == '"' {
            self.state = State::Quoted;
        } else if character == '#' {
            self.state = State::Comment;
        } else {
            self.temp.push(character);
        }
    }

    fn handle_comment(&mut self, character: char)
        requires
            old(self).state == State::Comment,
        ensures
            final(self).model() == on_char(old(self).model(), character),
            final(self).source == old(self).source,
    {
        if character == '\n' {
            self.state = State::Identifier;
        }
    }

    /// Reads the whole source, then ends the last word. Line and column
    /// must have room to count every character.
    pub fn execute(&mut self)
        requires
            old(self).model().line + old(self).source().len() <= usize::MAX,
            old(self).model().column + old(self).source().len() <= usize::MAX,
        ensures
            final(self).model() == emit(run(old(self).model(), old(self).source())),
            final(self).source() == Seq::<char>::empty(),
    {
        let mut source = String::new();
        std::mem::swap(&mut source, &mut self.source);
        let cs = chars_of(source.as_str());
        let ghost start = self.model();
        let mut i: usize = 0;
        while i < cs.len()
            invariant
                0 <= i <= cs@.len(),
                cs@ == old(self).source@,
                start == old(self).model(),
                self.model() == run(start, cs@.subrange(0, i as int)),
                self.line <= start.line + i,
                self.column <= start.column + i,
                start.line + cs@.len() <= usize::MAX,
                start.column + cs@.len() <= usize::MAX,
                self.source@ == Seq::<char>::empty(),
            decreases cs@.len() - i,
        {
            let character = cs[i];
            let ghost before = self.model();
            match self.state {
                State::Quoted => self.handle_string(character),
                State::Identifier => self.handle_identifier(character),
                State::Comment => self.handle_comment(character),
            }
            if character == '\n' {
                self.line = self.line + 1;
                self.column = 0;
            } else {
                self.column = self.column + 1;
            }
            assert(cs@.subrange(0, i + 1).drop_last() =~= cs@.subrange(0, i as int));
            assert(self.model() == advance(before, character));
            i = i + 1;
        }
        assert(cs@.subrange(0, cs@.len() as int) =~= cs@);
        self.make_token();
    }

    /// Hands out the tokens read so far, cut into statements.
    pub fn collect(&mut self) -> (r: Vec<Vec<Token>>)
        ensures
            statements_view(r@) == split_statements(old(self).model().tokens),
            final(self).model().tokens == Seq::<TokenView>::empty(),
    {
        let mut tokens: Vec<Token> = Vec::new();
        std::mem::swap(&mut tokens, &mut self.tokens);
        let ghost ts = tokens_view(tokens@);
        let mut done: Vec<Vec<Token>> = Vec::new();
        let mut current: Vec<Token> = Vec::new();
        let mut i: usize = 0;
        while i < tokens.len()
            invariant
                0 <= i <= tokens@.len(),
                ts == tokens_view(tokens@),
                (statements_view(done@), tokens_view(current@)) == split_progress(ts.subrange(0, i as int)),
            decreases tokens@.len() - i,
        {
            let token = tokens[i].duplicate();
            let ghost prev = ts.subrange(0, i as int);
            assert(ts.subrange(0, i + 1).drop_last() =~= prev);
            assert(ts.subrange(0, i + 1).last() == token_view(token));
            let semi = vec![';'];
            assert(semi@ =~= seq![';']);
            let word = chars_of(token.value.as_str());
            let ghost step = split_progress(ts.subrange(0, i + 1));
            let ghost earlier = split_progress(prev);
            assert(step == (if token.value@ == seq![';'] {
                (if earlier.1.len() > 0 { earlier.0.push(earlier.1) } else { earlier.0 }, Seq::<TokenView>::empty())
            } else {
                (earlier.0, earlier.1.push(token_view(token)))
            }));
            if same_chars(&word, &semi) {
                if current.len() > 0 {
                    let ghost before = statements_view(done@);
                    let mut finished: Vec<Token> = Vec::new();
                    std::mem::swap(&mut finished, &mut current);
                    done.push(finished);
                    assert(statements_view(done@) =~= before.push(tokens_view(finished@)));
                }
                assert(tokens_view(current@) =~= Seq::<TokenView>::empty());
            } else {
                let ghost before = tokens_view(current@);
                current.push(token);
                assert(tokens_view(current@) =~= before.push(token_view(token)));
            }
            i = i + 1;
        }
        assert(ts.subrange(0, ts.len() as int) =~= ts);
        if current.len() > 0 {
            let ghost before = statements_view(done@);
            let ghost last = tokens_view(current@);
            done.push(current);
            assert(statements_view(done@) =~= before.push(last));
        }
        assert(tokens_view(self.tokens@) =~= Seq::<TokenView>::empty());
        done
    }
}

proof fn lemma_run_append(m: LexModel, a: Seq<char>, b: Seq<char>)
    ensures
        run(m, a + b) == run(run(m, a), b),
    decreases b.len(),
{
    if b.len() == 0 {
        assert(a + b =~= a);
    } else {
        lemma_run_append(m, a, b.drop_last());
        assert((a + b).drop_last() =~= a + b.drop_last());
        assert((a + b).last() == b.last());
    }
}

proof fn lemma_comment_run(m: LexModel, c: Seq<char>)
    requires
        m.state == State::Comment,
        forall|i: int| 0 <= i < c.len() ==> c[i] != '\n',
    ensures
        run(m, c) == (LexModel { column: m.column + c.len(), ..m }),
    decreases c.len(),
{
    if c.len() > 0 {
        let d = c.drop_last();
        assert forall|i: int| 0 <= i < d.len() implies d[i] != '\n' by {
            assert(d[i] == c[i]);
        }
        lemma_comment_run(m, d);
        assert(c.last() == c[c.len() - 1]);
    }
}

proof fn lemma_split_trailing_separator(ts: Seq<TokenView>, t: TokenView)
    requires
        t.0 == seq![';'],
    ensures
        split_statements(ts.push(t)) == split_statements(ts),
{
    assert(ts.push(t).drop_last() =~= ts);
}

/// A `;` and a comment after the last statement change nothing: the
/// source lexes to the same statements, so the parser sees the same
/// requests. The source must not end inside a string or a comment.
pub proof fn lemma_trailing_separator_and_comment(s: Seq<char>, c: Seq<char>)
    requires
        run(start_model(), s).state == State::Identifier,
        forall|i: int| 0 <= i < c.len() ==> c[i] != '\n',
    ensures
        lex_statements(s + seq![';', ' ', '#'] + c + seq!['\n']) == lex_statements(s),
{
    let x = seq![';', ' ', '#'];
    let y = seq!['\n'];
    let m0 = run(start_model(), s);
    assert(s + x + c + y =~= s + ((x + c) + y));
    lemma_run_append(start_model(), s, (x + c) + y);
    lemma_run_append(m0, x + c, y);
    lemma_run_append(m0, x, c);
    let m1 = advance(m0, ';');
    let m2 = advance(m1, ' ');
    let m3 = advance(m2, '#');
    assert(x.drop_last().drop_last().drop_last() =~= Seq::<char>::empty());
    assert(x.drop_last().drop_last() =~= seq![';']);
    assert(x.drop_last() =~= seq![';', ' ']);
    let e = Seq::<char>::empty();
    assert(run(m0, e) == m0);
    let x1 = seq![';'];
    let x2 = seq![';', ' '];
    assert(x1.drop_last() =~= e);
    assert(x2.drop_last() =~= x1);
    assert(run(m0, x1) == advance(run(m0, e), ';'));
    assert(run(m0, x2) == advance(run(m0, x1), ' '));
    assert(run(m0, x) == advance(run(m0, x2), '#'));
    assert(run(m0, x) == m3);
    assert(m3.state == State::Comment);
    assert(m3.temp.len() == 0);
    lemma_comment_run(m3, c);
    let m4 = run(m3, c);
    assert(run(m0, (x + c) + y) == advance(m4, '\n')) by {
        assert(((x + c) + y).drop_last() =~= x + c);
    }
    let m5 = advance(m4, '\n');
    assert(emit(m5).tokens == emit(m0).tokens.push((seq![';'], m0.line, m0.column)));
    lemma_split_trailing_separator(emit(m0).tokens, (seq![';'], m0.line, m0.column));
}

/// Whether two character vectors are equal.
pub(crate) fn same_chars(a: &Vec<char>, b: &Vec<char>) -> (r: bool)
    ensures
        r == (a@ == b@),
{
    if a.len() != b.len() {
        return false;
    }
    let mut i: usize = 0;
    while i < a.len()
        invariant
            a@.len() == b@.len(),
            0 <= i <= a@.len(),
            forall|j: int| 0 <= j < i ==> a@[j] == b@[j],
        decreases a@.len() - i,
    {
        if a[i] != b[i] {
            return false;
        }
        i = i + 1;
    }
    assert(a@ =~= b@);
    true
}

/// The statements of a source text, each a list of tokens.
pub fn lex(source: String) -> (r: Vec<Vec<Token>>)
    ensures
        statements_view(r@) == lex_statements(source@),
{
    // a string has at most isize::MAX characters, so line and column fit
    let _length = chars_of(source.as_str()).len();
    let mut lexer = Lexer::new(source);
    lexer.execute();
    lexer.collect()
}

} // verus!
