//! The parser: recovers the function declarations of a token sequence.
//!
//! Every `function` keyword must be followed by a name, a parameter list and
//! a body. Everything else is skipped as opaque tokens, balancing `()`, `[]`
//! and `{}` so that declarations nested anywhere are still found.
use vstd::prelude::*;
use crate::lexer::{Token, TokenKind};

verus! {

/// A function's name: the identifier token at `start .. end` of the source.
#[derive(Clone, Copy, Debug, PartialEq, Eq, Structural)]
pub struct Identifier {
    pub start: usize,
    pub end: usize,
}

/// A function declaration: its name, the position of its `function`
/// keyword, and the index (in the module's list) of the function whose body
/// encloses it, if any.
#[derive(Clone, Copy, Debug, PartialEq, Eq, Structural)]
pub struct FunctionDecl {
    pub name: Identifier,
    pub start: usize,
    pub parent: Option<usize>,
}

/// A parsed module. Its syntax tree is kept flat: the function declarations
/// in pre-order, which is the source order of their keywords, each linked to
/// its enclosing function. Every other construct is an opaque run of tokens.
pub struct Module {
    pub functions: Vec<FunctionDecl>,
}

/// Each declaration's enclosing function comes before it.
pub open spec fn parents_precede(fns: Seq<FunctionDecl>) -> bool {
    forall|k: int| 0 <= k < fns.len() ==> (#[trigger] fns[k].parent matches Some(p) ==> p < k)
}

impl Module {
    pub open spec fn wf(&self) -> bool {
        parents_precede(self.functions@)
    }
}

/// What an open delimiter is waiting for.
#[derive(Clone, Copy, Debug, PartialEq, Eq, Structural)]
pub enum FrameKind {
    /// An ordinary bracket pair, with the character that closes it.
    Group(char),
    /// The parameter list of the function with this index.
    Params(usize),
    /// The body of the function with this index.
    Body(usize),
}

#[derive(Clone, Copy, Debug, PartialEq, Eq, Structural)]
pub struct Frame {
    pub kind: FrameKind,
    /// The innermost function whose body contains this frame.
    pub enclosing: Option<usize>,
}

/// What the next token must be.
#[derive(Clone, Copy, Debug, PartialEq, Eq, Structural)]
pub enum Expect {
    /// Anything that may stand in a statement.
    Any,
    /// The name of a function whose keyword starts at this position.
    Name(usize),
    /// The opening parenthesis of the function with this index.
    Params(usize),
    /// The opening brace of the body of the function with this index.
    Body(usize),
}

#[derive(Clone, Copy, Debug, PartialEq, Eq, Structural)]
pub enum Expected {
    Name,
    ParamList,
    Body,
    /// The closing delimiter of the innermost open group.
    Close(char),
    /// A statement or the end of input, where a closing delimiter stood.
    Statement,
}

/// A parse failure: where it happened, what was expected, and the token
/// found there (`None` at the end of input).
#[derive(Clone, Copy, Debug, PartialEq, Eq, Structural)]
pub struct ParseError {
    pub position: usize,
    pub expected: Expected,
    pub found: Option<TokenKind>,
}

pub struct ParseState {
    pub stack: Seq<Frame>,
    pub expect: Expect,
    pub fns: Seq<FunctionDecl>,
}

pub open spec fn closer_of(k: FrameKind) -> char {
    match k {
        FrameKind::Group(c) => c,
        FrameKind::Params(_) => ')',
        FrameKind::Body(_) => '}',
    }
}

pub open spec fn is_opener(c: char) -> bool {
    c == '(' || c == '[' || c == '{'
}

pub open spec fn is_closer(c: char) -> bool {
    c == ')' || c == ']' || c == '}'
}

pub open spec fn matching_closer(c: char) -> char {
    if c == '(' {
        ')'
    } else if c == '[' {
        ']'
    } else {
        '}'
    }
}

/// The innermost function whose body is open.
pub open spec fn enclosing(stack: Seq<Frame>) -> Option<usize> {
    if stack.len() == 0 {
        None
    } else {
        stack.last().enclosing
    }
}

pub open spec fn unexpected(t: Token, expected: Expected) -> ParseError {
    ParseError { position: t.start, expected, found: Some(t.kind) }
}

/// The parser's reaction to one token.
pub open spec fn step(st: ParseState, t: Token) -> Result<ParseState, ParseError> {
    match st.expect {
        Expect::Name(p) => if t.kind == TokenKind::Identifier {
            let f = FunctionDecl {
                name: Identifier { start: t.start, end: t.end },
                start: p,
                parent: enclosing(st.stack),
            };
            Ok(ParseState { fns: st.fns.push(f), expect: Expect::Params(st.fns.len() as usize), ..st })
        } else {
            Err(unexpected(t, Expected::Name))
        },
        Expect::Params(f) => if t.kind == TokenKind::Punctuator('(') {
            let fr = Frame { kind: FrameKind::Params(f), enclosing: enclosing(st.stack) };
            Ok(ParseState { stack: st.stack.push(fr), expect: Expect::Any, ..st })
        } else {
            Err(unexpected(t, Expected::ParamList))
        },
        Expect::Body(f) => if t.kind == TokenKind::Punctuator('{') {
            let fr = Frame { kind: FrameKind::Body(f), enclosing: Some(f) };
            Ok(ParseState { stack: st.stack.push(fr), expect: Expect::Any, ..st })
        } else {
            Err(unexpected(t, Expected::Body))
        },
        Expect::Any => match t.kind {
            TokenKind::FunctionKeyword => Ok(ParseState { expect: Expect::Name(t.start), ..st }),
            TokenKind::Punctuator(c) => if is_opener(c) {
                let fr = Frame {
                    kind: FrameKind::Group(matching_closer(c)),
                    enclosing: enclosing(st.stack),
                };
                Ok(ParseState { stack: st.stack.push(fr), ..st })
            } else if is_closer(c) {
                if st.stack.len() == 0 {
                    Err(unexpected(t, Expected::Statement))
                } else if closer_of(st.stack.last().kind) != c {
                    Err(unexpected(t, Expected::Close(closer_of(st.stack.last().kind))))
                } else {
                    let expect = match st.stack.last().kind {
                        FrameKind::Params(f) => Expect::Body(f),
                        _ => Expect::Any,
                    };
                    Ok(ParseState { stack: st.stack.drop_last(), expect, ..st })
                }
            } else {
                Ok(st)
            },
            _ => Ok(st),
        },
    }
}

pub open spec fn initial_parse_state() -> ParseState {
    ParseState { stack: seq![], expect: Expect::Any, fns: seq![] }
}

/// The state after the first `n` tokens.
pub open spec fn state_after(toks: Seq<Token>, n: int) -> Result<ParseState, ParseError>
    decreases n,
{
    if n <= 0 {
        Ok(initial_parse_state())
    } else {
        match state_after(toks, n - 1) {
            Err(e) => Err(e),
            Ok(st) => step(st, toks[n - 1]),
        }
    }
}

/// Where the input ends: just past its last token.
pub open spec fn end_position(toks: Seq<Token>) -> usize {
    if toks.len() == 0 {
        0
    } else {
        toks.last().end
    }
}

/// The end of input is accepted only with nothing left open.
pub open spec fn finish(st: ParseState, toks: Seq<Token>) -> Result<Seq<FunctionDecl>, ParseError> {
    let at_end = |expected: Expected|
        ParseError { position: end_position(toks), expected, found: None };
    match st.expect {
        Expect::Name(_) => Err(at_end(Expected::Name)),
        Expect::Params(_) => Err(at_end(Expected::ParamList)),
        Expect::Body(_) => Err(at_end(Expected::Body)),
        Expect::Any => if st.stack.len() == 0 {
            Ok(st.fns)
        } else {
            Err(at_end(Expected::Close(closer_of(st.stack.last().kind))))
        },
    }
}

/// The function declarations of a token sequence, or the first error.
pub open spec fn parse_spec(toks: Seq<Token>) -> Result<Seq<FunctionDecl>, ParseError> {
    match state_after(toks, toks.len() as int) {
        Err(e) => Err(e),
        Ok(st) => finish(st, toks),
    }
}

/// A parser in the middle of a token sequence.
struct Parser {
    stack: Vec<Frame>,
    expect: Expect,
    fns: Vec<FunctionDecl>,
}

impl Parser {
    spec fn state(&self) -> ParseState {
        ParseState { stack: self.stack@, expect: self.expect, fns: self.fns@ }
    }

    fn enclosing(&self) -> (r: Option<usize>)
        ensures
            r == enclosing(self.stack@),
    {
        if self.stack.len() == 0 {
            None
        } else {
            self.stack[self.stack.len() - 1].enclosing
        }
    }

    fn advance(&mut self, t: Token) -> (r: Result<(), ParseError>)
        ensures
            match step(old(self).state(), t) {
                Ok(st) => r is Ok && final(self).state() == st,
                Err(e) => r == Err::<(), ParseError>(e),
            },
    {
        match self.expect {
            Expect::Name(p) => {
                if t.kind == TokenKind::Identifier {
                    let f = FunctionDecl {
                        name: Identifier { start: t.start, end: t.end },
                        start: p,
                        parent: self.enclosing(),
                    };
                    self.expect = Expect::Params(self.fns.len());
                    self.fns.push(f);
                    Ok(())
                } else {
                    Err(ParseError { position: t.start, expected: Expected::Name, found: Some(t.kind) })
                }
            },
            Expect::Params(f) => {
                if t.kind == TokenKind::Punctuator('(') {
                    let fr = Frame { kind: FrameKind::Params(f), enclosing: self.enclosing() };
                    self.stack.push(fr);
                    self.expect = Expect::Any;
                    Ok(())
                } else {
                    Err(ParseError { position: t.start, expected: Expected::ParamList, found: Some(t.kind) })
                }
            },
            Expect::Body(f) => {
                if t.kind == TokenKind::Punctuator('{') {
                    self.stack.push(Frame { kind: FrameKind::Body(f), enclosing: Some(f) });
                    self.expect = Expect::Any;
                    Ok(())
                } else {
                    Err(ParseError { position: t.start, expected: Expected::Body, found: Some(t.kind) })
                }
            },
            Expect::Any => match t.kind {
                TokenKind::FunctionKeyword => {
                    self.expect = Expect::Name(t.start);
                    Ok(())
                },
                TokenKind::Punctuator(c) => {
                    if c == '(' || c == '[' || c == '{' {
                        let closer = if c == '(' {
                            ')'
                        } else if c == '[' {
                            ']'
                        } else {
                            '}'
                        };
                        let fr = Frame { kind: FrameKind::Group(closer), enclosing: self.enclosing() };
                        self.stack.push(fr);
                        Ok(())
                    } else if c == ')' || c == ']' || c == '}' {
                        if self.stack.len() == 0 {
                            return Err(
                                ParseError { position: t.start, expected: Expected::Statement, found: Some(t.kind) },
                            );
                        }
                        let top = self.stack[self.stack.len() - 1].kind;
                        let want = match top {
                            FrameKind::Group(k) => k,
                            FrameKind::Params(_) => ')',
                            FrameKind::Body(_) => '}',
                        };
                        if want != c {
                            return Err(
                                ParseError { position: t.start, expected: Expected::Close(want), found: Some(t.kind) },
                            );
                        }
                        self.stack.pop();
                        self.expect = match top {
                            FrameKind::Params(f) => Expect::Body(f),
                            _ => Expect::Any,
                        };
                        Ok(())
                    } else {
                        Ok(())
                    }
                },
                _ => Ok(()),
            },
        }
    }
}

/// Parses a token sequence into a module, or fails at the first token (or at
/// the end of input) where the grammar cannot go on.
pub fn parse_module(tokens: &Vec<Token>) -> (r: Result<Module, ParseError>)
    ensures
        match (r, parse_spec(tokens@)) {
            (Ok(m), Ok(fs)) => m.functions@ == fs,
            (Err(a), Err(b)) => a == b,
            _ => false,
        },
        r matches Ok(m) ==> m.wf(),
{
    let count = tokens.len();
    proof {
        law_parents_precede(tokens@);
    }
    let mut p = Parser { stack: Vec::new(), expect: Expect::Any, fns: Vec::new() };
    let mut i: usize = 0;
    while i < count
        invariant
            count == tokens@.len(),
            i <= tokens@.len(),
            state_after(tokens@, i as int) == Ok::<ParseState, ParseError>(p.state()),
        decreases tokens@.len() - i,
    {
        match p.advance(tokens[i]) {
            Err(e) => {
                proof {
                    lemma_error_persists(tokens@, i as int + 1, tokens@.len() as int);
                }
                return Err(e);
            },
            Ok(()) => {},
        }
        i = i + 1;
    }
    let end = if tokens.len() == 0 {
        0
    } else {
        tokens[tokens.len() - 1].end
    };
    match p.expect {
        Expect::Name(_) => Err(ParseError { position: end, expected: Expected::Name, found: None }),
        Expect::Params(_) => Err(ParseError { position: end, expected: Expected::ParamList, found: None }),
        Expect::Body(_) => Err(ParseError { position: end, expected: Expected::Body, found: None }),
        Expect::Any => {
            if p.stack.len() == 0 {
                Ok(Module { functions: p.fns })
            } else {
                let want = match p.stack[p.stack.len() - 1].kind {
                    FrameKind::Group(k) => k,
                    FrameKind::Params(_) => ')',
                    FrameKind::Body(_) => '}',
                };
                Err(ParseError { position: end, expected: Expected::Close(want), found: None })
            }
        },
    }
}

/// Once the parser has failed, it stays failed with the same error.
pub proof fn lemma_error_persists(toks: Seq<Token>, n: int, m: int)
    requires
        n <= m,
        state_after(toks, n) is Err,
    ensures
        state_after(toks, m) == state_after(toks, n),
    decreases m - n,
{
    if n < m {
        lemma_error_persists(toks, n, m - 1);
    }
}

/// A declaration's keyword position and name.
pub open spec fn header(f: FunctionDecl) -> (usize, Identifier) {
    (f.start, f.name)
}

/// For each `function` keyword among the first `n` tokens, in order, its
/// position and the token after it taken as a name.
pub open spec fn keyword_headers(toks: Seq<Token>, n: int) -> Seq<(usize, Identifier)>
    decreases n,
{
    if n <= 0 {
        seq![]
    } else {
        let rest = keyword_headers(toks, n - 1);
        if toks[n - 1].kind == TokenKind::FunctionKeyword && n < toks.len() {
            rest.push((toks[n - 1].start, Identifier { start: toks[n].start, end: toks[n].end }))
        } else {
            rest
        }
    }
}

pub open spec fn headers(fns: Seq<FunctionDecl>) -> Seq<(usize, Identifier)> {
    fns.map_values(|f: FunctionDecl| header(f))
}

proof fn lemma_state_headers(toks: Seq<Token>, n: int)
    requires
        0 <= n <= toks.len(),
    ensures
        state_after(toks, n) matches Ok(st) ==> {
            &&& (st.expect is Name) ==> {
                &&& n > 0 && toks[n - 1].kind == TokenKind::FunctionKeyword
                &&& st.expect->Name_0 == toks[n - 1].start
                &&& headers(st.fns) == keyword_headers(toks, n - 1)
            }
            &&& !(st.expect is Name) ==> {
                &&& n > 0 ==> toks[n - 1].kind != TokenKind::FunctionKeyword
                &&& headers(st.fns) == keyword_headers(toks, n)
            }
        },
    decreases n,
{
    if n > 0 {
        lemma_state_headers(toks, n - 1);
        if let Ok(prev) = state_after(toks, n - 1) {
            if let Ok(st) = step(prev, toks[n - 1]) {
                assert(keyword_headers(toks, n) == keyword_headers(toks, n - 1)
                    || toks[n - 1].kind == TokenKind::FunctionKeyword);
                if prev.expect is Name {
                    let f = st.fns.last();
                    assert(st.fns == prev.fns.push(f));
                    assert(headers(st.fns) =~= headers(prev.fns).push(header(f)));
                    assert(keyword_headers(toks, n - 1) == keyword_headers(toks, n - 2).push(
                        (toks[n - 2].start, Identifier { start: toks[n - 1].start, end: toks[n - 1].end }),
                    ));
                } else {
                    assert(st.fns == prev.fns);
                }
            }
        }
    }
}

/// A successful parse finds one declaration for each `function` keyword, in
/// source order: at the keyword's position, named by the token after it.
pub proof fn law_declarations_follow_keywords(toks: Seq<Token>)
    ensures
        parse_spec(toks) matches Ok(fs) ==> headers(fs) == keyword_headers(toks, toks.len() as int),
{
    lemma_state_headers(toks, toks.len() as int);
}

/// The names found at `function` keywords are spans of tokens, so they lie
/// wherever the tokens do.
pub proof fn lemma_keyword_names_within(toks: Seq<Token>, n: int, bound: int)
    requires
        n <= toks.len(),
        forall|i: int| 0 <= i < toks.len() ==> #[trigger] toks[i].start <= toks[i].end <= bound,
    ensures
        forall|j: int|
            0 <= j < keyword_headers(toks, n).len() ==> {
                let id = #[trigger] keyword_headers(toks, n)[j].1;
                id.start <= id.end <= bound
            },
    decreases n,
{
    if n > 0 {
        lemma_keyword_names_within(toks, n - 1, bound);
        let rest = keyword_headers(toks, n - 1);
        let kh = keyword_headers(toks, n);
        if toks[n - 1].kind == TokenKind::FunctionKeyword && n < toks.len() {
            assert(toks[n].start <= toks[n].end <= bound);
            assert forall|j: int| 0 <= j < kh.len() implies {
                let id = #[trigger] kh[j].1;
                id.start <= id.end <= bound
            } by {
                if j < rest.len() {
                    assert(kh[j] == rest[j]);
                }
            }
        }
    }
}

/// A `function` keyword must be followed by a name and an opening
/// parenthesis; a token sequence where one is not never parses.
pub proof fn law_function_needs_name_and_params(toks: Seq<Token>, i: int)
    requires
        0 <= i < toks.len(),
        toks[i].kind == TokenKind::FunctionKeyword,
        !(i + 2 < toks.len() && toks[i + 1].kind == TokenKind::Identifier && toks[i + 2].kind
            == TokenKind::Punctuator('(')),
    ensures
        parse_spec(toks) is Err,
{
    let len = toks.len() as int;
    lemma_state_headers(toks, i + 1);
    if state_after(toks, i + 1) is Err {
        lemma_error_persists(toks, i + 1, len);
    } else if i + 1 < len {
        if state_after(toks, i + 2) is Err {
            lemma_error_persists(toks, i + 2, len);
        } else if i + 2 < len {
            assert(state_after(toks, i + 3) is Err);
            lemma_error_persists(toks, i + 3, len);
        }
    }
}

pub open spec fn frame_known(fr: Frame, n: int) -> bool {
    &&& (fr.enclosing matches Some(f) ==> f < n)
    &&& (fr.kind matches FrameKind::Params(f) ==> f < n)
    &&& (fr.kind matches FrameKind::Body(f) ==> f < n)
}

/// Every function index that the parser holds refers to a declaration
/// already found.
pub open spec fn indices_known(st: ParseState) -> bool {
    &&& forall|i: int| 0 <= i < st.stack.len() ==> frame_known(#[trigger] st.stack[i], st.fns.len() as int)
    &&& (st.expect matches Expect::Params(f) ==> f == st.fns.len() - 1)
    &&& (st.expect matches Expect::Body(f) ==> f < st.fns.len())
}

proof fn lemma_step_tree(st: ParseState, t: Token)
    requires
        indices_known(st),
        parents_precede(st.fns),
        st.fns.len() < usize::MAX,
    ensures
        step(st, t) matches Ok(nx) ==> {
            &&& indices_known(nx)
            &&& parents_precede(nx.fns)
            &&& nx.fns.len() <= st.fns.len() + 1
        },
{
    if let Ok(nx) = step(st, t) {
        let n = st.fns.len() as int;
        if st.stack.len() > 0 {
            assert(frame_known(st.stack.last(), n));
        }
        if nx.fns.len() > st.fns.len() {
            assert(nx.fns == st.fns.push(nx.fns.last()));
            assert forall|k: int| 0 <= k < nx.fns.len() implies (#[trigger] nx.fns[k].parent matches Some(
                p,
            ) ==> p < k) by {
                if k < n {
                    assert(nx.fns[k] == st.fns[k]);
                }
            }
        } else {
            assert(nx.fns == st.fns);
        }
        assert forall|i: int| 0 <= i < nx.stack.len() implies frame_known(
            #[trigger] nx.stack[i],
            nx.fns.len() as int,
        ) by {
            if i < st.stack.len() {
                if nx.stack.len() < st.stack.len() {
                    assert(nx.stack[i] == st.stack.drop_last()[i]);
                } else if nx.stack.len() > st.stack.len() {
                    assert(nx.stack[i] == st.stack.push(nx.stack.last())[i]);
                }
                assert(frame_known(st.stack[i], n));
            }
        }
    }
}

proof fn lemma_state_tree(toks: Seq<Token>, n: int)
    requires
        n <= usize::MAX,
    ensures
        state_after(toks, n) matches Ok(st) ==> {
            &&& indices_known(st)
            &&& parents_precede(st.fns)
            &&& st.fns.len() <= if n < 0 { 0 } else { n }
        },
    decreases n,
{
    if n > 0 {
        lemma_state_tree(toks, n - 1);
        if let Ok(prev) = state_after(toks, n - 1) {
            lemma_step_tree(prev, toks[n - 1]);
        }
    }
}

/// A successful parse links each nested declaration to one found before it.
pub proof fn law_parents_precede(toks: Seq<Token>)
    requires
        toks.len() <= usize::MAX,
    ensures
        parse_spec(toks) matches Ok(fs) ==> parents_precede(fs),
{
    lemma_state_tree(toks, toks.len() as int);
}

} // verus!
