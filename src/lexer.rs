//! The lexer: splits a source into code tokens and comments.
//!
//! The grammar is a reduced one. Identifiers are runs of ASCII letters,
//! digits, `_`, `$` and any non-ASCII character; numbers are runs that start
//! with a digit; `'`, `"` and `` ` `` open string literals (a backslash escapes
//! the next character, and template literals are not split at `${`); every
//! other non-space character is a one-character punctuator. Comment markers
//! inside a string belong to the string.
use vstd::prelude::*;
use crate::comments::CommentStore;

verus! {

/// What a code token is. Comments never become tokens.
#[derive(Clone, Copy, Debug, PartialEq, Eq, Structural)]
pub enum TokenKind {
    Identifier,
    /// The keyword `function`, the only keyword the grammar gives a meaning to.
    FunctionKeyword,
    /// A single punctuation character.
    Punctuator(char),
    StringLiteral,
    NumericLiteral,
}

/// A code token covering the characters `start .. end` of the source.
#[derive(Clone, Copy, Debug, PartialEq, Eq, Structural)]
pub struct Token {
    pub kind: TokenKind,
    pub start: usize,
    pub end: usize,
}

#[derive(Clone, Copy, Debug, PartialEq, Eq, Structural)]
pub enum CommentKind {
    Line,
    Block,
}

/// A comment covering the characters `start .. end` of the source
/// (a line comment stops before its newline).
#[derive(Clone, Copy, Debug, PartialEq, Eq, Structural)]
pub struct Comment {
    pub kind: CommentKind,
    pub start: usize,
    pub end: usize,
}

#[derive(Clone, Copy, Debug, PartialEq, Eq, Structural)]
pub enum LexErrorReason {
    UnterminatedComment,
    UnterminatedString,
}

/// A lexing failure, at the start of the construct that was left open.
#[derive(Clone, Copy, Debug, PartialEq, Eq, Structural)]
pub struct LexError {
    pub position: usize,
    pub reason: LexErrorReason,
}

/// One unit that the lexer consumes at a time.
#[derive(Clone, Copy, Debug, PartialEq, Eq, Structural)]
pub enum Lexeme {
    Space,
    Token(Token),
    Comment(Comment),
}

pub open spec fn is_space(c: char) -> bool {
    c == ' ' || c == '\t' || c == '\n' || c == '\r' || c == '\x0b' || c == '\x0c'
}

pub open spec fn is_digit(c: char) -> bool {
    '0' <= c && c <= '9'
}

/// Characters that may start an identifier; every non-ASCII character counts as one.
pub open spec fn is_ident_start(c: char) -> bool {
    ('a' <= c && c <= 'z') || ('A' <= c && c <= 'Z') || c == '_' || c == '$' || (c as u32) >= 0x80
}

pub open spec fn is_ident_part(c: char) -> bool {
    is_ident_start(c) || is_digit(c)
}

pub open spec fn is_quote(c: char) -> bool {
    c == '"' || c == '\'' || c == '`'
}

pub open spec fn function_word() -> Seq<char> {
    seq!['f', 'u', 'n', 'c', 't', 'i', 'o', 'n']
}

/// The end of a line comment's text: the next newline, or the end of the source.
pub open spec fn line_end(s: Seq<char>, i: int) -> int
    decreases s.len() - i,
{
    if i < 0 || i >= s.len() || s[i] == '\n' {
        i
    } else {
        line_end(s, i + 1)
    }
}

/// The position just past the first `*/` at or after `i`, if there is one.
pub open spec fn block_end(s: Seq<char>, i: int) -> Option<int>
    decreases s.len() - i,
{
    if i < 0 || i + 1 >= s.len() {
        None
    } else if s[i] == '*' && s[i + 1] == '/' {
        Some(i + 2)
    } else {
        block_end(s, i + 1)
    }
}

/// The position just past the closing quote `q` of a string whose body starts
/// at `i`; a backslash escapes the character after it.
pub open spec fn string_end(s: Seq<char>, i: int, q: char) -> Option<int>
    decreases s.len() + 1 - i,
{
    if i < 0 || i >= s.len() {
        None
    } else if s[i] == q {
        Some(i + 1)
    } else if s[i] == '\\' {
        string_end(s, i + 2, q)
    } else {
        string_end(s, i + 1, q)
    }
}

/// The end of the run of identifier characters that starts at `i`.
pub open spec fn ident_end(s: Seq<char>, i: int) -> int
    decreases s.len() - i,
{
    if 0 <= i < s.len() && is_ident_part(s[i]) {
        ident_end(s, i + 1)
    } else {
        i
    }
}

/// The end of the run of identifier characters and dots that starts at `i`.
pub open spec fn number_end(s: Seq<char>, i: int) -> int
    decreases s.len() - i,
{
    if 0 <= i < s.len() && (is_ident_part(s[i]) || s[i] == '.') {
        number_end(s, i + 1)
    } else {
        i
    }
}

pub open spec fn token(kind: TokenKind, start: int, end: int) -> Lexeme {
    Lexeme::Token(Token { kind, start: start as usize, end: end as usize })
}

pub open spec fn comment(kind: CommentKind, start: int, end: int) -> Lexeme {
    Lexeme::Comment(Comment { kind, start: start as usize, end: end as usize })
}

/// The lexeme that starts at `pos`, with the position where it ends.
pub open spec fn lexeme_at(s: Seq<char>, pos: int) -> Result<(Lexeme, int), LexError> {
    let c = s[pos];
    let two = s.len() - pos > 1 && c == '/';
    if is_space(c) {
        Ok((Lexeme::Space, pos + 1))
    } else if two && s[pos + 1] == '/' {
        let e = line_end(s, pos + 2);
        Ok((comment(CommentKind::Line, pos, e), e))
    } else if two && s[pos + 1] == '*' {
        match block_end(s, pos + 2) {
            Some(e) => Ok((comment(CommentKind::Block, pos, e), e)),
            None => Err(
                LexError { position: pos as usize, reason: LexErrorReason::UnterminatedComment },
            ),
        }
    } else if is_quote(c) {
        match string_end(s, pos + 1, c) {
            Some(e) => Ok((token(TokenKind::StringLiteral, pos, e), e)),
            None => Err(
                LexError { position: pos as usize, reason: LexErrorReason::UnterminatedString },
            ),
        }
    } else if is_digit(c) {
        let e = number_end(s, pos + 1);
        Ok((token(TokenKind::NumericLiteral, pos, e), e))
    } else if is_ident_start(c) {
        let e = ident_end(s, pos + 1);
        if s.subrange(pos, e) == function_word() {
            Ok((token(TokenKind::FunctionKeyword, pos, e), e))
        } else {
            Ok((token(TokenKind::Identifier, pos, e), e))
        }
    } else {
        Ok((token(TokenKind::Punctuator(c), pos, pos + 1), pos + 1))
    }
}

pub proof fn lemma_line_end(s: Seq<char>, i: int)
    requires
        0 <= i,
    ensures
        i <= line_end(s, i),
        i <= s.len() ==> line_end(s, i) <= s.len(),
    decreases s.len() - i,
{
    if i < s.len() && s[i] != '\n' {
        lemma_line_end(s, i + 1);
    }
}

pub proof fn lemma_block_end(s: Seq<char>, i: int)
    requires
        0 <= i,
    ensures
        block_end(s, i) matches Some(e) ==> i + 2 <= e <= s.len(),
    decreases s.len() - i,
{
    if i + 1 < s.len() && !(s[i] == '*' && s[i + 1] == '/') {
        lemma_block_end(s, i + 1);
    }
}

pub proof fn lemma_string_end(s: Seq<char>, i: int, q: char)
    requires
        0 <= i,
    ensures
        string_end(s, i, q) matches Some(e) ==> i + 1 <= e <= s.len(),
    decreases s.len() + 1 - i,
{
    if i < s.len() && s[i] != q {
        if s[i] == '\\' {
            lemma_string_end(s, i + 2, q);
        } else {
            lemma_string_end(s, i + 1, q);
        }
    }
}

pub proof fn lemma_ident_end(s: Seq<char>, i: int)
    requires
        0 <= i <= s.len(),
    ensures
        i <= ident_end(s, i) <= s.len(),
    decreases s.len() - i,
{
    if i < s.len() && is_ident_part(s[i]) {
        lemma_ident_end(s, i + 1);
    }
}

pub proof fn lemma_number_end(s: Seq<char>, i: int)
    requires
        0 <= i <= s.len(),
    ensures
        i <= number_end(s, i) <= s.len(),
    decreases s.len() - i,
{
    if i < s.len() && (is_ident_part(s[i]) || s[i] == '.') {
        lemma_number_end(s, i + 1);
    }
}

/// Every lexeme is non-empty, lies inside the source, and ends where it says.
pub proof fn lemma_lexeme_at(s: Seq<char>, pos: int)
    requires
        0 <= pos < s.len(),
    ensures
        lexeme_at(s, pos) matches Ok((_lx, e)) ==> pos < e <= s.len(),
        s.len() <= usize::MAX ==> (lexeme_at(s, pos) matches Ok((lx, e)) ==> match lx {
            Lexeme::Space => true,
            Lexeme::Token(t) => t.start == pos && t.end == e,
            Lexeme::Comment(c) => c.start == pos && c.end == e,
        }),
{
    lemma_line_end(s, pos + 2);
    lemma_block_end(s, pos + 2);
    lemma_string_end(s, pos + 1, s[pos]);
    if pos + 1 <= s.len() {
        lemma_ident_end(s, pos + 1);
        lemma_number_end(s, pos + 1);
    }
}

/// The lexer's running state: the tokens and comments found so far, the
/// attachment points of the comments, and whether a comment has been seen
/// since the last token.
pub struct LexState {
    pub tokens: Seq<Token>,
    pub comments: Seq<Comment>,
    pub leading: Seq<usize>,
    pub pending: bool,
}

/// Records one lexeme: a comment waits for the next token, and that token's
/// start becomes the comment's attachment point.
pub open spec fn absorb(st: LexState, lx: Lexeme) -> LexState {
    match lx {
        Lexeme::Space => st,
        Lexeme::Comment(c) => LexState { comments: st.comments.push(c), pending: true, ..st },
        Lexeme::Token(t) => LexState {
            tokens: st.tokens.push(t),
            leading: if st.pending {
                st.leading.push(t.start)
            } else {
                st.leading
            },
            pending: false,
            ..st
        },
    }
}

/// Lexes the source from `pos` on, starting in state `st`.
pub open spec fn lex_from(s: Seq<char>, pos: int, st: LexState) -> Result<LexState, LexError>
    decreases s.len() - pos,
{
    if pos < 0 || pos >= s.len() {
        Ok(st)
    } else {
        match lexeme_at(s, pos) {
            Err(e) => Err(e),
            Ok((lx, e)) => {
                proof {
                    lemma_lexeme_at(s, pos);
                }
                lex_from(s, e, absorb(st, lx))
            },
        }
    }
}

pub open spec fn initial_lex_state() -> LexState {
    LexState { tokens: seq![], comments: seq![], leading: seq![], pending: false }
}

/// The whole source, lexed.
pub open spec fn lex_spec(s: Seq<char>) -> Result<LexState, LexError> {
    lex_from(s, 0, initial_lex_state())
}

fn scan_line_end(s: &Vec<char>, i: usize) -> (r: usize)
    requires
        i <= s@.len(),
    ensures
        r == line_end(s@, i as int),
{
    let mut j = i;
    while j < s.len() && s[j] != '\n'
        invariant
            i <= j <= s@.len(),
            line_end(s@, j as int) == line_end(s@, i as int),
        decreases s@.len() - j,
    {
        j = j + 1;
    }
    j
}

fn scan_block_end(s: &Vec<char>, i: usize) -> (r: Option<usize>)
    requires
        i <= s@.len(),
    ensures
        match block_end(s@, i as int) {
            Some(e) => r == Some(e as usize),
            None => r is None,
        },
{
    let mut j = i;
    while s.len() - j > 1
        invariant
            i <= j <= s@.len(),
            block_end(s@, j as int) == block_end(s@, i as int),
        decreases s@.len() - j,
    {
        if s[j] == '*' && s[j + 1] == '/' {
            return Some(j + 2);
        }
        j = j + 1;
    }
    None
}

fn scan_string_end(s: &Vec<char>, i: usize, q: char) -> (r: Option<usize>)
    requires
        i <= s@.len(),
    ensures
        match string_end(s@, i as int, q) {
            Some(e) => r == Some(e as usize),
            None => r is None,
        },
{
    let mut j = i;
    while j < s.len()
        invariant
            i <= j <= s@.len(),
            string_end(s@, j as int, q) == string_end(s@, i as int, q),
        decreases s@.len() - j,
    {
        if s[j] == q {
            return Some(j + 1);
        }
        if s[j] == '\\' {
            if j + 1 >= s.len() {
                assert(string_end(s@, j + 2, q) is None);
                return None;
            }
            j = j + 2;
        } else {
            j = j + 1;
        }
    }
    None
}

fn char_is_ident_part(c: char) -> (r: bool)
    ensures
        r == is_ident_part(c),
{
    ('a' <= c && c <= 'z') || ('A' <= c && c <= 'Z') || c == '_' || c == '$' || (c as u32) >= 0x80
        || ('0' <= c && c <= '9')
}

fn scan_ident_end(s: &Vec<char>, i: usize, dots: bool) -> (r: usize)
    requires
        i <= s@.len(),
    ensures
        dots ==> r == number_end(s@, i as int),
        !dots ==> r == ident_end(s@, i as int),
{
    let mut j = i;
    while j < s.len() && (char_is_ident_part(s[j]) || (dots && s[j] == '.'))
        invariant
            i <= j <= s@.len(),
            dots ==> number_end(s@, j as int) == number_end(s@, i as int),
            !dots ==> ident_end(s@, j as int) == ident_end(s@, i as int),
        decreases s@.len() - j,
    {
        j = j + 1;
    }
    j
}

fn is_function_word(s: &Vec<char>, start: usize, end: usize) -> (r: bool)
    requires
        start <= end <= s@.len(),
    ensures
        r == (s@.subrange(start as int, end as int) == function_word()),
{
    let ghost w = s@.subrange(start as int, end as int);
    if end - start != 8 {
        assert(function_word().len() == 8);
        return false;
    }
    let r = s[start] == 'f' && s[start + 1] == 'u' && s[start + 2] == 'n' && s[start + 3] == 'c'
        && s[start + 4] == 't' && s[start + 5] == 'i' && s[start + 6] == 'o' && s[start + 7] == 'n';
    proof {
        if r {
            assert(w =~= function_word());
        } else if w == function_word() {
            assert(w[0] == 'f' && w[1] == 'u' && w[2] == 'n' && w[3] == 'c');
            assert(w[4] == 't' && w[5] == 'i' && w[6] == 'o' && w[7] == 'n');
        }
    }
    r
}

fn next_lexeme(s: &Vec<char>, pos: usize) -> (r: Result<(Lexeme, usize), LexError>)
    requires
        pos < s@.len(),
    ensures
        match (r, lexeme_at(s@, pos as int)) {
            (Ok((l, e)), Ok((l2, e2))) => l == l2 && e as int == e2,
            (Err(a), Err(b)) => a == b,
            _ => false,
        },
{
    proof {
        lemma_lexeme_at(s@, pos as int);
    }
    let c = s[pos];
    let two = s.len() - pos > 1 && c == '/';
    if c == ' ' || c == '\t' || c == '\n' || c == '\r' || c == '\x0b' || c == '\x0c' {
        Ok((Lexeme::Space, pos + 1))
    } else if two && s[pos + 1] == '/' {
        let e = scan_line_end(s, pos + 2);
        Ok((Lexeme::Comment(Comment { kind: CommentKind::Line, start: pos, end: e }), e))
    } else if two && s[pos + 1] == '*' {
        match scan_block_end(s, pos + 2) {
            Some(e) => Ok((Lexeme::Comment(Comment { kind: CommentKind::Block, start: pos, end: e }), e)),
            None => Err(LexError { position: pos, reason: LexErrorReason::UnterminatedComment }),
        }
    } else if c == '"' || c == '\'' || c == '`' {
        match scan_string_end(s, pos + 1, c) {
            Some(e) => Ok((Lexeme::Token(Token { kind: TokenKind::StringLiteral, start: pos, end: e }), e)),
            None => Err(LexError { position: pos, reason: LexErrorReason::UnterminatedString }),
        }
    } else if '0' <= c && c <= '9' {
        let e = scan_ident_end(s, pos + 1, true);
        Ok((Lexeme::Token(Token { kind: TokenKind::NumericLiteral, start: pos, end: e }), e))
    } else if char_is_ident_part(c) {
        let e = scan_ident_end(s, pos + 1, false);
        let kind = if is_function_word(s, pos, e) {
            TokenKind::FunctionKeyword
        } else {
            TokenKind::Identifier
        };
        Ok((Lexeme::Token(Token { kind, start: pos, end: e }), e))
    } else {
        Ok((Lexeme::Token(Token { kind: TokenKind::Punctuator(c), start: pos, end: pos + 1 }), pos + 1))
    }
}

/// The code tokens of a source and its comment store.
pub struct Lexed {
    pub tokens: Vec<Token>,
    pub store: CommentStore,
}

impl Lexed {
    pub open spec fn matches_state(&self, st: LexState) -> bool {
        &&& self.tokens@ == st.tokens
        &&& self.store.comments@ == st.comments
        &&& self.store.leading@ == st.leading
    }
}

/// Splits the source into code tokens and comments, attaching each run of
/// comments to the token that follows it.
pub fn lex(s: &Vec<char>) -> (r: Result<Lexed, LexError>)
    ensures
        match (r, lex_spec(s@)) {
            (Ok(l), Ok(st)) => l.matches_state(st),
            (Err(a), Err(b)) => a == b,
            _ => false,
        },
{
    let mut tokens: Vec<Token> = Vec::new();
    let mut comments: Vec<Comment> = Vec::new();
    let mut leading: Vec<usize> = Vec::new();
    let mut pending = false;
    let mut pos: usize = 0;
    while pos < s.len()
        invariant
            pos <= s@.len(),
            lex_spec(s@) == lex_from(
                s@,
                pos as int,
                LexState { tokens: tokens@, comments: comments@, leading: leading@, pending },
            ),
        decreases s@.len() - pos,
    {
        match next_lexeme(s, pos) {
            Err(e) => {
                return Err(e);
            },
            Ok((lx, e)) => {
                proof {
                    lemma_lexeme_at(s@, pos as int);
                }
                match lx {
                    Lexeme::Space => {},
                    Lexeme::Comment(c) => {
                        comments.push(c);
                        pending = true;
                    },
                    Lexeme::Token(t) => {
                        if pending {
                            leading.push(t.start);
                        }
                        tokens.push(t);
                        pending = false;
                    },
                }
                pos = e;
            },
        }
    }
    Ok(Lexed { tokens, store: CommentStore { comments, leading } })
}

/// Every token lies within the first `n` characters.
pub open spec fn tokens_within(toks: Seq<Token>, n: int) -> bool {
    forall|i: int| 0 <= i < toks.len() ==> #[trigger] toks[i].start <= toks[i].end <= n
}

/// The tokens that the lexer produces lie within the source.
pub proof fn lemma_lex_within(s: Seq<char>, pos: int, st: LexState)
    requires
        0 <= pos,
        s.len() <= usize::MAX,
        tokens_within(st.tokens, s.len() as int),
    ensures
        lex_from(s, pos, st) matches Ok(r) ==> tokens_within(r.tokens, s.len() as int),
    decreases s.len() - pos,
{
    if pos < s.len() {
        lemma_lexeme_at(s, pos);
        if let Ok((lx, e)) = lexeme_at(s, pos) {
            if let Lexeme::Token(t) = lx {
                let next = st.tokens.push(t);
                assert forall|i: int| 0 <= i < next.len() implies #[trigger] next[i].start
                    <= next[i].end <= s.len() by {
                    if i < st.tokens.len() {
                        assert(next[i] == st.tokens[i]);
                    }
                }
            }
            lemma_lex_within(s, e, absorb(st, lx));
        }
    }
}

/// A quote always opens a string literal. Comment markers inside it belong to
/// the literal and are never recorded as comments, and the literal, being a
/// code token, ends any run of comments before it, so none of them attaches
/// to what follows the literal.
pub proof fn law_string_hides_comment_marks(s: Seq<char>, pos: int, st: LexState)
    requires
        0 <= pos < s.len(),
        is_quote(s[pos]),
    ensures
        match lexeme_at(s, pos) {
            Ok((lx, e)) => {
                &&& lx == token(TokenKind::StringLiteral, pos, e)
                &&& absorb(st, lx).comments == st.comments
                &&& !absorb(st, lx).pending
            },
            Err(err) => err.reason == LexErrorReason::UnterminatedString,
        },
{
}

proof fn lemma_no_closer(s: Seq<char>, i: int)
    requires
        0 <= i,
        forall|q: int| i <= q && q + 1 < s.len() ==> !(#[trigger] s[q] == '*' && s[q + 1] == '/'),
    ensures
        block_end(s, i) is None,
    decreases s.len() - i,
{
    if i + 1 < s.len() {
        lemma_no_closer(s, i + 1);
    }
}

/// A block comment with no `*/` after its opening ends lexing with an error
/// at the comment's start, whatever was lexed before it.
pub proof fn law_unterminated_block_comment(s: Seq<char>, pos: int, st: LexState)
    requires
        0 <= pos,
        pos + 1 < s.len(),
        s[pos] == '/',
        s[pos + 1] == '*',
        forall|q: int| pos + 2 <= q && q + 1 < s.len() ==> !(#[trigger] s[q] == '*' && s[q + 1] == '/'),
    ensures
        lex_from(s, pos, st) == Err::<LexState, LexError>(
            LexError { position: pos as usize, reason: LexErrorReason::UnterminatedComment },
        ),
{
    lemma_no_closer(s, pos + 2);
}

} // verus!
