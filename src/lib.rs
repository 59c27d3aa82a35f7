//! Finds the named function declarations of a JavaScript-like source that no
//! comment precedes.
//!
//! The pipeline is a lexer that sets comments aside and records where they
//! attach, a parser that recovers the function declarations and their
//! nesting, and a visitor that names each declaration without a leading
//! comment. Positions are character offsets into the source.
use vstd::prelude::*;
use vstd::std_specs::iter::IteratorSpec;

pub mod comments;
pub mod lexer;
pub mod parser;
pub mod visitor;

use crate::comments::{attached_at, law_leading_comments};
use crate::lexer::{initial_lex_state, lemma_lex_within, lex, lex_spec, LexError, TokenKind};
use crate::parser::{
    headers, keyword_headers, law_declarations_follow_keywords, law_function_needs_name_and_params,
    lemma_keyword_names_within, parse_module, parse_spec, ParseError,
};
use crate::visitor::{
    collect_undocumented, lemma_names_by_headers, names, texts, unattached_names, undocumented,
};

verus! {

broadcast use vstd::string::next_postcondition, vstd::string::axiom_spec_iter;

/// Why a source could not be checked.
#[derive(Clone, Copy, Debug, PartialEq, Eq, Structural)]
pub enum CheckError {
    Lex(LexError),
    Parse(ParseError),
}

/// The names of the undocumented functions of a source, in source order, or
/// the first error met.
pub open spec fn check_spec(s: Seq<char>) -> Result<Seq<Seq<char>>, CheckError> {
    match lex_spec(s) {
        Err(e) => Err(CheckError::Lex(e)),
        Ok(ls) => match parse_spec(ls.tokens) {
            Err(e) => Err(CheckError::Parse(e)),
            Ok(fns) => Ok(names(s, undocumented(fns, ls.leading))),
        },
    }
}

fn chars_of(src: &str) -> (r: Vec<char>)
    ensures
        r@ == src@,
{
    let mut it = src.chars();
    let mut out: Vec<char> = Vec::new();
    loop
        invariant
            out@ + it.remaining() == src@,
        decreases src@.len() - out@.len(),
    {
        match it.next() {
            Some(c) => {
                proof {
                    assert(out@.push(c) + it.remaining() =~= src@);
                }
                out.push(c);
            },
            None => {
                proof {
                    assert(out@ =~= src@);
                }
                return out;
            },
        }
    }
}

/// Lists, in source order, the names of the function declarations that no
/// comment precedes; fails on the first lexing or parsing error.
pub fn check(src: &str) -> (r: Result<Vec<String>, CheckError>)
    ensures
        match (r, check_spec(src@)) {
            (Ok(v), Ok(ns)) => texts(v@) == ns,
            (Err(a), Err(b)) => a == b,
            _ => false,
        },
{
    let chars = chars_of(src);
    let lexed = match lex(&chars) {
        Ok(l) => l,
        Err(e) => {
            return Err(CheckError::Lex(e));
        },
    };
    let module = match parse_module(&lexed.tokens) {
        Ok(m) => m,
        Err(e) => {
            return Err(CheckError::Parse(e));
        },
    };
    proof {
        let toks = lexed.tokens@;
        let fns = module.functions@;
        lemma_lex_within(chars@, 0, initial_lex_state());
        law_declarations_follow_keywords(toks);
        lemma_keyword_names_within(toks, toks.len() as int, src@.len() as int);
        assert forall|i: int| 0 <= i < fns.len() implies #[trigger] fns[i].name.start
            <= fns[i].name.end <= src@.len() by {
            assert(headers(fns)[i].1 == fns[i].name);
        }
    }
    Ok(collect_undocumented(src, &module, &lexed.store))
}

/// For a source that checks, the result names each `function` keyword
/// before which no comment lies (after the previous token), once and in
/// source order, by the text of the token after it; every keyword that a
/// comment precedes is left out.
pub proof fn law_reports_unattached_keywords(s: Seq<char>)
    requires
        s.len() <= usize::MAX,
    ensures
        check_spec(s) matches Ok(ns) ==> lex_spec(s) matches Ok(ls) && ns == unattached_names(
            s,
            keyword_headers(ls.tokens, ls.tokens.len() as int),
            |p: usize| attached_at(ls.tokens, ls.comments, p),
        ),
{
    if let Ok(ls) = lex_spec(s) {
        law_declarations_follow_keywords(ls.tokens);
        law_leading_comments(s);
        if let Ok(fns) = parse_spec(ls.tokens) {
            lemma_names_by_headers(s, fns, ls.leading);
            let by_store = |p: usize| ls.leading.contains(p);
            let by_position = |p: usize| attached_at(ls.tokens, ls.comments, p);
            assert(by_store =~= by_position);
        }
    }
}

/// Checking is a function of the source alone: the same text always gives
/// the same names in the same order, or the same error.
pub proof fn law_check_is_deterministic(s1: Seq<char>, s2: Seq<char>)
    requires
        s1 == s2,
    ensures
        check_spec(s1) == check_spec(s2),
{
}

/// A source whose tokens hold a `function` keyword that no name and opening
/// parenthesis follow gives an error, never a list of names.
pub proof fn law_malformed_function_fails(s: Seq<char>, i: int)
    requires
        lex_spec(s) matches Ok(ls) && 0 <= i < ls.tokens.len() && ls.tokens[i].kind
            == TokenKind::FunctionKeyword && !(i + 2 < ls.tokens.len() && ls.tokens[i + 1].kind
            == TokenKind::Identifier && ls.tokens[i + 2].kind == TokenKind::Punctuator('(')),
    ensures
        check_spec(s) is Err,
{
    law_function_needs_name_and_params(lex_spec(s)->Ok_0.tokens, i);
}

} // verus!
