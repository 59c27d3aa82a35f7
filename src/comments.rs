//! The comment store, and why it attaches each comment where it does.
use vstd::prelude::*;
use crate::lexer::{
    absorb, initial_lex_state, lemma_lexeme_at, lex_from, lex_spec, lexeme_at, Comment, LexState,
    Lexeme, Token,
};

verus! {

/// The comments of a source, and where they attach: `leading` lists, in
/// source order, the start of every token that one or more comments precede
/// with no other token in between.
pub struct CommentStore {
    pub comments: Vec<Comment>,
    pub leading: Vec<usize>,
}

impl CommentStore {
    /// Whether a comment attaches to the token that starts at `position`.
    pub fn has_leading(&self, position: usize) -> (r: bool)
        ensures
            r == self.leading@.contains(position),
    {
        let mut i: usize = 0;
        while i < self.leading.len()
            invariant
                i <= self.leading@.len(),
                forall|k: int| 0 <= k < i ==> self.leading@[k] != position,
            decreases self.leading@.len() - i,
        {
            if self.leading[i] == position {
                return true;
            }
            i = i + 1;
        }
        false
    }
}

/// Comment `c` lies in the trivia right before token `i`: after the token
/// before it, if any, and before token `i` itself.
pub open spec fn precedes(c: Comment, toks: Seq<Token>, i: int) -> bool {
    &&& c.end <= toks[i].start
    &&& (i == 0 || toks[i - 1].end <= c.start)
}

/// Some comment attaches to the token that starts at `p`.
pub open spec fn attached_at(toks: Seq<Token>, coms: Seq<Comment>, p: usize) -> bool {
    exists|i: int, k: int|
        0 <= i < toks.len() && 0 <= k < coms.len() && toks[i].start == p && #[trigger] precedes(
            coms[k],
            toks,
            i,
        )
}

/// Tokens come in source order, none empty, and no comment overlaps a token.
pub open spec fn well_placed(toks: Seq<Token>, coms: Seq<Comment>) -> bool {
    &&& forall|i: int| 0 <= i < toks.len() ==> #[trigger] toks[i].start < toks[i].end
    &&& forall|i: int| 0 < i < toks.len() ==> toks[i - 1].end <= #[trigger] toks[i].start
    &&& forall|i: int, k: int|
        0 <= i < toks.len() && 0 <= k < coms.len() ==> #[trigger] toks[i].end <= #[trigger] coms[k].start
            || coms[k].end <= toks[i].start
}

spec fn lex_invariant(st: LexState, pos: int) -> bool {
    &&& well_placed(st.tokens, st.comments)
    &&& forall|i: int| 0 <= i < st.tokens.len() ==> #[trigger] st.tokens[i].end <= pos
    &&& forall|k: int|
        0 <= k < st.comments.len() ==> #[trigger] st.comments[k].start < st.comments[k].end <= pos
    &&& st.pending <==> exists|k: int|
        0 <= k < st.comments.len() && (st.tokens.len() == 0 || st.tokens.last().end
            <= #[trigger] st.comments[k].start)
    &&& forall|p: usize| st.leading.contains(p) <==> attached_at(st.tokens, st.comments, p)
}

proof fn lemma_absorb_comment(st: LexState, c: Comment, pos: int, e: int)
    requires
        lex_invariant(st, pos),
        c.start == pos < c.end == e,
    ensures
        lex_invariant(absorb(st, Lexeme::Comment(c)), e),
{
    let nx = absorb(st, Lexeme::Comment(c));
    let coms = nx.comments;
    assert(coms == st.comments.push(c));
    assert forall|i: int, k: int|
        0 <= i < nx.tokens.len() && 0 <= k < coms.len() implies #[trigger] nx.tokens[i].end
        <= #[trigger] coms[k].start || coms[k].end <= nx.tokens[i].start by {
        if k < st.comments.len() {
            assert(coms[k] == st.comments[k]);
        }
    }
    assert(coms[coms.len() - 1] == c);
    assert forall|p: usize| nx.leading.contains(p) <==> attached_at(nx.tokens, coms, p) by {
        if attached_at(nx.tokens, coms, p) {
            let (i, k) = choose|i: int, k: int|
                0 <= i < nx.tokens.len() && 0 <= k < coms.len() && nx.tokens[i].start == p
                    && #[trigger] precedes(coms[k], nx.tokens, i);
            if k == st.comments.len() {
                assert(nx.tokens[i].end <= pos);
            } else {
                assert(coms[k] == st.comments[k]);
                assert(precedes(st.comments[k], st.tokens, i));
            }
        }
        if attached_at(st.tokens, st.comments, p) {
            let (i, k) = choose|i: int, k: int|
                0 <= i < st.tokens.len() && 0 <= k < st.comments.len() && st.tokens[i].start
                    == p && #[trigger] precedes(st.comments[k], st.tokens, i);
            assert(coms[k] == st.comments[k]);
            assert(precedes(coms[k], nx.tokens, i));
        }
    }
    assert forall|k: int| 0 <= k < coms.len() implies #[trigger] coms[k].start
        < coms[k].end <= e by {
        if k < st.comments.len() {
            assert(coms[k] == st.comments[k]);
        }
    }
    assert(nx.tokens.len() == 0 || nx.tokens.last().end <= coms[coms.len() - 1].start);
}

proof fn lemma_token_placed(st: LexState, tk: Token, pos: int, e: int)
    requires
        lex_invariant(st, pos),
        tk.start == pos < tk.end == e,
    ensures
        well_placed(st.tokens.push(tk), st.comments),
        forall|i: int|
            0 <= i < st.tokens.push(tk).len() ==> #[trigger] st.tokens.push(tk)[i].end <= e,
{
    let toks = st.tokens.push(tk);
    let coms = st.comments;
    assert(toks[toks.len() - 1] == tk);
    assert forall|i: int| 0 <= i < toks.len() implies #[trigger] toks[i].start < toks[i].end
        && toks[i].end <= e by {
        if i < st.tokens.len() {
            assert(toks[i] == st.tokens[i]);
        }
    }
    assert forall|i: int| 0 < i < toks.len() implies toks[i - 1].end <= #[trigger] toks[i].start by {
        if i < st.tokens.len() {
            assert(toks[i] == st.tokens[i]);
        }
        assert(toks[i - 1] == st.tokens[i - 1]);
    }
    assert forall|i: int, k: int| 0 <= i < toks.len() && 0 <= k < coms.len() implies #[trigger] toks[i].end
        <= #[trigger] coms[k].start || coms[k].end <= toks[i].start by {
        if i < st.tokens.len() {
            assert(toks[i] == st.tokens[i]);
        }
    }
}

proof fn lemma_token_leading(st: LexState, tk: Token, pos: int, e: int)
    requires
        lex_invariant(st, pos),
        tk.start == pos < tk.end == e,
    ensures
        forall|p: usize| #[trigger]
            absorb(st, Lexeme::Token(tk)).leading.contains(p) <==> attached_at(
                st.tokens.push(tk),
                st.comments,
                p,
            ),
{
    let nx = absorb(st, Lexeme::Token(tk));
    let toks = st.tokens.push(tk);
    let coms = st.comments;
    let n = st.tokens.len() as int;
    assert(toks[n] == tk);
    assert forall|p: usize| nx.leading.contains(p) <==> attached_at(toks, coms, p) by {
        if attached_at(toks, coms, p) {
            let (i, k) = choose|i: int, k: int|
                0 <= i < toks.len() && 0 <= k < coms.len() && toks[i].start == p && #[trigger] precedes(
                    coms[k],
                    toks,
                    i,
                );
            if i < n {
                assert(toks[i] == st.tokens[i]);
                assert(i == 0 || toks[i - 1] == st.tokens[i - 1]);
                assert(precedes(coms[k], st.tokens, i));
                assert(attached_at(st.tokens, st.comments, p));
                assert(st.leading.contains(p));
                if st.pending {
                    assert(nx.leading == st.leading.push(tk.start));
                    let j = choose|j: int| 0 <= j < st.leading.len() && st.leading[j] == p;
                    assert(nx.leading[j] == p);
                }
            } else {
                assert(i == n);
                assert(n == 0 || st.tokens.last() == toks[i - 1]);
                assert(n == 0 || st.tokens.last().end <= coms[k].start);
                assert(st.pending);
                assert(nx.leading == st.leading.push(tk.start));
                assert(nx.leading[nx.leading.len() - 1] == p);
            }
        }
        if nx.leading.contains(p) {
            if st.leading.contains(p) {
                let (i, k) = choose|i: int, k: int|
                    0 <= i < st.tokens.len() && 0 <= k < coms.len() && st.tokens[i].start == p
                        && #[trigger] precedes(coms[k], st.tokens, i);
                assert(toks[i] == st.tokens[i]);
                assert(i == 0 || toks[i - 1] == st.tokens[i - 1]);
                assert(precedes(coms[k], toks, i));
            } else {
                assert(st.pending);
                let j = choose|j: int| 0 <= j < nx.leading.len() && nx.leading[j] == p;
                assert(j == st.leading.len());
                let k = choose|k: int|
                    0 <= k < coms.len() && (n == 0 || st.tokens.last().end <= #[trigger] coms[k].start);
                assert(n == 0 || st.tokens.last() == toks[n - 1]);
                assert(precedes(coms[k], toks, n));
            }
        }
    }
}

proof fn lemma_absorb_token(st: LexState, tk: Token, pos: int, e: int)
    requires
        lex_invariant(st, pos),
        tk.start == pos < tk.end == e,
    ensures
        lex_invariant(absorb(st, Lexeme::Token(tk)), e),
{
    let nx = absorb(st, Lexeme::Token(tk));
    lemma_token_placed(st, tk, pos, e);
    lemma_token_leading(st, tk, pos, e);
    assert(nx.tokens == st.tokens.push(tk));
    assert(nx.tokens.last() == tk);
    if exists|k: int|
        0 <= k < nx.comments.len() && (nx.tokens.len() == 0 || nx.tokens.last().end
            <= #[trigger] nx.comments[k].start) {
        let k = choose|k: int|
            0 <= k < nx.comments.len() && (nx.tokens.len() == 0 || nx.tokens.last().end
                <= #[trigger] nx.comments[k].start);
        assert(nx.comments[k].start < nx.comments[k].end <= pos);
    }
}

proof fn lemma_absorb(s: Seq<char>, pos: int, st: LexState)
    requires
        0 <= pos < s.len(),
        s.len() <= usize::MAX,
        lex_invariant(st, pos),
        lexeme_at(s, pos) is Ok,
    ensures
        lex_invariant(absorb(st, lexeme_at(s, pos)->Ok_0.0), lexeme_at(s, pos)->Ok_0.1),
{
    lemma_lexeme_at(s, pos);
    let (lx, e) = lexeme_at(s, pos)->Ok_0;
    match lx {
        Lexeme::Space => {},
        Lexeme::Comment(c) => lemma_absorb_comment(st, c, pos, e),
        Lexeme::Token(tk) => lemma_absorb_token(st, tk, pos, e),
    }
}

proof fn lemma_lex_invariant(s: Seq<char>, pos: int, st: LexState)
    requires
        0 <= pos <= s.len(),
        s.len() <= usize::MAX,
        lex_invariant(st, pos),
    ensures
        lex_from(s, pos, st) matches Ok(r) ==> lex_invariant(r, s.len() as int),
    decreases s.len() - pos,
{
    if pos < s.len() {
        lemma_lexeme_at(s, pos);
        if let Ok((lx, e)) = lexeme_at(s, pos) {
            lemma_absorb(s, pos, st);
            lemma_lex_invariant(s, e, absorb(st, lx));
        }
    }
}

/// After a successful lex, the tokens are in source order and disjoint from
/// the comments, and the comment store marks exactly the tokens right before
/// which a comment lies: after the previous token, with only whitespace and
/// comments between.
pub proof fn law_leading_comments(s: Seq<char>)
    requires
        s.len() <= usize::MAX,
    ensures
        lex_spec(s) matches Ok(st) ==> {
            &&& well_placed(st.tokens, st.comments)
            &&& forall|p: usize| #[trigger]
                st.leading.contains(p) <==> attached_at(st.tokens, st.comments, p)
        },
{
    lemma_lex_invariant(s, 0, initial_lex_state());
}

} // verus!
