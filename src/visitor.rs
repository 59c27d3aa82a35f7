//! The visitor: names the declarations that no comment precedes.
use vstd::prelude::*;
use vstd::string::{StrSliceExecFns, StringExecFns};
use crate::comments::CommentStore;
use crate::parser::{headers, FunctionDecl, Identifier, Module};

verus! {

/// The declarations, in order, whose keyword no comment precedes.
pub open spec fn undocumented(fns: Seq<FunctionDecl>, leading: Seq<usize>) -> Seq<FunctionDecl>
    decreases fns.len(),
{
    if fns.len() == 0 {
        seq![]
    } else {
        let rest = undocumented(fns.drop_last(), leading);
        if leading.contains(fns.last().start) {
            rest
        } else {
            rest.push(fns.last())
        }
    }
}

/// The source text of an identifier.
pub open spec fn name_text(s: Seq<char>, id: Identifier) -> Seq<char> {
    s.subrange(id.start as int, id.end as int)
}

pub open spec fn names(s: Seq<char>, fns: Seq<FunctionDecl>) -> Seq<Seq<char>> {
    fns.map_values(|f: FunctionDecl| name_text(s, f.name))
}

pub open spec fn names_within(fns: Seq<FunctionDecl>, n: int) -> bool {
    forall|i: int| 0 <= i < fns.len() ==> #[trigger] fns[i].name.start <= fns[i].name.end <= n
}

pub open spec fn texts(v: Seq<String>) -> Seq<Seq<char>> {
    v.map_values(|x: String| x@)
}

/// The source text of an identifier, as it is written.
pub fn get_text(src: &str, id: &Identifier) -> (r: String)
    requires
        id.start <= id.end <= src@.len(),
    ensures
        r@ == name_text(src@, *id),
{
    let text = src.substring_char(id.start, id.end);
    <String as StringExecFns>::from_str(text)
}

/// Walks the declarations in order and names each one that no comment
/// precedes.
pub fn collect_undocumented(src: &str, module: &Module, store: &CommentStore) -> (r: Vec<String>)
    requires
        names_within(module.functions@, src@.len() as int),
    ensures
        texts(r@) == names(src@, undocumented(module.functions@, store.leading@)),
{
    let fns = &module.functions;
    let ghost leading = store.leading@;
    let mut out: Vec<String> = Vec::new();
    let mut i: usize = 0;
    while i < fns.len()
        invariant
            i <= fns@.len(),
            fns == &module.functions,
            leading == store.leading@,
            names_within(fns@, src@.len() as int),
            texts(out@) == names(src@, undocumented(fns@.take(i as int), leading)),
        decreases fns@.len() - i,
    {
        let f = fns[i];
        proof {
            assert(fns@.take(i as int + 1).drop_last() =~= fns@.take(i as int));
            assert(fns@.take(i as int + 1).last() == f);
        }
        if !store.has_leading(f.start) {
            let name = get_text(src, &f.name);
            proof {
                let u = undocumented(fns@.take(i as int), leading);
                assert(texts(out@.push(name)) =~= texts(out@).push(name@));
                assert(names(src@, u.push(f)) =~= names(src@, u).push(name_text(src@, f.name)));
            }
            out.push(name);
        }
        i = i + 1;
    }
    proof {
        assert(fns@.take(fns@.len() as int) =~= fns@);
    }
    out
}

/// The names of the given keyword headers, in order, whose keyword position
/// has no comment attached.
pub open spec fn unattached_names(
    s: Seq<char>,
    hs: Seq<(usize, Identifier)>,
    attached: spec_fn(usize) -> bool,
) -> Seq<Seq<char>>
    decreases hs.len(),
{
    if hs.len() == 0 {
        seq![]
    } else {
        let rest = unattached_names(s, hs.drop_last(), attached);
        if attached(hs.last().0) {
            rest
        } else {
            rest.push(name_text(s, hs.last().1))
        }
    }
}

pub proof fn lemma_names_by_headers(s: Seq<char>, fns: Seq<FunctionDecl>, leading: Seq<usize>)
    ensures
        names(s, undocumented(fns, leading)) == unattached_names(
            s,
            headers(fns),
            |p: usize| leading.contains(p),
        ),
    decreases fns.len(),
{
    if fns.len() > 0 {
        lemma_names_by_headers(s, fns.drop_last(), leading);
        assert(headers(fns).drop_last() =~= headers(fns.drop_last()));
        let u = undocumented(fns.drop_last(), leading);
        assert(names(s, u.push(fns.last())) =~= names(s, u).push(name_text(s, fns.last().name)));
    }
}

/// Whether a declaration is reported depends only on whether a comment
/// precedes its own keyword: not on the function that encloses it, nor on
/// any other declaration.
pub proof fn law_report_depends_on_own_comment(
    fns: Seq<FunctionDecl>,
    leading: Seq<usize>,
    f: FunctionDecl,
)
    ensures
        undocumented(fns, leading).contains(f) <==> (fns.contains(f) && !leading.contains(f.start)),
    decreases fns.len(),
{
    if fns.len() > 0 {
        let init = fns.drop_last();
        law_report_depends_on_own_comment(init, leading, f);
        assert(fns =~= init.push(fns.last()));
        if fns.contains(f) && !init.contains(f) {
            let k = choose|k: int| 0 <= k < fns.len() && fns[k] == f;
            assert(k == fns.len() - 1);
        }
        if init.contains(f) {
            let k = choose|k: int| 0 <= k < init.len() && init[k] == f;
            assert(fns[k] == f);
        }
        let u = undocumented(init, leading);
        if undocumented(fns, leading) == u.push(fns.last()) {
            if u.push(fns.last()).contains(f) && !u.contains(f) {
                let k = choose|k: int| 0 <= k < u.len() + 1 && u.push(fns.last())[k] == f;
                assert(k == u.len());
            }
            if u.contains(f) {
                let k = choose|k: int| 0 <= k < u.len() && u[k] == f;
                assert(u.push(fns.last())[k] == f);
            }
            if fns.last() == f {
                assert(u.push(fns.last())[u.len() as int] == f);
            }
        }
    }
}

} // verus!
