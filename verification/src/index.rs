//! Slice indexing and field access in a body: which indexes need a bounds
//! proof, which index expressions are outside what the verifier supports,
//! and which types a field access requires to be Trust models.

use crate::segments::{executable_token_segments, executable_tokens};
use crate::semantics::{SemanticSliceIndex, TrustFunctionSemantics};
use crate::solver::Param;
use crate::text::{
    append, append_lit, chars_of_string, clone_texts, ends_with_lit, same, slice_of, starts_with_lit,
    strip_prefix_lit, strip_suffix_lit, texts_contain, trim, views,
};
use crate::tokens::{
    is_ident, matching_token_group, normalize, simple_grouped_value_expression, tok_char, tok_is,
    token_range, tokens, type_name_tail,
};
use crate::arith::join3;
use crate::obligations::semantic_obligation_gap;
use vstd::prelude::*;

verus! {

pub struct SliceIndexObligation {
    pub base: Vec<char>,
    pub index: Vec<char>,
    pub expression: Vec<char>,
    pub assumptions: Vec<Vec<char>>,
}

/// A parameter with this name whose type is a shared slice `&[T]`.
pub fn is_read_only_slice_param(name: &[char], params: &[Param]) -> (r: bool)
    ensures
        r == exists|k: int| 0 <= k < params@.len() && params@[k].name@ == name@
            && crate::text::starts_with_spec(params@[k].ty@, "&["@) && crate::text::ends_with_spec(params@[k].ty@, "]"@),
{
    let mut i: usize = 0;
    while i < params.len()
        invariant
            i <= params.len(),
            forall|k: int| 0 <= k < i ==> !(params@[k].name@ == name@
                && crate::text::starts_with_spec(params@[k].ty@, "&["@) && crate::text::ends_with_spec(params@[k].ty@, "]"@)),
        decreases params.len() - i,
    {
        if same(&params[i].name, name) && starts_with_lit(&params[i].ty, "&[") && ends_with_lit(&params[i].ty, "]") {
            return true;
        }
        i += 1;
    }
    false
}

/// A read-only slice type's parameter.
pub open spec fn slice_param(name: Seq<char>, params: Seq<Param>) -> bool {
    exists|k: int| 0 <= k < params.len() && (#[trigger] params[k]).name@ == name
        && crate::text::starts_with_spec(params[k].ty@, "&["@) && crate::text::ends_with_spec(params[k].ty@, "]"@)
}

/// `T` of `&[T]` (the type trimmed first), trimmed.
pub open spec fn slice_element_spec(ty: Seq<char>) -> Option<Seq<char>> {
    let t = crate::text::trim_spec(ty);
    if crate::text::starts_with_spec(t, "&["@) && crate::text::ends_with_spec(t.skip(2), "]"@) {
        Some(crate::text::trim_spec(t.skip(2).take(t.skip(2).len() - 1)))
    } else {
        None
    }
}

/// `T` of `&[T]`, trimmed.
pub fn slice_element_type(ty: &[char]) -> (r: Option<Vec<char>>)
    ensures
        r matches Some(e) ==> e@.len() + 3 <= ty@.len(),
        crate::discharge::opt_view(r) == slice_element_spec(ty@),
{
    proof {
        reveal_strlit("&[");
        reveal_strlit("]");
    }
    let t = trim(ty);
    match strip_prefix_lit(&t, "&[") {
        Some(rest) => match strip_suffix_lit(&rest, "]") {
            Some(inner) => Some(trim(&inner)),
            None => None,
        },
        None => None,
    }
}

/// `base[index]` as the obligation text writes it.
fn index_text(base: &[char], index: &[char]) -> (r: Vec<char>)
    ensures
        r@ == base@ + "["@ + index@ + "]"@,
{
    let mut e = join3(base, "[", index);
    append_lit(&mut e, "]");
    e
}

/// Indexes `p[..]` of slice parameters in one segment's tokens.
/// `p [ .. ]` at token `idx`: a slice parameter indexed by a non-empty
/// bracket group that closes.
pub open spec fn slice_index_at(t: Seq<Seq<char>>, params: Seq<Param>, idx: int) -> bool {
    &&& 0 <= idx && idx + 3 < t.len()
    &&& t[idx + 1] == seq!['[']
    &&& slice_param(t[idx], params)
    &&& crate::tokens::token_group_close(t, '[', ']', idx + 2, 1) matches Some(e) && e > idx + 2
}

/// Some obligation indexes this base.
pub open spec fn index_recorded(r: Seq<SliceIndexObligation>, base: Seq<char>) -> bool {
    exists|k: int| 0 <= k < r.len() && (#[trigger] r[k]).base@ == base
}

pub fn slice_index_obligations_from_tokens(t: &[Vec<char>], params: &[Param], assumptions: &Vec<Vec<char>>) -> (r: Vec<SliceIndexObligation>)
    ensures
        forall|k: int| 0 <= k < r@.len() ==> slice_param((#[trigger] r@[k]).base@, params@) && r@[k].expression@ == r@[k].base@
            + "["@ + r@[k].index@ + "]"@ && views(r@[k].assumptions@) == views(assumptions@),
        !crate::tokens::has_token(views(t@), "["@) ==> r@.len() == 0,
        forall|idx: int| #[trigger] slice_index_at(views(t@), params@, idx) ==> index_recorded(r@, views(t@)[idx]),
{
    proof { reveal_strlit("["); }
    let mut obligations: Vec<SliceIndexObligation> = Vec::new();
    let mut idx: usize = 0;
    while idx < t.len() && t.len() - idx > 3
        invariant
            "["@ == seq!['['],
            forall|k: int| 0 <= k < obligations@.len() ==> slice_param((#[trigger] obligations@[k]).base@, params@)
                && obligations@[k].expression@ == obligations@[k].base@ + "["@ + obligations@[k].index@ + "]"@
                && views(obligations@[k].assumptions@) == views(assumptions@),
            !crate::tokens::has_token(views(t@), "["@) ==> obligations@.len() == 0,
            forall|j: int| 0 <= j < idx && #[trigger] slice_index_at(views(t@), params@, j) ==> index_recorded(obligations@,
                views(t@)[j]),
        decreases t.len() - idx,
    {
        let base = &t[idx];
        assert(views(t@)[idx as int] == base@);
        if !tok_char(t, idx + 1, '[') || !is_read_only_slice_param(base, params) {
            idx += 1;
            continue;
        }
        assert(views(t@)[idx + 1] == "["@);
        assert(slice_param(base@, params@));
        let mut depth: usize = 1;
        let mut end = idx + 2;
        while end < t.len()
            invariant_except_break
                idx + 2 <= end <= t@.len(),
                1 <= depth <= end - idx - 1,
                crate::tokens::token_group_close(views(t@), '[', ']', idx + 2, 1) == crate::tokens::token_group_close(views(t@),
                    '[', ']', end as int, depth as int),
            ensures
                idx + 2 <= end <= t@.len(),
                end < t@.len() ==> crate::tokens::token_group_close(views(t@), '[', ']', idx + 2, 1) == Some(end as int),
                end == t@.len() ==> crate::tokens::token_group_close(views(t@), '[', ']', idx + 2, 1) is None,
            decreases t.len() - end,
        {
            if tok_char(t, end, '[') {
                depth = depth.saturating_add(1);
            } else if tok_char(t, end, ']') {
                depth = depth.saturating_sub(1);
                if depth == 0 {
                    break;
                }
            }
            end += 1;
        }
        if end >= t.len() || end == idx + 2 {
            idx += 1;
            continue;
        }
        let index = simple_grouped_value_expression(&token_range(t, idx + 2, end));
        let expression = index_text(base, &index);
        let b = slice_of(base, 0, base.len());
        assert(base@.subrange(0, base@.len() as int) =~= base@);
        let ghost before = obligations@;
        obligations.push(SliceIndexObligation {
            base: b,
            index,
            expression,
            assumptions: clone_texts(assumptions),
        });
        assert forall|k: int| 0 <= k < obligations@.len() implies slice_param((#[trigger] obligations@[k]).base@, params@)
            && obligations@[k].expression@ == obligations@[k].base@ + "["@ + obligations@[k].index@ + "]"@
            && views(obligations@[k].assumptions@) == views(assumptions@) by {
            if k < before.len() {
                assert(obligations@[k] == before[k]);
            }
        }
        assert forall|j: int| 0 <= j < idx + 1 && #[trigger] slice_index_at(views(t@), params@, j) implies index_recorded(
            obligations@, views(t@)[j]) by {
            if j < idx {
                let k = choose|k: int| 0 <= k < before.len() && (#[trigger] before[k]).base@ == views(t@)[j];
                assert(obligations@[k] == before[k]);
            } else {
                assert(obligations@[before.len() as int].base@ == views(t@)[j]);
            }
        }
        idx += 1;
    }
    assert forall|j: int| #[trigger] slice_index_at(views(t@), params@, j) implies j < idx by {}
    obligations
}

/// The slice indexes of each executable segment; each indexes a slice
/// parameter.
pub fn slice_index_obligations(body: &[char], params: &[Param]) -> (r: Vec<SliceIndexObligation>)
    ensures
        forall|k: int| 0 <= k < r@.len() ==> slice_param((#[trigger] r@[k]).base@, params@) && r@[k].expression@ == r@[k].base@
            + "["@ + r@[k].index@ + "]"@,
        crate::segments::straight_line(body@) ==> forall|idx: int| #[trigger] slice_index_at(
            crate::segments::executable_view(body@), params@, idx) ==> index_recorded(r@, crate::segments::executable_view(body@)[idx]),
        crate::segments::straight_line(body@) && r@.len() > 0 ==> crate::tokens::has_token(crate::segments::executable_view(
            body@), "["@),
{
    let segments = executable_token_segments(body);
    let ghost ev = crate::segments::executable_view(body@);
    let mut out: Vec<SliceIndexObligation> = Vec::new();
    let mut i: usize = 0;
    while i < segments.len()
        invariant
            forall|k: int| 0 <= k < out@.len() ==> slice_param((#[trigger] out@[k]).base@, params@) && out@[k].expression@
                == out@[k].base@ + "["@ + out@[k].index@ + "]"@,
            i <= segments@.len(),
            ev == crate::segments::executable_view(body@),
            crate::segments::straight_line(body@) ==> segments@.len() == (if ev.len() > 0 { 1int } else { 0int }),
            crate::segments::straight_line(body@) && segments@.len() > 0 ==> views(segments@[0].tokens@) == ev,
            crate::segments::straight_line(body@) && i > 0 ==> forall|idx: int| #[trigger] slice_index_at(ev, params@, idx)
                ==> index_recorded(out@, ev[idx]),
            crate::segments::straight_line(body@) && i == 0 ==> out@.len() == 0,
            crate::segments::straight_line(body@) && out@.len() > 0 ==> crate::tokens::has_token(ev, "["@),
        decreases segments.len() - i,
    {
        let mut found = slice_index_obligations_from_tokens(&segments[i].tokens, params, &segments[i].assumptions);
        let ghost before = out@;
        let ghost added = found@;
        out.append(&mut found);
        assert forall|k: int| 0 <= k < out@.len() implies slice_param((#[trigger] out@[k]).base@, params@) && out@[k].expression@
            == out@[k].base@ + "["@ + out@[k].index@ + "]"@ by {
            if k < before.len() {
                assert(out@[k] == before[k]);
            } else {
                assert(out@[k] == added[k - before.len()]);
            }
        }
        proof {
            if crate::segments::straight_line(body@) {
                assert(i == 0);
                assert(out@ =~= added);
                assert forall|idx: int| #[trigger] slice_index_at(ev, params@, idx) implies index_recorded(out@, ev[idx]) by {
                    assert(slice_index_at(views(segments@[0].tokens@), params@, idx));
                    let k = choose|k: int| 0 <= k < added.len() && (#[trigger] added[k]).base@ == views(segments@[0].tokens@)[idx];
                    assert(out@[before.len() + k] == added[k]);
                }
            }
        }
        i += 1;
    }
    proof {
        if crate::segments::straight_line(body@) && ev.len() == 0 {
            assert forall|idx: int| #[trigger] slice_index_at(ev, params@, idx) implies index_recorded(out@, ev[idx]) by {}
        }
    }
    out
}

/// A reported index the verifier can check: a `usize` index into a
/// `&[T]` whose element type is the one reported.
pub open spec fn slice_index_supported_spec(index: SemanticSliceIndex) -> bool {
    index.index_type@ == "usize"@ && slice_element_spec(index.base_type@) == Some(index.element_type@)
}

pub fn semantic_slice_index_supported(index: &SemanticSliceIndex) -> (r: bool)
    ensures
        r == slice_index_supported_spec(*index),
{
    if !crate::text::is_lit(&chars_of_string(&index.index_type), "usize") {
        return false;
    }
    match slice_element_type(&chars_of_string(&index.base_type)) {
        Some(e) => same(&e, &chars_of_string(&index.element_type)),
        None => false,
    }
}

/// The compiler reported, at position `i`, a supported index with this
/// obligation's expression, base and index.
pub open spec fn reported_index_at(s: TrustFunctionSemantics, ob: SliceIndexObligation, i: int) -> bool {
    0 <= i < s.slice_indexes@.len() && slice_index_supported_spec(s.slice_indexes@[i]) && s.slice_indexes@[i].expression@
        == ob.expression@ && s.slice_indexes@[i].base@ == ob.base@ && s.slice_indexes@[i].index@ == ob.index@
}

pub open spec fn reported_index_for(s: TrustFunctionSemantics, ob: SliceIndexObligation) -> bool {
    exists|i: int| #[trigger] reported_index_at(s, ob, i)
}

/// What an index obligation says: base, index, expression, assumptions.
pub open spec fn index_views(r: Seq<SliceIndexObligation>) -> Seq<(Seq<char>, Seq<char>, Seq<char>, Seq<Seq<char>>)> {
    Seq::new(r.len(), |k: int| (r[k].base@, r[k].index@, r[k].expression@, views(r[k].assumptions@)))
}

/// Each guard without whitespace.
pub open spec fn stripped_guards(g: Seq<String>) -> Seq<Seq<char>> {
    Seq::new(g.len(), |k: int| crate::text::strip_ws(g[k]@))
}

/// The supported reported indexes, in order, under their guards.
pub open spec fn semantic_index_list(ixs: Seq<SemanticSliceIndex>) -> Seq<(Seq<char>, Seq<char>, Seq<char>, Seq<Seq<char>>)>
    decreases ixs.len(),
{
    if ixs.len() == 0 {
        seq![]
    } else {
        let before = semantic_index_list(ixs.drop_last());
        let ix = ixs.last();
        if slice_index_supported_spec(ix) {
            before.push((ix.base@, ix.index@, ix.expression@, stripped_guards(ix.guards@)))
        } else {
            before
        }
    }
}

pub fn semantic_slice_index_obligations(semantics: Option<&TrustFunctionSemantics>) -> (r: Vec<SliceIndexObligation>)
    ensures
        semantics is None ==> r@.len() == 0,
        semantics matches Some(s) ==> forall|k: int| 0 <= k < r@.len() ==> #[trigger] reported_index_for(*s, r@[k]),
        semantics matches Some(s) ==> index_views(r@) == semantic_index_list(s.slice_indexes@),
{
    let mut out: Vec<SliceIndexObligation> = Vec::new();
    if let Some(s) = semantics {
        let mut i: usize = 0;
        while i < s.slice_indexes.len()
            invariant
                semantics == Some(s),
                i <= s.slice_indexes@.len(),
                forall|k: int| 0 <= k < out@.len() ==> #[trigger] reported_index_for(*s, out@[k]),
                index_views(out@) == semantic_index_list(s.slice_indexes@.subrange(0, i as int)),
            decreases s.slice_indexes.len() - i,
        {
            proof {
                assert(s.slice_indexes@.subrange(0, i + 1).drop_last() =~= s.slice_indexes@.subrange(0, i as int));
            }
            let ix = &s.slice_indexes[i];
            if semantic_slice_index_supported(ix) {
                let mut assumptions: Vec<Vec<char>> = Vec::new();
                let mut g: usize = 0;
                while g < ix.guards.len()
                    invariant
                        g <= ix.guards@.len(),
                        views(assumptions@) == stripped_guards(ix.guards@).take(g as int),
                    decreases ix.guards.len() - g,
                {
                    let ghost b = assumptions@;
                    let gc = chars_of_string(&ix.guards[g]);
                    let nz = normalize(&gc);
                    assert(nz@ == crate::text::strip_ws(ix.guards@[g as int]@));
                    assumptions.push(nz);
                    assert(views(assumptions@) =~= views(b).push(nz@));
                    assert(views(assumptions@) =~= stripped_guards(ix.guards@).take(g + 1));
                    g += 1;
                }
                assert(stripped_guards(ix.guards@).take(ix.guards@.len() as int) =~= stripped_guards(ix.guards@));
                let ghost before = out@;
                out.push(SliceIndexObligation {
                    base: chars_of_string(&ix.base),
                    index: chars_of_string(&ix.index),
                    expression: chars_of_string(&ix.expression),
                    assumptions,
                });
                assert forall|k: int| 0 <= k < out@.len() implies #[trigger] reported_index_for(*s, out@[k]) by {
                    if k < before.len() {
                        assert(out@[k] == before[k]);
                    } else {
                        assert(s.slice_indexes@[i as int] == *ix);
                        assert(reported_index_at(*s, out@[k], i as int));
                    }
                }
                assert(index_views(out@) =~= index_views(before).push((ix.base@, ix.index@, ix.expression@, stripped_guards(
                    ix.guards@))));
            }
            i += 1;
        }
        assert(s.slice_indexes@.subrange(0, s.slice_indexes@.len() as int) =~= s.slice_indexes@);
    }
    out
}

pub fn slice_index_expressions(v: &Vec<SliceIndexObligation>) -> (r: Vec<Vec<char>>)
    ensures
        r@.len() == v@.len(),
        forall|k: int| 0 <= k < r@.len() ==> (#[trigger] r@[k])@ == v@[k].expression@,
{
    let mut r: Vec<Vec<char>> = Vec::new();
    let mut i: usize = 0;
    while i < v.len()
        invariant
            i <= v.len(),
            r@.len() == i,
            forall|k: int| 0 <= k < i ==> (#[trigger] r@[k])@ == v@[k].expression@,
        decreases v.len() - i,
    {
        let e = slice_of(&v[i].expression, 0, v[i].expression.len());
        assert(v@[i as int].expression@.subrange(0, v@[i as int].expression@.len() as int) =~= v@[i as int].expression@);
        r.push(e);
        i += 1;
    }
    r
}

/// Indexes to prove: the compiler's when given, else the tokens' (each
/// expression once).
pub fn verification_slice_index_obligations(body: &[char], params: &[Param], semantics: Option<&TrustFunctionSemantics>) -> (r: Vec<SliceIndexObligation>)
    ensures
        semantics matches Some(s) ==> index_views(r@) == semantic_index_list(s.slice_indexes@),
        semantics is None ==> forall|k: int| 0 <= k < r@.len() ==> slice_param((#[trigger] r@[k]).base@, params@),
        semantics is None ==> forall|a: int, b: int| 0 <= a < b < r@.len() ==> (#[trigger] r@[a]).expression@
            != (#[trigger] r@[b]).expression@,
        semantics is None && crate::segments::straight_line(body@) && r@.len() > 0 ==> crate::tokens::has_token(
            crate::segments::executable_view(body@), "["@),
        semantics is None ==> forall|k: int| 0 <= k < r@.len() ==> (#[trigger] r@[k]).expression@ == r@[k].base@ + "["@
            + r@[k].index@ + "]"@,
{
    if semantics.is_some() {
        return semantic_slice_index_obligations(semantics);
    }
    let all = slice_index_obligations(body, params);
    let exprs = slice_index_expressions(&all);
    let keep = crate::obligations::first_of_each(&exprs);
    let mut out: Vec<SliceIndexObligation> = Vec::new();
    let mut i: usize = 0;
    while i < keep.len()
        invariant
            forall|k: int| 0 <= k < keep@.len() ==> keep@[k] < all@.len(),
            i <= keep@.len(),
            out@.len() == i,
            crate::obligations::firsts(views(exprs@), keep@, exprs@.len() as int),
            exprs@.len() == all@.len(),
            forall|k: int| 0 <= k < exprs@.len() ==> (#[trigger] exprs@[k])@ == all@[k].expression@,
            forall|k: int| 0 <= k < all@.len() ==> slice_param((#[trigger] all@[k]).base@, params@),
            forall|k: int| 0 <= k < i ==> (#[trigger] out@[k]).expression@ == all@[keep@[k] as int].expression@
                && out@[k].base@ == all@[keep@[k] as int].base@ && out@[k].index@ == all@[keep@[k] as int].index@,
            forall|k: int| 0 <= k < all@.len() ==> (#[trigger] all@[k]).expression@ == all@[k].base@ + "["@ + all@[k].index@
                + "]"@,
        decreases keep.len() - i,
    {
        let ob = &all[keep[i]];
        let b = slice_of(&ob.base, 0, ob.base.len());
        let e = slice_of(&ob.expression, 0, ob.expression.len());
        assert(ob.base@.subrange(0, ob.base@.len() as int) =~= ob.base@);
        assert(ob.expression@.subrange(0, ob.expression@.len() as int) =~= ob.expression@);
        assert(ob.index@.subrange(0, ob.index@.len() as int) =~= ob.index@);
        let ghost before = out@;
        out.push(SliceIndexObligation {
            base: b,
            index: slice_of(&ob.index, 0, ob.index.len()),
            expression: e,
            assumptions: clone_texts(&ob.assumptions),
        });
        assert forall|k: int| 0 <= k < i + 1 implies (#[trigger] out@[k]).expression@ == all@[keep@[k] as int].expression@
            && out@[k].base@ == all@[keep@[k] as int].base@ && out@[k].index@ == all@[keep@[k] as int].index@ by {
            if k < i {
                assert(out@[k] == before[k]);
            }
        }
        i += 1;
    }
    assert forall|a: int, b: int| 0 <= a < b < out@.len() implies (#[trigger] out@[a]).expression@ != (#[trigger] out@[b]).expression@ by {
        assert(views(exprs@)[keep@[a] as int] == exprs@[keep@[a] as int]@);
        assert(views(exprs@)[keep@[b] as int] == exprs@[keep@[b] as int]@);
    }
    assert forall|k: int| 0 <= k < out@.len() implies slice_param((#[trigger] out@[k]).base@, params@) by {
        assert(slice_param(all@[keep@[k] as int].base@, params@));
    }
    proof {
        if out@.len() > 0 {
            assert(keep@[0] < all@.len());
        }
    }
    out
}

/// A reported index the verifier cannot check, else an index the tokens
/// show that the reported ones do not cover; `None` when no facts are given.
#[verifier::loop_isolation(false)]
pub fn semantic_slice_index_extraction_gap(body: &[char], params: &[Param], semantics: Option<&TrustFunctionSemantics>) -> (r: Option<Vec<char>>)
    ensures
        semantics is None ==> r is None,
        semantics matches Some(s) ==> forall|i: int| 0 <= i < s.slice_indexes@.len() && !slice_index_supported_spec(
            #[trigger] s.slice_indexes@[i]) && (forall|j: int| 0 <= j < i ==> slice_index_supported_spec(s.slice_indexes@[j]))
            ==> (r matches Some(e) && e@ == s.slice_indexes@[i].expression@),
{
    let s = match semantics {
        Some(s) => s,
        None => return None,
    };
    let mut i: usize = 0;
    while i < s.slice_indexes.len()
        invariant
            semantics == Some(s),
            i <= s.slice_indexes@.len(),
            forall|j: int| 0 <= j < i ==> slice_index_supported_spec(s.slice_indexes@[j]),
        decreases s.slice_indexes.len() - i,
    {
        if !semantic_slice_index_supported(&s.slice_indexes[i]) {
            return Some(chars_of_string(&s.slice_indexes[i].expression));
        }
        i += 1;
    }
    semantic_obligation_gap(
        &slice_index_expressions(&semantic_slice_index_obligations(Some(s))),
        &slice_index_expressions(&slice_index_obligations(body, params)),
    )
}

/// A supported reported index has exactly this expression.
pub open spec fn index_expression_reported(expression: Seq<char>, semantics: Option<&TrustFunctionSemantics>) -> bool {
    semantics matches Some(s) && exists|i: int| 0 <= i < s.slice_indexes@.len() && slice_index_supported_spec(
        #[trigger] s.slice_indexes@[i]) && s.slice_indexes@[i].expression@ == expression
}

/// Whether a supported reported index has exactly this expression.
#[verifier::loop_isolation(false)]
pub fn supported_semantic_index_expression(expression: &[char], semantics: Option<&TrustFunctionSemantics>) -> (r: bool)
    ensures
        r == index_expression_reported(expression@, semantics),
{
    if let Some(s) = semantics {
        let mut i: usize = 0;
        while i < s.slice_indexes.len()
            invariant
                semantics == Some(s),
                i <= s.slice_indexes@.len(),
                forall|i2: int| 0 <= i2 < i ==> !(slice_index_supported_spec(#[trigger] s.slice_indexes@[i2])
                    && s.slice_indexes@[i2].expression@ == expression@),
            decreases s.slice_indexes.len() - i,
        {
            let ix = &s.slice_indexes[i];
            if semantic_slice_index_supported(ix) && same(&chars_of_string(&ix.expression), expression) {
                assert(s.slice_indexes@[i as int] == *ix);
                return true;
            }
            i += 1;
        }
    }
    false
}

/// `base [ .. ]` at `i` whose brackets close.
pub open spec fn index_site_at(t: Seq<Seq<char>>, i: int) -> bool {
    0 <= i && i + 1 < t.len() && t[i + 1] == "["@ && crate::tokens::token_group_close(t, '[', ']', i + 1, 0) is Some
}

/// A bracketed single value as the value, else the tokens joined.
pub open spec fn grouped_value_text(s: Seq<Seq<char>>) -> Seq<char> {
    if s.len() == 3 && ((s[0] == "{"@ && s[2] == "}"@) || (s[0] == "("@ && s[2] == ")"@)) && crate::tokens::value_operand_spec(s[1]) {
        s[1]
    } else {
        crate::tokens::joined(s)
    }
}

/// The text of the index expression at `i`.
pub open spec fn index_site_text(t: Seq<Seq<char>>, i: int) -> Seq<char> {
    t[i] + "["@ + grouped_value_text(t.subrange(i + 2, crate::tokens::token_group_close(t, '[', ']', i + 1, 0)->0))
        + "]"@
}

/// The index expression at `i` is the first one of the tokens, and one
/// that is neither on a slice parameter nor reported as supported.
pub open spec fn first_unsupported_index(t: Seq<Seq<char>>, params: Seq<Param>, semantics: Option<&TrustFunctionSemantics>, i: int) -> bool {
    &&& index_site_at(t, i)
    &&& i + 3 < t.len()
    &&& forall|j: int| 0 <= j < i ==> !#[trigger] index_site_at(t, j)
    &&& !slice_param(t[i], params)
    &&& !index_expression_reported(index_site_text(t, i), semantics)
}

/// The first index expression whose base is not a slice parameter and
/// that no supported reported index covers.
pub fn unsupported_index_expression(body: &[char], params: &[Param], semantics: Option<&TrustFunctionSemantics>) -> (r: Option<Vec<char>>)
    ensures
        r matches Some(e) ==> !index_expression_reported(e@, semantics) && exists|base: Seq<char>, index: Seq<char>| e@
            == base + "["@ + index + "]"@ && !slice_param(base, params@),
        !crate::tokens::has_token(crate::tokens::tokens_spec(body@), "loop_spec"@) && !crate::tokens::has_token(
            crate::segments::executable_view(body@), "["@) ==> r is None,
        forall|i0: int| !crate::tokens::has_token(crate::tokens::tokens_spec(body@), "loop_spec"@) && #[trigger]
            first_unsupported_index(crate::segments::executable_view(body@), params@, semantics, i0) ==> (r matches Some(e)
            && e@ == index_site_text(crate::segments::executable_view(body@), i0)),
{
    proof { reveal_strlit("["); }
    let t = executable_tokens(body);
    let ghost tv = views(t@);
    let ghost nl = !crate::tokens::has_token(crate::tokens::tokens_spec(body@), "loop_spec"@);
    let mut idx: usize = 0;
    while idx < t.len() && t.len() - idx > 3
        invariant
            "["@ == seq!['['],
            tv == views(t@),
            nl == !crate::tokens::has_token(crate::tokens::tokens_spec(body@), "loop_spec"@),
            nl ==> views(t@) == crate::segments::executable_view(body@),
            forall|i0: int| nl && #[trigger] first_unsupported_index(tv, params@, semantics, i0) ==> idx <= i0,
        decreases t.len() - idx,
    {
        let base = &t[idx];
        if !tok_char(&t, idx + 1, '[') {
            idx += 1;
            continue;
        }
        let end = match matching_token_group(&t, idx + 1, '[', ']') {
            Some(e) => e,
            None => {
                idx += 1;
                continue;
            },
        };
        assert(views(t@)[idx + 1] == "["@);
        let range = token_range(&t, idx + 2, end);
        let index = simple_grouped_value_expression(&range);
        let expression = index_text(base, &index);
        proof {
            let s = tv.subrange(idx + 2, end as int);
            assert(views(range@) == s);
            assert(index_site_at(tv, idx as int));
            if range@.len() == 3 {
                assert(s[0] == range@[0]@ && s[1] == range@[1]@ && s[2] == range@[2]@);
            }
            assert(index@ == grouped_value_text(s));
            assert(expression@ == index_site_text(tv, idx as int));
        }
        if !is_read_only_slice_param(base, params) && !supported_semantic_index_expression(&expression, semantics) {
            assert(!slice_param(base@, params@));
            return Some(expression);
        }
        proof {
            assert forall|i0: int| nl && #[trigger] first_unsupported_index(tv, params@, semantics, i0) implies end + 1 <= i0 by {
                assert(idx <= i0);
                if idx < i0 {
                    assert(!index_site_at(tv, idx as int));
                }
            }
        }
        idx = end + 1;
    }
    None
}

pub struct TokenFieldAccess {
    pub ty: Vec<char>,
    pub expression: Vec<char>,
}

/// A field read of parameter `k`: its type is the parameter's, its text
/// the parameter's name and a `.`.
pub open spec fn access_of_param(a: TokenFieldAccess, params: Seq<Param>, k: int) -> bool {
    0 <= k < params.len() && a.ty@ == params[k].ty@ && crate::text::starts_with_spec(a.expression@, params[k].name@ + "."@)
}

pub open spec fn access_of_some_param(a: TokenFieldAccess, params: Seq<Param>) -> bool {
    exists|k: int| #[trigger] access_of_param(a, params, k)
}

/// `a . f` at token `idx`, with `f` a name and no call after it: a field
/// read (when `a` is a parameter).
pub open spec fn field_read_at(t: Seq<Seq<char>>, idx: int) -> bool {
    &&& 0 <= idx && idx + 3 <= t.len()
    &&& t[idx + 1] == seq!['.']
    &&& crate::tokens::ident_spec(t[idx + 2])
    &&& !(idx + 3 < t.len() && t[idx + 3] == seq!['('])
}

/// `param.field` reads (not method calls) in the body's tokens, with the
/// parameter's type.
pub fn token_field_accesses(body: &[char], params: &[Param]) -> (r: Vec<TokenFieldAccess>)
    ensures
        forall|j: int| 0 <= j < r@.len() ==> #[trigger] access_of_some_param(r@[j], params@),
        !crate::tokens::has_token(crate::tokens::tokens_spec(body@), "."@) ==> r@.len() == 0,
        forall|idx: int| #[trigger] field_read_at(crate::tokens::tokens_spec(body@), idx) ==> (
            crate::arith::param_position_from(params@, crate::tokens::tokens_spec(body@)[idx], 0) matches Some(k) ==> exists|j: int|
            0 <= j < r@.len() && (#[trigger] r@[j]).ty@ == params@[k].ty@ && r@[j].expression@ == crate::tokens::tokens_spec(
            body@)[idx] + "."@ + crate::tokens::tokens_spec(body@)[idx + 2]),
{
    proof { reveal_strlit("."); }
    let t = tokens(body);
    let mut out: Vec<TokenFieldAccess> = Vec::new();
    let mut idx: usize = 0;
    while idx < t.len() && t.len() - idx >= 3
        invariant
            "."@ == seq!['.'],
            views(t@) == crate::tokens::tokens_spec(body@),
            forall|j: int| 0 <= j < out@.len() ==> #[trigger] access_of_some_param(out@[j], params@),
            !crate::tokens::has_token(views(t@), "."@) ==> out@.len() == 0,
            forall|i: int| 0 <= i < idx && #[trigger] field_read_at(views(t@), i) ==> (crate::arith::param_position_from(params@,
                views(t@)[i], 0) matches Some(k) ==> exists|j: int| 0 <= j < out@.len() && (#[trigger] out@[j]).ty@
                == params@[k].ty@ && out@[j].expression@ == views(t@)[i] + "."@ + views(t@)[i + 2]),
        decreases t.len() - idx,
    {
        let ghost before_all = out@;
        let base = &t[idx];
        let field = &t[idx + 2];
        if tok_char(&t, idx + 1, '.') && is_ident(field) && !tok_char(&t, idx + 3, '(') {
            assert(views(t@)[idx + 1] == "."@);
            match crate::arith::first_param_named(params, base) {
                Some(k) => {
                    let ty = slice_of(&params[k].ty, 0, params[k].ty.len());
                    assert(params@[k as int].ty@.subrange(0, params@[k as int].ty@.len() as int) =~= params@[k as int].ty@);
                    let a = TokenFieldAccess { ty, expression: join3(base, ".", field) };
                    assert(access_of_param(a, params@, k as int)) by {
                        assert(a.expression@.take((params@[k as int].name@ + "."@).len() as int) =~= params@[k as int].name@ + "."@);
                    }
                    let ghost before = out@;
                    out.push(a);
                    assert forall|j: int| 0 <= j < out@.len() implies #[trigger] access_of_some_param(out@[j], params@) by {
                        if j < before.len() {
                            assert(out@[j] == before[j]);
                        } else {
                            assert(access_of_param(out@[j], params@, k as int));
                        }
                    }
                    assert(out@[before.len() as int].ty@ == params@[k as int].ty@);
                },
                None => {},
            }
        }
        proof {
            assert forall|i: int| 0 <= i < idx + 1 && #[trigger] field_read_at(views(t@), i) implies (
                crate::arith::param_position_from(params@, views(t@)[i], 0) matches Some(k) ==> exists|j: int| 0 <= j
                < out@.len() && (#[trigger] out@[j]).ty@ == params@[k].ty@ && out@[j].expression@ == views(t@)[i] + "."@
                + views(t@)[i + 2]) by {
                if i < idx {
                    if let Some(k) = crate::arith::param_position_from(params@, views(t@)[i], 0) {
                        let j = choose|j: int| 0 <= j < before_all.len() && (#[trigger] before_all[j]).ty@ == params@[k].ty@
                            && before_all[j].expression@ == views(t@)[i] + "."@ + views(t@)[i + 2];
                        assert(out@[j] == before_all[j]);
                    }
                } else {
                    assert(views(t@)[idx as int] == t@[idx as int]@);
                    assert(views(t@)[idx + 2] == t@[idx + 2]@);
                }
            }
        }
        idx += 1;
    }
    proof {
        assert forall|i: int| #[trigger] field_read_at(views(t@), i) implies i < idx by {}
    }
    out
}

/// Some parameter has this type.
pub open spec fn is_param_type(ty: Seq<char>, params: Seq<Param>) -> bool {
    exists|p: int| 0 <= p < params.len() && (#[trigger] params[p]).ty@ == ty
}

/// The owner types of field reads: the compiler's when given, else the
/// tokens' (each type once).
pub fn verification_field_access_types(body: &[char], params: &[Param], semantics: Option<&TrustFunctionSemantics>) -> (r: Vec<Vec<char>>)
    ensures
        semantics matches Some(s) ==> r@.len() == s.field_accesses@.len() && forall|k: int| 0 <= k < r@.len()
            ==> (#[trigger] r@[k])@ == s.field_accesses@[k].owner_type@,
        semantics is None ==> forall|a: int, b: int| 0 <= a < b < r@.len() ==> (#[trigger] r@[a])@ != (#[trigger] r@[b])@,
        semantics is None ==> forall|k: int| 0 <= k < r@.len() ==> is_param_type((#[trigger] r@[k])@, params@),
        semantics is None ==> forall|idx: int| #[trigger] field_read_at(crate::tokens::tokens_spec(body@), idx) ==> (
            crate::arith::param_position_from(params@, crate::tokens::tokens_spec(body@)[idx], 0) matches Some(k)
            ==> views(r@).contains(params@[k].ty@)),
        semantics is None && !crate::tokens::has_token(crate::tokens::tokens_spec(body@), "."@) ==> r@.len() == 0,
{
    let mut out: Vec<Vec<char>> = Vec::new();
    if let Some(s) = semantics {
        let mut i: usize = 0;
        while i < s.field_accesses.len()
            invariant
                i <= s.field_accesses@.len(),
                out@.len() == i,
                forall|k: int| 0 <= k < i ==> (#[trigger] out@[k])@ == s.field_accesses@[k].owner_type@,
            decreases s.field_accesses.len() - i,
        {
            out.push(chars_of_string(&s.field_accesses[i].owner_type));
            i += 1;
        }
        return out;
    }
    let accesses = token_field_accesses(body, params);
    let mut i: usize = 0;
    while i < accesses.len()
        invariant
            forall|j: int| 0 <= j < accesses@.len() ==> #[trigger] access_of_some_param(accesses@[j], params@),
            forall|a: int, b: int| 0 <= a < b < out@.len() ==> (#[trigger] out@[a])@ != (#[trigger] out@[b])@,
            forall|k: int| 0 <= k < out@.len() ==> is_param_type((#[trigger] out@[k])@, params@),
            i <= accesses@.len(),
            forall|j: int| 0 <= j < i ==> views(out@).contains((#[trigger] accesses@[j]).ty@),
            accesses@.len() == 0 ==> out@.len() == 0,
        decreases accesses.len() - i,
    {
        let ghost before0 = out@;
        if !texts_contain(&out, &accesses[i].ty) {
            let ty = slice_of(&accesses[i].ty, 0, accesses[i].ty.len());
            assert(accesses@[i as int].ty@.subrange(0, accesses@[i as int].ty@.len() as int) =~= accesses@[i as int].ty@);
            assert(access_of_some_param(accesses@[i as int], params@));
            let ghost k = choose|k: int| #[trigger] access_of_param(accesses@[i as int], params@, k);
            let ghost before = out@;
            out.push(ty);
            assert forall|a: int, b: int| 0 <= a < b < out@.len() implies (#[trigger] out@[a])@ != (#[trigger] out@[b])@ by {
                if b == before.len() {
                    assert(views(before)[a] == before[a]@);
                } else {
                    assert(out@[a] == before[a] && out@[b] == before[b]);
                }
            }
            assert forall|k2: int| 0 <= k2 < out@.len() implies is_param_type((#[trigger] out@[k2])@, params@) by {
                if k2 < before.len() {
                    assert(out@[k2] == before[k2]);
                } else {
                    assert(params@[k].ty@ == out@[k2]@);
                }
            }
        }
        proof {
            assert forall|j: int| 0 <= j < i + 1 implies views(out@).contains((#[trigger] accesses@[j]).ty@) by {
                if j < i {
                    let w = choose|w: int| 0 <= w < views(before0).len() && views(before0)[w] == accesses@[j].ty@;
                    assert(views(out@)[w] == views(before0)[w]);
                } else {
                    if views(before0).contains(accesses@[j].ty@) {
                        let w = choose|w: int| 0 <= w < views(before0).len() && views(before0)[w] == accesses@[j].ty@;
                        assert(views(out@)[w] == views(before0)[w]);
                    } else {
                        assert(views(out@)[before0.len() as int] == accesses@[j].ty@);
                    }
                }
            }
        }
        i += 1;
    }
    proof {
        let t = crate::tokens::tokens_spec(body@);
        assert forall|idx: int| #[trigger] field_read_at(t, idx) implies (crate::arith::param_position_from(params@, t[idx], 0)
            matches Some(k) ==> views(out@).contains(params@[k].ty@)) by {
            if let Some(k) = crate::arith::param_position_from(params@, t[idx], 0) {
                let j = choose|j: int| 0 <= j < accesses@.len() && (#[trigger] accesses@[j]).ty@ == params@[k].ty@;
                assert(views(out@).contains(accesses@[j].ty@));
            }
        }
    }
    out
}

/// A field read the tokens show whose expression and owner type the
/// compiler's facts both miss; `None` when no facts are given.
#[verifier::loop_isolation(false)]
/// The reported field reads' expressions, without whitespace.
pub open spec fn reported_field_expressions(s: TrustFunctionSemantics) -> Seq<Seq<char>> {
    Seq::new(s.field_accesses@.len(), |i: int| crate::text::strip_ws(s.field_accesses@[i].expression@))
}

/// The reported field reads' owner types, by last path segment.
pub open spec fn reported_field_owners(s: TrustFunctionSemantics) -> Seq<Seq<char>> {
    Seq::new(s.field_accesses@.len(), |i: int| crate::tokens::type_name_tail_spec(s.field_accesses@[i].owner_type@))
}

pub fn semantic_field_access_extraction_gap(body: &[char], params: &[Param], semantics: Option<&TrustFunctionSemantics>) -> (r: Option<Vec<char>>)
    ensures
        semantics is None ==> r is None,
        semantics matches Some(s) ==> forall|idx: int| #[trigger] field_read_at(crate::tokens::tokens_spec(body@), idx) ==> (
            crate::arith::param_position_from(params@, crate::tokens::tokens_spec(body@)[idx], 0) matches Some(k) ==> (
            !reported_field_expressions(*s).contains(crate::text::strip_ws(crate::tokens::tokens_spec(body@)[idx] + "."@
            + crate::tokens::tokens_spec(body@)[idx + 2])) && !reported_field_owners(*s).contains(
            crate::tokens::type_name_tail_spec(params@[k].ty@)) ==> r is Some)),
{
    let s = match semantics {
        Some(s) => s,
        None => return None,
    };
    let mut exprs: Vec<Vec<char>> = Vec::new();
    let mut owners: Vec<Vec<char>> = Vec::new();
    let mut i: usize = 0;
    while i < s.field_accesses.len()
        invariant
            semantics == Some(s),
            i <= s.field_accesses@.len(),
            views(exprs@) == reported_field_expressions(*s).take(i as int),
            views(owners@) == reported_field_owners(*s).take(i as int),
        decreases s.field_accesses.len() - i,
    {
        let ghost be = exprs@;
        let ghost bo = owners@;
        let ne = normalize(&chars_of_string(&s.field_accesses[i].expression));
        let no = type_name_tail(&chars_of_string(&s.field_accesses[i].owner_type));
        exprs.push(ne);
        owners.push(no);
        assert(views(exprs@) =~= views(be).push(ne@));
        assert(views(owners@) =~= views(bo).push(no@));
        assert(views(exprs@) =~= reported_field_expressions(*s).take(i + 1));
        assert(views(owners@) =~= reported_field_owners(*s).take(i + 1));
        i += 1;
    }
    assert(reported_field_expressions(*s).take(i as int) =~= reported_field_expressions(*s));
    assert(reported_field_owners(*s).take(i as int) =~= reported_field_owners(*s));
    let accesses = token_field_accesses(body, params);
    let mut j: usize = 0;
    while j < accesses.len()
        invariant
            semantics == Some(s),
            views(exprs@) == reported_field_expressions(*s),
            views(owners@) == reported_field_owners(*s),
            j <= accesses@.len(),
            forall|m: int| 0 <= m < j ==> views(exprs@).contains(crate::text::strip_ws((#[trigger] accesses@[m]).expression@))
                || views(owners@).contains(crate::tokens::type_name_tail_spec(accesses@[m].ty@)),
        decreases accesses.len() - j,
    {
        let e = normalize(&accesses[j].expression);
        let ty = type_name_tail(&accesses[j].ty);
        if !texts_contain(&exprs, &e) && !texts_contain(&owners, &ty) {
            return Some(slice_of(&accesses[j].expression, 0, accesses[j].expression.len()));
        }
        j += 1;
    }
    proof {
        let t = crate::tokens::tokens_spec(body@);
        assert forall|idx: int| #[trigger] field_read_at(t, idx) implies (crate::arith::param_position_from(params@, t[idx], 0)
            matches Some(k) ==> (!reported_field_expressions(*s).contains(crate::text::strip_ws(t[idx] + "."@ + t[idx + 2]))
            && !reported_field_owners(*s).contains(crate::tokens::type_name_tail_spec(params@[k].ty@)) ==> false)) by {
            if let Some(k) = crate::arith::param_position_from(params@, t[idx], 0) {
                let m = choose|m: int| 0 <= m < accesses@.len() && (#[trigger] accesses@[m]).ty@ == params@[k].ty@
                    && accesses@[m].expression@ == t[idx] + "."@ + t[idx + 2];
                assert(views(exprs@).contains(crate::text::strip_ws(accesses@[m].expression@)) || views(owners@).contains(
                    crate::tokens::type_name_tail_spec(accesses@[m].ty@)));
            }
        }
    }
    None
}

} // verus!
