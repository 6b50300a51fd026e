//! The executable part of a function body as tokens: `#[cfg(..)]` items
//! the target disables dropped, `loop_spec!` blocks dropped, and the rest
//! cut into straight-line segments, each with the loop conditions that
//! hold where it runs.

use crate::solver::VerificationOptions;
use crate::text::{append_lit, decimal_u64, same, slice_of, views};
use crate::tokens::{
    has_token, tokens_spec, compact_parenthesized_value_tokens, matching_token_group, tok_char, tok_is, token_expression,
    token_range, tokens,
};
use vstd::prelude::*;

verus! {

/// A run of tokens and the loop conditions under which it executes.
pub struct TokenSegment {
    pub tokens: Vec<Vec<char>>,
    pub assumptions: Vec<Vec<char>>,
}

/// Position of the `{` that opens a `trust::loop_spec! {` or
/// `loop_spec! {` starting at `idx`.
pub open spec fn loop_spec_open_spec(t: Seq<Seq<char>>, idx: int) -> Option<int> {
    if idx + 5 < t.len() && t[idx] == "trust"@ && t[idx + 1] == ":"@ && t[idx + 2] == ":"@ && t[idx + 3] == "loop_spec"@
        && t[idx + 4] == "!"@ && t[idx + 5] == seq!['{'] {
        Some(idx + 5)
    } else if idx + 2 < t.len() && t[idx] == "loop_spec"@ && t[idx + 1] == "!"@ && t[idx + 2] == seq!['{'] {
        Some(idx + 2)
    } else {
        None
    }
}

pub fn loop_spec_open_idx(t: &[Vec<char>], idx: usize) -> (r: Option<usize>)
    ensures
        r is Some == loop_spec_open_spec(views(t@), idx as int) is Some,
        r matches Some(o) ==> loop_spec_open_spec(views(t@), idx as int) == Some(o as int),
        r matches Some(o) ==> idx < o < t@.len() && t@[o as int]@ == seq!['{'],
        r matches Some(o) ==> o >= 2 && idx <= o - 2 && t@[o - 2]@ == "loop_spec"@,
        r matches Some(o) ==> forall|j: int| idx <= j <= o ==> t@[j]@ != "while"@,
{
    proof {
        reveal_strlit("trust");
        reveal_strlit(":");
        reveal_strlit("loop_spec");
        reveal_strlit("!");
        reveal_strlit("while");
    }
    let ghost tv = views(t@);
    if t.len() > 5 && idx < t.len() - 5 && tok_is(t, idx, "trust") && tok_is(t, idx + 1, ":") && tok_is(t, idx + 2, ":")
        && tok_is(t, idx + 3, "loop_spec") && tok_is(t, idx + 4, "!") && tok_char(t, idx + 5, '{') {
        assert forall|j: int| idx <= j <= idx + 5 implies t@[j]@ != "while"@ by {
            if j == idx || j == idx + 1 || j == idx + 2 || j == idx + 3 || j == idx + 4 {
                assert(t@[j]@[0] != 'w');
            } else {
                assert(t@[j]@.len() == 1);
            }
        }
        return Some(idx + 5);
    }
    if t.len() > 2 && idx < t.len() - 2 && tok_is(t, idx, "loop_spec") && tok_is(t, idx + 1, "!") && tok_char(t, idx + 2, '{') {
        assert forall|j: int| idx <= j <= idx + 2 implies t@[j]@ != "while"@ by {
            if j == idx {
                assert(t@[j]@[0] != 'w');
            } else {
                assert(t@[j]@.len() == 1);
            }
        }
        return Some(idx + 2);
    }
    proof {
        if idx + 5 < tv.len() {
            assert(tv[idx as int] == t@[idx as int]@ && tv[idx + 1] == t@[idx + 1]@ && tv[idx + 2] == t@[idx + 2]@
                && tv[idx + 3] == t@[idx + 3]@ && tv[idx + 4] == t@[idx + 4]@ && tv[idx + 5] == t@[idx + 5]@);
        }
        if idx + 2 < tv.len() {
            assert(tv[idx as int] == t@[idx as int]@ && tv[idx + 1] == t@[idx + 1]@ && tv[idx + 2] == t@[idx + 2]@);
        }
    }
    None
}

/// Whether a `target_pointer_width` value names the configured width;
/// `None` when no width is configured.
pub fn cfg_target_pointer_width_matches(value: &[char], options: VerificationOptions) -> (r: Option<bool>)
    ensures
        options.target_pointer_width is None ==> r is None,
        options.target_pointer_width matches Some(w) ==> r == Some(value@ == crate::text::decimal_spec(w as nat)),
{
    match options.target_pointer_width {
        Some(w) => {
            let d = decimal_u64(w as u64);
            Some(same(value, &d))
        },
        None => None,
    }
}

/// Whether a width written in a `cfg` names the configured one.
pub open spec fn width_matches(value: Seq<char>, width: Option<u32>) -> Option<bool> {
    match width {
        Some(w) => Some(value == crate::text::decimal_spec(w as nat)),
        None => None,
    }
}

/// The value of a `cfg` predicate: `any()`, `all()`, `not(..)` and
/// `target_pointer_width = ..` are evaluated, anything else is unknown.
pub open spec fn cfg_predicate_spec(t: Seq<Seq<char>>, width: Option<u32>) -> Option<bool>
    decreases t.len(),
{
    let n = t.len();
    if n == 3 && t[0] == "any"@ && t[1] == "("@ && t[2] == ")"@ {
        Some(false)
    } else if n == 3 && t[0] == "all"@ && t[1] == "("@ && t[2] == ")"@ {
        Some(true)
    } else if n >= 3 && t[0] == "not"@ && t[1] == "("@ && t[n - 1] == ")"@ {
        match cfg_predicate_spec(t.subrange(2, n - 1), width) {
            Some(e) => Some(!e),
            None => None,
        }
    } else if n == 3 && t[0] == "target_pointer_width"@ && t[1] == "="@ {
        width_matches(t[2], width)
    } else if n == 5 && t[0] == "target_pointer_width"@ && t[1] == "="@ && t[2] == "\""@ && t[4] == "\""@ {
        width_matches(t[3], width)
    } else {
        None
    }
}

/// Whether a `cfg` predicate holds for the target; `None` when it is not
/// one this verifier evaluates.
pub fn cfg_predicate_enabled(t: &[Vec<char>], options: VerificationOptions) -> (r: Option<bool>)
    ensures
        r == cfg_predicate_spec(views(t@), options.target_pointer_width),
    decreases t.len(),
{
    let n = t.len();
    if n == 3 && tok_is(t, 0, "any") && tok_is(t, 1, "(") && tok_is(t, 2, ")") {
        return Some(false);
    }
    if n == 3 && tok_is(t, 0, "all") && tok_is(t, 1, "(") && tok_is(t, 2, ")") {
        return Some(true);
    }
    if n >= 3 && tok_is(t, 0, "not") && tok_is(t, 1, "(") && tok_is(t, n - 1, ")") {
        let inner = token_range(t, 2, n - 1);
        assert(inner@.len() == views(inner@).len());
        assert(views(inner@) == views(t@).subrange(2, n - 1));
        return match cfg_predicate_enabled(&inner, options) {
            Some(e) => Some(!e),
            None => None,
        };
    }
    if n == 3 && tok_is(t, 0, "target_pointer_width") && tok_is(t, 1, "=") {
        return cfg_target_pointer_width_matches(&t[2], options);
    }
    if n == 5 && tok_is(t, 0, "target_pointer_width") && tok_is(t, 1, "=") && tok_is(t, 2, "\"")
        && tok_is(t, 4, "\"") {
        return cfg_target_pointer_width_matches(&t[3], options);
    }
    None
}

/// A `#[cfg(..)]` attribute at `idx`: whether it is enabled (an
/// unknown predicate counts as enabled) and where it ends.
pub open spec fn cfg_attr_spec(t: Seq<Seq<char>>, idx: int, w: Option<u32>) -> Option<(bool, int)> {
    if 0 <= idx && idx + 3 < t.len() && t[idx] == "#"@ && t[idx + 1] == "["@ && t[idx + 2] == "cfg"@ && t[idx + 3] == seq!['('] {
        match crate::tokens::token_group_close(t, '(', ')', idx + 3, 0) {
            Some(c) => if c + 1 < t.len() && t[c + 1] == "]"@ {
                Some((
                    match cfg_predicate_spec(t.subrange(idx + 4, c), w) {
                        Some(e) => e,
                        None => true,
                    },
                    c + 2,
                ))
            } else {
                None
            },
            None => None,
        }
    } else {
        None
    }
}

pub fn cfg_attr(t: &[Vec<char>], idx: usize, options: VerificationOptions) -> (r: Option<(bool, usize)>)
    ensures
        r is Some == cfg_attr_spec(views(t@), idx as int, options.target_pointer_width) is Some,
        r matches Some((e, end)) ==> cfg_attr_spec(views(t@), idx as int, options.target_pointer_width) == Some((e, end as int)),
        r matches Some((_, end)) ==> idx < end <= t@.len(),
        r is Some ==> t@[idx as int]@ == "#"@,
{
    if idx >= t.len() || t.len() < 4 || idx > t.len() - 4 {
        return None;
    }
    if !(tok_is(t, idx, "#") && tok_is(t, idx + 1, "[") && tok_is(t, idx + 2, "cfg")) {
        assert(views(t@)[idx as int] == t@[idx as int]@ && views(t@)[idx + 1] == t@[idx + 1]@ && views(t@)[idx + 2]
            == t@[idx + 2]@);
        return None;
    }
    let open_idx = idx + 3;
    if !tok_char(t, open_idx, '(') {
        return None;
    }
    let close_idx = match matching_token_group(t, open_idx, '(', ')') {
        Some(c) => c,
        None => return None,
    };
    proof {
        assert(views(t@)[idx as int] == t@[idx as int]@ && views(t@)[idx + 1] == t@[idx + 1]@ && views(t@)[idx + 2]
            == t@[idx + 2]@);
        if close_idx + 1 < t@.len() {
            assert(views(t@)[close_idx + 1] == t@[close_idx + 1]@);
        }
    }
    if !tok_is(t, close_idx + 1, "]") {
        return None;
    }
    let inner = token_range(t, open_idx + 1, close_idx);
    let enabled = match cfg_predicate_enabled(&inner, options) {
        Some(e) => e,
        None => true,
    };
    Some((enabled, close_idx + 2))
}

/// Where the item after a disabled attribute ends: past its bracketed
/// group, else past the next `;`, else at the end.
pub fn cfg_attributed_end(t: &[Vec<char>], idx: usize) -> (r: usize)
    requires
        idx <= t@.len(),
    ensures
        idx <= r <= t@.len(),
        idx < t@.len() ==> idx < r,
{
    if idx >= t.len() {
        return idx;
    }
    if tok_char(t, idx, '{') {
        return match matching_token_group(t, idx, '{', '}') {
            Some(c) => c + 1,
            None => idx + 1,
        };
    }
    if tok_char(t, idx, '(') {
        return match matching_token_group(t, idx, '(', ')') {
            Some(c) => c + 1,
            None => idx + 1,
        };
    }
    if tok_char(t, idx, '[') {
        return match matching_token_group(t, idx, '[', ']') {
            Some(c) => c + 1,
            None => idx + 1,
        };
    }
    let mut k = idx;
    while k < t.len()
        invariant
            idx <= k <= t.len(),
        decreases t.len() - k,
    {
        if tok_is(t, k, ";") {
            return k + 1;
        }
        k += 1;
    }
    t.len()
}

/// The tokens with every item under a disabled `#[cfg(..)]` removed
/// (the attribute itself always removed).
pub fn cfg_selected_tokens(t: &[Vec<char>], options: VerificationOptions) -> (r: Vec<Vec<char>>)
    ensures
        !has_token(views(t@), "#"@) ==> views(r@) == views(t@),
        r@.len() <= t@.len(),
{
    let mut selected: Vec<Vec<char>> = Vec::new();
    let mut idx: usize = 0;
    while idx < t.len()
        invariant
            idx <= t.len(),
            selected@.len() <= idx,
            !has_token(views(t@), "#"@) ==> views(selected@) == views(t@).subrange(0, idx as int),
        decreases t.len() - idx,
    {
        proof {
            if idx < t.len() && t@[idx as int]@ == "#"@ {
                assert(views(t@)[idx as int] == "#"@);
                assert(has_token(views(t@), "#"@));
            }
        }
        match cfg_attr(t, idx, options) {
            Some((enabled, attr_end)) => {
                if enabled {
                    idx = attr_end;
                } else {
                    idx = cfg_attributed_end(t, attr_end);
                }
            },
            None => {
                let ghost before = selected@;
                let token = slice_of(&t[idx], 0, t[idx].len());
                assert(t@[idx as int]@.subrange(0, t@[idx as int]@.len() as int) =~= t@[idx as int]@);
                selected.push(token);
                proof {
                    if !has_token(views(t@), "#"@) {
                        assert(views(selected@) =~= views(before).push(t@[idx as int]@));
                        assert(views(t@).subrange(0, idx + 1) =~= views(t@).subrange(0, idx as int).push(t@[idx as int]@));
                    }
                }
                idx += 1;
            },
        }
    }
    assert(views(t@).subrange(0, t@.len() as int) =~= views(t@));
    selected
}

/// Tokens joined by single spaces.
pub open spec fn spaced(t: Seq<Seq<char>>) -> Seq<char>
    decreases t.len(),
{
    if t.len() == 0 {
        seq![]
    } else if t.len() == 1 {
        t[0]
    } else {
        spaced(t.drop_last()) + " "@ + t.last()
    }
}

/// The body's tokens after cfg selection, joined by single spaces.
pub fn cfg_selected_body(body: &[char], options: VerificationOptions) -> (r: Vec<char>)
    ensures
        !has_token(tokens_spec(body@), "#"@) ==> r@ == spaced(tokens_spec(body@)),
{
    let t = tokens(body);
    let selected = cfg_selected_tokens(&t, options);
    let mut out: Vec<char> = Vec::new();
    let mut i: usize = 0;
    while i < selected.len()
        invariant
            i <= selected@.len(),
            out@ == spaced(views(selected@).subrange(0, i as int)),
        decreases selected.len() - i,
    {
        let ghost sub = views(selected@).subrange(0, i + 1);
        assert(sub.drop_last() =~= views(selected@).subrange(0, i as int));
        if i > 0 {
            append_lit(&mut out, " ");
        }
        crate::text::append(&mut out, &selected[i]);
        proof {
            if i == 0 {
                assert(sub.len() == 1);
            }
        }
        i += 1;
    }
    assert(views(selected@).subrange(0, selected@.len() as int) =~= views(selected@));
    out
}

/// The body's tokens without `loop_spec!` blocks.
pub fn executable_tokens_without_loop_specs(body: &[char]) -> (r: Vec<Vec<char>>)
    ensures
        !has_token(tokens_spec(body@), "loop_spec"@) ==> views(r@) == tokens_spec(body@),
        r@.len() <= tokens_spec(body@).len(),
{
    let t = tokens(body);
    let mut out: Vec<Vec<char>> = Vec::new();
    let mut idx: usize = 0;
    while idx < t.len()
        invariant
            idx <= t.len(),
            out@.len() <= idx,
            views(t@) == tokens_spec(body@),
            !has_token(views(t@), "loop_spec"@) ==> views(out@) == views(t@).subrange(0, idx as int),
        decreases t.len() - idx,
    {
        if let Some(open_idx) = loop_spec_open_idx(&t, idx) {
            assert(views(t@)[open_idx - 2] == "loop_spec"@);
            if let Some(close_idx) = matching_token_group(&t, open_idx, '{', '}') {
                idx = close_idx + 1;
                continue;
            }
        }
        let ghost before = out@;
        let token = slice_of(&t[idx], 0, t[idx].len());
        assert(t@[idx as int]@.subrange(0, t@[idx as int]@.len() as int) =~= t@[idx as int]@);
        out.push(token);
        proof {
            if !has_token(views(t@), "loop_spec"@) {
                assert(views(out@) =~= views(before).push(t@[idx as int]@));
                assert(views(t@).subrange(0, idx + 1) =~= views(t@).subrange(0, idx as int).push(t@[idx as int]@));
            }
        }
        idx += 1;
    }
    assert(views(t@).subrange(0, t@.len() as int) =~= views(t@));
    out
}

/// The executable tokens, with `( v )` around single values collapsed.
pub fn executable_tokens(body: &[char]) -> (r: Vec<Vec<char>>)
    ensures
        !has_token(tokens_spec(body@), "loop_spec"@) ==> views(r@) == crate::tokens::compact_from(tokens_spec(body@), 0),
{
    let t = executable_tokens_without_loop_specs(body);
    compact_parenthesized_value_tokens(&t)
}

fn first_open_brace_after(t: &[Vec<char>], from: usize) -> (r: Option<usize>)
    ensures
        r matches Some(o) ==> from <= o < t@.len() && t@[o as int]@ == seq!['{'],
        r matches Some(o) ==> forall|j: int| from <= j < o ==> t@[j]@ != seq!['{'],
        r is None ==> forall|j: int| from <= j < t@.len() ==> t@[j]@ != seq!['{'],
{
    let mut k = from;
    while k < t.len()
        invariant
            from <= k,
            forall|j: int| from <= j < k ==> t@[j]@ != seq!['{'],
        decreases t.len() - k,
    {
        if tok_char(t, k, '{') {
            return Some(k);
        }
        k += 1;
    }
    None
}

/// Cuts tokens into segments at each `while`: the code before it, its
/// condition, and (recursively) its body under the condition. No segment
/// is empty, and each runs under at least the given assumptions.
pub fn scoped_token_segments(t: &[Vec<char>], assumptions: &Vec<Vec<char>>) -> (r: Vec<TokenSegment>)
    ensures
        forall|k: int| 0 <= k < r@.len() ==> (#[trigger] r@[k]).tokens@.len() > 0
            && views(assumptions@).is_prefix_of(views(r@[k].assumptions@)),
        !has_token(views(t@), "while"@) ==> r@.len() == (if t@.len() > 0 { 1int } else { 0int }),
        !has_token(views(t@), "while"@) && t@.len() > 0 ==> views(r@[0].tokens@) == views(t@) && views(
            r@[0].assumptions@) == views(assumptions@),
    decreases t.len(),
{
    let mut segments: Vec<TokenSegment> = Vec::new();
    let mut current: Vec<Vec<char>> = Vec::new();
    let mut idx: usize = 0;
    while idx < t.len()
        invariant
            idx <= t.len(),
            forall|k: int| 0 <= k < segments@.len() ==> (#[trigger] segments@[k]).tokens@.len() > 0
                && views(assumptions@).is_prefix_of(views(segments@[k].assumptions@)),
            !has_token(views(t@), "while"@) ==> segments@.len() == 0 && views(current@) == views(t@).subrange(0, idx as int),
        decreases t.len() - idx,
    {
        if !tok_is(t, idx, "while") {
            let ghost before = current@;
            let token = slice_of(&t[idx], 0, t[idx].len());
            assert(t@[idx as int]@.subrange(0, t@[idx as int]@.len() as int) =~= t@[idx as int]@);
            current.push(token);
            proof {
                if !has_token(views(t@), "while"@) {
                    assert(views(current@) =~= views(before).push(t@[idx as int]@));
                    assert(views(t@).subrange(0, idx + 1) =~= views(t@).subrange(0, idx as int).push(t@[idx as int]@));
                }
            }
            idx += 1;
            continue;
        }
        assert(views(t@)[idx as int] == "while"@);
        let body_open = match first_open_brace_after(t, idx + 1) {
            Some(o) => o,
            None => {
                current.push(slice_of(&t[idx], 0, t[idx].len()));
                idx += 1;
                continue;
            },
        };
        let body_close = match matching_token_group(t, body_open, '{', '}') {
            Some(c) => c,
            None => {
                current.push(slice_of(&t[idx], 0, t[idx].len()));
                idx += 1;
                continue;
            },
        };
        if current.len() > 0 {
            let done = current;
            current = Vec::new();
            let a = crate::text::clone_texts(assumptions);
            assert(views(assumptions@).is_prefix_of(views(a@))) by {
                assert(views(a@).subrange(0, views(assumptions@).len() as int) =~= views(a@));
            }
            segments.push(TokenSegment { tokens: done, assumptions: a });
        }
        let condition_tokens = token_range(t, idx + 1, body_open);
        let condition = token_expression(&condition_tokens);
        if condition_tokens.len() > 0 {
            let a = crate::text::clone_texts(assumptions);
            assert(views(assumptions@).is_prefix_of(views(a@))) by {
                assert(views(a@).subrange(0, views(assumptions@).len() as int) =~= views(a@));
            }
            segments.push(TokenSegment { tokens: condition_tokens, assumptions: a });
        }
        let mut loop_assumptions = crate::text::clone_texts(assumptions);
        if condition.len() > 0 {
            loop_assumptions.push(condition);
        }
        assert(views(assumptions@).is_prefix_of(views(loop_assumptions@))) by {
            assert(views(loop_assumptions@).subrange(0, views(assumptions@).len() as int) =~= views(assumptions@));
        }
        let inner = token_range(t, body_open + 1, body_close);
        assert(inner@.len() == views(inner@).len());
        let mut nested = scoped_token_segments(&inner, &loop_assumptions);
        let ghost before = segments@;
        let ghost added = nested@;
        segments.append(&mut nested);
        assert forall|k: int| 0 <= k < segments@.len() implies (#[trigger] segments@[k]).tokens@.len() > 0
            && views(assumptions@).is_prefix_of(views(segments@[k].assumptions@)) by {
            if k >= before.len() {
                let seg = added[k - before.len()];
                assert(segments@[k] == seg);
                assert(views(loop_assumptions@).is_prefix_of(views(seg.assumptions@)));
                assert(views(assumptions@).is_prefix_of(views(seg.assumptions@))) by {
                    assert(views(seg.assumptions@).subrange(0, views(assumptions@).len() as int) =~= views(
                        loop_assumptions@).subrange(0, views(assumptions@).len() as int));
                }
            } else {
                assert(segments@[k] == before[k]);
            }
        }
        idx = body_close + 1;
    }
    assert(views(t@).subrange(0, t@.len() as int) =~= views(t@));
    if current.len() > 0 {
        let a = crate::text::clone_texts(assumptions);
        assert(views(assumptions@).is_prefix_of(views(a@))) by {
            assert(views(a@).subrange(0, views(assumptions@).len() as int) =~= views(a@));
        }
        let ghost before = segments@;
        segments.push(TokenSegment { tokens: current, assumptions: a });
        assert forall|k: int| 0 <= k < segments@.len() implies (#[trigger] segments@[k]).tokens@.len() > 0
            && views(assumptions@).is_prefix_of(views(segments@[k].assumptions@)) by {
            if k < before.len() {
                assert(segments@[k] == before[k]);
            }
        }
    }
    segments
}

/// The executable tokens of a body without `loop_spec!` blocks.
pub open spec fn executable_view(body: Seq<char>) -> Seq<Seq<char>> {
    crate::tokens::compact_from(tokens_spec(body), 0)
}

/// A body with no loop: no `loop_spec` and no `while` among its tokens.
pub open spec fn straight_line(body: Seq<char>) -> bool {
    !has_token(tokens_spec(body), "loop_spec"@) && !has_token(executable_view(body), "while"@)
}

/// Segments of the executable tokens; a straight-line body is one segment
/// (none when it is empty) under no assumption.
pub fn executable_token_segments(body: &[char]) -> (r: Vec<TokenSegment>)
    ensures
        forall|k: int| 0 <= k < r@.len() ==> (#[trigger] r@[k]).tokens@.len() > 0,
        straight_line(body@) ==> r@.len() == (if executable_view(body@).len() > 0 { 1int } else { 0int }),
        straight_line(body@) && r@.len() > 0 ==> views(r@[0].tokens@) == executable_view(body@)
            && r@[0].assumptions@.len() == 0,
{
    let t = executable_tokens(body);
    scoped_token_segments(&t, &Vec::new())
}

/// Segments of the tokens a call scan reads (parentheses kept as written).
pub fn executable_call_token_segments(body: &[char]) -> (r: Vec<TokenSegment>)
    ensures
        forall|k: int| 0 <= k < r@.len() ==> (#[trigger] r@[k]).tokens@.len() > 0,
        !has_token(tokens_spec(body@), "loop_spec"@) && !has_token(tokens_spec(body@), "while"@) ==> r@.len() == (
            if tokens_spec(body@).len() > 0 { 1int } else { 0int }),
        !has_token(tokens_spec(body@), "loop_spec"@) && !has_token(tokens_spec(body@), "while"@)
            && tokens_spec(body@).len() > 0 ==> views(r@[0].tokens@) == tokens_spec(body@) && r@[0].assumptions@.len()
            == 0,
{
    let t = executable_tokens_without_loop_specs(body);
    scoped_token_segments(&t, &Vec::new())
}

} // verus!
