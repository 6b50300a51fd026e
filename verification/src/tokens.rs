//! The token view of Rust source that the verifier reasons over, and the
//! comparison-condition text algebra it uses (`a<b` and its reversal,
//! negation and equivalents).

use crate::text::{
    append, append_lit, chars_of, concat, find, find_spec, is_int_literal, is_lit, is_word_char,
    is_ws, occurs_at, parse_i128_spec, remove_ws, same, slice_of, split_once_lit, strip_ws,
    trim, trim_spec, views, whitespace, word_char, ascii_alpha, is_ascii_alpha,
};
use vstd::prelude::*;

verus! {

/// One token per identifier or number (a maximal run of ASCII letters,
/// digits and `_`) and one per other non-whitespace character, with the
/// run being built, as each character is read.
pub open spec fn token_state(s: Seq<char>) -> (Seq<Seq<char>>, Seq<char>)
    decreases s.len(),
{
    if s.len() == 0 {
        (seq![], seq![])
    } else {
        let (t, cur) = token_state(s.drop_last());
        let c = s.last();
        if is_word_char(c) {
            (t, cur.push(c))
        } else {
            let flushed = if cur.len() > 0 { t.push(cur) } else { t };
            if is_ws(c) {
                (flushed, seq![])
            } else {
                (flushed.push(seq![c]), seq![])
            }
        }
    }
}

pub open spec fn tokens_spec(s: Seq<char>) -> Seq<Seq<char>> {
    let (t, cur) = token_state(s);
    if cur.len() > 0 {
        t.push(cur)
    } else {
        t
    }
}

/// Whether a token list holds the token `w`.
pub open spec fn has_token(t: Seq<Seq<char>>, w: Seq<char>) -> bool {
    exists|i: int| 0 <= i < t.len() && #[trigger] t[i] == w
}

/// Splits text into tokens; see `tokens_spec`.
pub fn tokens(s: &[char]) -> (r: Vec<Vec<char>>)
    ensures
        views(r@) == tokens_spec(s@),
{
    let mut toks: Vec<Vec<char>> = Vec::new();
    let mut current: Vec<char> = Vec::new();
    let mut i: usize = 0;
    while i < s.len()
        invariant
            i <= s.len(),
            (views(toks@), current@) == token_state(s@.take(i as int)),
        decreases s.len() - i,
    {
        let c = s[i];
        proof {
            assert(s@.take(i + 1).drop_last() =~= s@.take(i as int));
        }
        let ghost before = toks@;
        if word_char(c) {
            current.push(c);
        } else {
            if current.len() > 0 {
                let cur = current;
                current = Vec::new();
                toks.push(cur);
                assert(views(toks@) =~= views(before).push(cur@));
            }
            let ghost mid = toks@;
            if !whitespace(c) {
                let one = vec![c];
                assert(one@ =~= seq![c]);
                toks.push(one);
                assert(views(toks@) =~= views(mid).push(seq![c]));
            }
        }
        i += 1;
    }
    assert(s@.take(s.len() as int) =~= s@);
    if current.len() > 0 {
        let ghost before = toks@;
        toks.push(current);
        assert(views(toks@) =~= views(before).push(current@));
    }
    toks
}

/// Tokens of a string.
pub fn tokens_of_str(s: &str) -> (r: Vec<Vec<char>>)
    ensures
        views(r@) == tokens_spec(s@),
{
    let c = chars_of(s);
    tokens(&c)
}

/// The tokens written together with nothing between them.
pub open spec fn joined(t: Seq<Seq<char>>) -> Seq<char>
    decreases t.len(),
{
    if t.len() == 0 {
        seq![]
    } else {
        joined(t.drop_last()) + t.last()
    }
}

pub fn token_expression(t: &[Vec<char>]) -> (r: Vec<char>)
    ensures
        r@ == joined(views(t@)),
{
    let mut r: Vec<char> = Vec::new();
    let mut i: usize = 0;
    while i < t.len()
        invariant
            i <= t.len(),
            r@ == joined(views(t@).take(i as int)),
        decreases t.len() - i,
    {
        proof {
            assert(views(t@).take(i + 1).drop_last() =~= views(t@).take(i as int));
        }
        append(&mut r, &t[i]);
        i += 1;
    }
    assert(views(t@).take(t.len() as int) =~= views(t@));
    r
}

/// `t[from..to]` as a new list.
pub fn token_range(t: &[Vec<char>], from: usize, to: usize) -> (r: Vec<Vec<char>>)
    requires
        from <= to <= t.len(),
    ensures
        views(r@) == views(t@).subrange(from as int, to as int),
{
    let mut r: Vec<Vec<char>> = Vec::new();
    let mut i = from;
    while i < to
        invariant
            from <= i <= to <= t.len(),
            r@.len() == i - from,
            forall|k: int| 0 <= k < i - from ==> r@[k]@ == t@[from + k]@,
        decreases to - i,
    {
        r.push(slice_of(&t[i], 0, t[i].len()));
        i += 1;
    }
    assert(views(r@) =~= views(t@).subrange(from as int, to as int));
    r
}

/// Whether token `i` exists and equals the literal.
pub fn tok_is(t: &[Vec<char>], i: usize, lit: &str) -> (r: bool)
    ensures
        r == (i < t@.len() && t@[i as int]@ == lit@),
{
    i < t.len() && is_lit(&t[i], lit)
}

/// Whether token `i` exists and is the single character `c`.
pub fn tok_char(t: &[Vec<char>], i: usize, c: char) -> (r: bool)
    ensures
        r == (i < t@.len() && t@[i as int]@ == seq![c]),
{
    if i < t.len() && t[i].len() == 1 && t[i][0] == c {
        assert(t@[i as int]@ =~= seq![c]);
        true
    } else {
        false
    }
}

/// Whether token `i` exists and equals `s`.
pub fn tok_eq(t: &[Vec<char>], i: usize, s: &[char]) -> (r: bool)
    ensures
        r == (i < t@.len() && t@[i as int]@ == s@),
{
    i < t.len() && same(&t[i], s)
}

/// `normalize`: the text without whitespace.
pub fn normalize(s: &[char]) -> (r: Vec<char>)
    ensures
        r@ == strip_ws(s@),
{
    remove_ws(s)
}

pub fn normalize_str(s: &str) -> (r: Vec<char>)
    ensures
        r@ == strip_ws(s@),
{
    let c = chars_of(s);
    remove_ws(&c)
}

pub open spec fn ident_spec(t: Seq<char>) -> bool {
    t.len() > 0 && (is_ascii_alpha(t[0]) || t[0] == '_') && forall|k: int|
        0 <= k < t.len() ==> is_word_char(#[trigger] t[k])
}

/// An identifier: a letter or `_` followed by letters, digits and `_`.
pub fn is_ident(t: &[char]) -> (r: bool)
    ensures
        r == ident_spec(t@),
{
    if t.len() == 0 || !(ascii_alpha(t[0]) || t[0] == '_') {
        return false;
    }
    let mut i: usize = 0;
    while i < t.len()
        invariant
            i <= t.len(),
            forall|k: int| 0 <= k < i ==> is_word_char(#[trigger] t@[k]),
        decreases t.len() - i,
    {
        if !word_char(t[i]) {
            return false;
        }
        i += 1;
    }
    true
}

pub open spec fn value_operand_spec(t: Seq<char>) -> bool {
    ident_spec(t) || parse_i128_spec(t) is Some
}

/// An identifier or an integer literal.
pub fn is_value_operand(t: &[char]) -> (r: bool)
    ensures
        r == value_operand_spec(t@),
{
    is_ident(t) || is_int_literal(t)
}

/// Where the group opened before `i` (at nesting `depth`) closes,
/// scanning the characters forward: the first `close` that brings the
/// nesting back to zero.
pub open spec fn char_group_close(s: Seq<char>, open: char, close: char, i: int, depth: int) -> Option<int>
    decreases s.len() - i,
{
    if i < 0 || i >= s.len() {
        None
    } else if s[i] == open {
        char_group_close(s, open, close, i + 1, depth + 1)
    } else if s[i] == close {
        if depth - 1 == 0 {
            Some(i)
        } else {
            char_group_close(s, open, close, i + 1, depth - 1)
        }
    } else {
        char_group_close(s, open, close, i + 1, depth)
    }
}

/// The same over tokens: the first `close` token that brings the nesting
/// back to zero.
pub open spec fn token_group_close(t: Seq<Seq<char>>, open: char, close: char, i: int, depth: int) -> Option<int>
    decreases t.len() - i,
{
    if i < 0 || i >= t.len() {
        None
    } else if t[i] == seq![open] {
        token_group_close(t, open, close, i + 1, depth + 1)
    } else if t[i] == seq![close] {
        if depth - 1 == 0 {
            Some(i)
        } else {
            token_group_close(t, open, close, i + 1, depth - 1)
        }
    } else {
        token_group_close(t, open, close, i + 1, depth)
    }
}

/// Scanning backward from before `i`: the first `open` token that brings
/// the nesting back to zero.
pub open spec fn token_group_open(t: Seq<Seq<char>>, open: char, close: char, i: int, depth: int) -> Option<int>
    decreases i,
{
    if i <= 0 || i > t.len() {
        None
    } else if t[i - 1] == seq![close] {
        token_group_open(t, open, close, i - 1, depth + 1)
    } else if t[i - 1] == seq![open] {
        if depth - 1 == 0 {
            Some(i - 1)
        } else {
            token_group_open(t, open, close, i - 1, depth - 1)
        }
    } else {
        token_group_open(t, open, close, i - 1, depth)
    }
}

/// Position of the token that closes the group opened at `open_idx`.
pub fn matching_token_group(t: &[Vec<char>], open_idx: usize, open: char, close: char) -> (r: Option<usize>)
    requires
        open_idx < t@.len(),
        t@[open_idx as int]@ == seq![open],
        open != close,
    ensures
        r matches Some(i) ==> open_idx < i < t@.len() && t@[i as int]@ == seq![close],
        r is Some == token_group_close(views(t@), open, close, open_idx as int, 0) is Some,
        r matches Some(i) ==> token_group_close(views(t@), open, close, open_idx as int, 0) == Some(i as int),
{
    let mut depth: usize = 0;
    let mut idx = open_idx;
    while idx < t.len()
        invariant
            open_idx <= idx <= t.len(),
            open_idx < t@.len(),
            t@[open_idx as int]@ == seq![open],
            open != close,
            idx > open_idx ==> depth >= 1,
            idx == open_idx ==> depth == 0,
            depth <= idx - open_idx,
            token_group_close(views(t@), open, close, open_idx as int, 0) == token_group_close(views(t@), open, close,
                idx as int, depth as int),
        decreases t.len() - idx,
    {
        if tok_char(t, idx, open) {
            if depth < usize::MAX {
                depth += 1;
            }
        } else if tok_char(t, idx, close) {
            depth -= 1;
            if depth == 0 {
                return Some(idx);
            }
        }
        idx += 1;
    }
    None
}

/// Position of the token that opens the group closed at `close_idx`.
pub fn matching_open_token_group(t: &[Vec<char>], close_idx: usize, open: char, close: char) -> (r: Option<usize>)
    requires
        close_idx < t@.len(),
        t@[close_idx as int]@ == seq![close],
        open != close,
    ensures
        r matches Some(i) ==> i < close_idx && t@[i as int]@ == seq![open],
        r is Some == token_group_open(views(t@), open, close, close_idx + 1, 0) is Some,
        r matches Some(i) ==> token_group_open(views(t@), open, close, close_idx + 1, 0) == Some(i as int),
{
    let n = t.len();
    let mut depth: usize = 0;
    let mut idx: usize = close_idx + 1;
    while idx > 0
        invariant
            n == t@.len(),
            close_idx < n,
            t@[close_idx as int]@ == seq![close],
            open != close,
            idx <= close_idx + 1,
            idx <= close_idx ==> depth >= 1,
            idx == close_idx + 1 ==> depth == 0,
            depth <= close_idx + 1 - idx,
            token_group_open(views(t@), open, close, close_idx + 1, 0) == token_group_open(views(t@), open, close,
                idx as int, depth as int),
        decreases idx,
    {
        let k = idx - 1;
        if tok_char(t, k, close) {
            if depth < usize::MAX {
                depth += 1;
            }
        } else if tok_char(t, k, open) {
            depth -= 1;
            if depth == 0 {
                return Some(k);
            }
        }
        idx -= 1;
    }
    None
}

/// The commas outside any bracket from `i` on, with `p`, `b` and `c` the
/// open parentheses, square brackets and braces so far.
pub open spec fn split_commas(t: Seq<Seq<char>>, i: int, p: int, b: int, c: int) -> int
    decreases t.len() - i,
{
    if i < 0 || i >= t.len() {
        0
    } else if t[i] == ","@ && p == 0 && b == 0 && c == 0 {
        1 + split_commas(t, i + 1, p, b, c)
    } else {
        let p2 = if t[i] == "("@ { p + 1 } else if t[i] == ")"@ { if p > 0 { p - 1 } else { 0 } } else { p };
        let b2 = if t[i] == "["@ { b + 1 } else if t[i] == "]"@ { if b > 0 { b - 1 } else { 0 } } else { b };
        let c2 = if t[i] == "{"@ { c + 1 } else if t[i] == "}"@ { if c > 0 { c - 1 } else { 0 } } else { c };
        split_commas(t, i + 1, p2, b2, c2)
    }
}

/// How many arguments the tokens between a call's parentheses hold.
pub open spec fn call_arity(t: Seq<Seq<char>>) -> int {
    if t.len() == 0 {
        0
    } else {
        split_commas(t, 0, 0, 0, 0) + 1
    }
}

/// The arguments of a call, split at the commas outside any bracket.
pub fn split_arguments(t: &[Vec<char>]) -> (r: Vec<Vec<Vec<char>>>)
    ensures
        t@.len() == 0 ==> r@.len() == 0,
        t@.len() > 0 ==> r@.len() >= 1,
        r@.len() == call_arity(views(t@)),
{
    proof {
        reveal_strlit(",");
        reveal_strlit("(");
        reveal_strlit(")");
        reveal_strlit("[");
        reveal_strlit("]");
        reveal_strlit("{");
        reveal_strlit("}");
    }
    let ghost tv = views(t@);
    let mut args: Vec<Vec<Vec<char>>> = Vec::new();
    if t.len() == 0 {
        return args;
    }
    let mut current: Vec<Vec<char>> = Vec::new();
    let mut paren: usize = 0;
    let mut bracket: usize = 0;
    let mut brace: usize = 0;
    let mut i: usize = 0;
    while i < t.len()
        invariant
            i <= t.len(),
            tv == views(t@),
            paren <= i && bracket <= i && brace <= i,
            args@.len() + split_commas(tv, i as int, paren as int, bracket as int, brace as int) == split_commas(tv, 0, 0, 0, 0),
        decreases t.len() - i,
    {
        let tok = &t[i];
        assert(tv[i as int] == tok@);
        let ghost (p0, b0, c0) = (paren as int, bracket as int, brace as int);
        if is_lit(tok, ",") && paren == 0 && bracket == 0 && brace == 0 {
            let done = current;
            current = Vec::new();
            args.push(done);
        } else {
            if is_lit(tok, "(") {
                paren = paren.saturating_add(1);
            } else if is_lit(tok, ")") {
                paren = paren.saturating_sub(1);
            } else if is_lit(tok, "[") {
                bracket = bracket.saturating_add(1);
            } else if is_lit(tok, "]") {
                bracket = bracket.saturating_sub(1);
            } else if is_lit(tok, "{") {
                brace = brace.saturating_add(1);
            } else if is_lit(tok, "}") {
                brace = brace.saturating_sub(1);
            }
            current.push(slice_of(tok, 0, tok.len()));
            proof {
                let x = tv[i as int];
                reveal_strlit(",");
                reveal_strlit("(");
                reveal_strlit(")");
                reveal_strlit("[");
                reveal_strlit("]");
                reveal_strlit("{");
                reveal_strlit("}");
                assert(","@ != "("@) by { assert(","@[0] != "("@[0]); }
                assert(","@ != ")"@) by { assert(","@[0] != ")"@[0]); }
                assert(","@ != "["@) by { assert(","@[0] != "["@[0]); }
                assert(","@ != "]"@) by { assert(","@[0] != "]"@[0]); }
                assert(","@ != "{"@) by { assert(","@[0] != "{"@[0]); }
                assert(","@ != "}"@) by { assert(","@[0] != "}"@[0]); }
                assert("("@ != ")"@) by { assert("("@[0] != ")"@[0]); }
                assert("("@ != "["@) by { assert("("@[0] != "["@[0]); }
                assert("("@ != "]"@) by { assert("("@[0] != "]"@[0]); }
                assert("("@ != "{"@) by { assert("("@[0] != "{"@[0]); }
                assert("("@ != "}"@) by { assert("("@[0] != "}"@[0]); }
                assert(")"@ != "["@) by { assert(")"@[0] != "["@[0]); }
                assert(")"@ != "]"@) by { assert(")"@[0] != "]"@[0]); }
                assert(")"@ != "{"@) by { assert(")"@[0] != "{"@[0]); }
                assert(")"@ != "}"@) by { assert(")"@[0] != "}"@[0]); }
                assert("["@ != "]"@) by { assert("["@[0] != "]"@[0]); }
                assert("["@ != "{"@) by { assert("["@[0] != "{"@[0]); }
                assert("["@ != "}"@) by { assert("["@[0] != "}"@[0]); }
                assert("]"@ != "{"@) by { assert("]"@[0] != "{"@[0]); }
                assert("]"@ != "}"@) by { assert("]"@[0] != "}"@[0]); }
                assert("{"@ != "}"@) by { assert("{"@[0] != "}"@[0]); }
                assert(!(x == ","@ && p0 == 0 && b0 == 0 && c0 == 0));
                let p2 = if x == "("@ { p0 + 1 } else if x == ")"@ { if p0 > 0 { p0 - 1 } else { 0 } } else { p0 };
                let b2 = if x == "["@ { b0 + 1 } else if x == "]"@ { if b0 > 0 { b0 - 1 } else { 0 } } else { b0 };
                let c2 = if x == "{"@ { c0 + 1 } else if x == "}"@ { if c0 > 0 { c0 - 1 } else { 0 } } else { c0 };
                assert(paren == p2);
                assert(bracket == b2);
                assert(brace == c2);
                assert(split_commas(tv, i as int, p0, b0, c0) == split_commas(tv, i + 1, p2, b2, c2));
            }
        }
        i += 1;
    }
    args.push(current);
    args
}

/// The tokens from `i` on with each `( v )` around a single value
/// collapsed to `v`, left to right.
pub open spec fn compact_from(t: Seq<Seq<char>>, i: int) -> Seq<Seq<char>>
    decreases t.len() - i,
{
    if i < 0 || i >= t.len() {
        seq![]
    } else if i + 2 < t.len() && t[i] == "("@ && t[i + 2] == ")"@ && value_operand_spec(t[i + 1]) {
        seq![t[i + 1]] + compact_from(t, i + 3)
    } else {
        seq![t[i]] + compact_from(t, i + 1)
    }
}

/// `( v )` around a single value collapsed to `v`.
pub fn compact_parenthesized_value_tokens(t: &[Vec<char>]) -> (r: Vec<Vec<char>>)
    ensures
        views(r@) == compact_from(views(t@), 0),
        r@.len() <= t@.len(),
{
    let ghost tv = views(t@);
    let mut out: Vec<Vec<char>> = Vec::new();
    let mut i: usize = 0;
    while i < t.len()
        invariant
            i <= t.len(),
            tv == views(t@),
            out@.len() <= i,
            views(out@) + compact_from(tv, i as int) == compact_from(tv, 0),
        decreases t.len() - i,
    {
        let ghost before = views(out@);
        if t.len() >= 3 && i < t.len() - 2 && is_lit(&t[i], "(") && is_lit(&t[i + 2], ")") && is_value_operand(&t[i + 1]) {
            let v = slice_of(&t[i + 1], 0, t[i + 1].len());
            assert(v@ =~= tv[i + 1]);
            out.push(v);
            assert(views(out@) =~= before.push(tv[i + 1]));
            assert(before.push(tv[i + 1]) + compact_from(tv, i + 3) =~= before + compact_from(tv, i as int));
            i += 3;
        } else {
            let v = slice_of(&t[i], 0, t[i].len());
            assert(v@ =~= tv[i as int]);
            out.push(v);
            assert(views(out@) =~= before.push(tv[i as int]));
            assert(before.push(tv[i as int]) + compact_from(tv, i + 1) =~= before + compact_from(tv, i as int));
            i += 1;
        }
    }
    assert(views(out@) + compact_from(tv, i as int) =~= views(out@));
    out
}

/// The single value of `{ v }` or `( v )`, else the tokens joined.
pub fn simple_grouped_value_expression(t: &[Vec<char>]) -> (r: Vec<char>)
    ensures
        r@ == (if t@.len() == 3 && ((t@[0]@ == "{"@ && t@[2]@ == "}"@) || (t@[0]@ == "("@ && t@[2]@ == ")"@))
            && value_operand_spec(t@[1]@) {
            t@[1]@
        } else {
            joined(views(t@))
        }),
{
    if t.len() == 3 && ((is_lit(&t[0], "{") && is_lit(&t[2], "}")) || (is_lit(&t[0], "(") && is_lit(&t[2], ")")))
        && is_value_operand(&t[1]) {
        let r = slice_of(&t[1], 0, t[1].len());
        assert(r@ =~= t@[1]@);
        return r;
    }
    token_expression(t)
}

/// Whether the `-` at `minus_idx` is a unary minus.
pub open spec fn unary_minus_spec_at(t: &[Vec<char>], minus_idx: usize) -> bool {
    minus_idx == 0 || unary_minus_before(t@[minus_idx - 1]@)
}

/// The tokens after which a `-` is a unary minus.
pub open spec fn unary_minus_before(p: Seq<char>) -> bool {
    p == "{"@ || p == "("@ || p == "["@ || p == ","@ || p == "return"@ || p == "=>"@ || p == "="@ || p == "<"@ || p
        == ">"@ || p == "<="@ || p == ">="@ || p == "=="@ || p == "!="@ || p == "+"@ || p == "-"@ || p == "*"@ || p
        == "/"@ || p == "%"@
}

/// Whether the token before `minus_idx` makes the `-` there a unary minus.
pub fn looks_unary_minus(t: &[Vec<char>], minus_idx: usize) -> (r: bool)
    requires
        minus_idx <= t@.len(),
    ensures
        r == (minus_idx == 0 || unary_minus_before(t@[minus_idx - 1]@)),
{
    if minus_idx == 0 {
        return true;
    }
    let p = &t[minus_idx - 1];
    is_lit(p, "{") || is_lit(p, "(") || is_lit(p, "[") || is_lit(p, ",") || is_lit(p, "return")
        || is_lit(p, "=>") || is_lit(p, "=") || is_lit(p, "<") || is_lit(p, ">") || is_lit(p, "<=")
        || is_lit(p, ">=") || is_lit(p, "==") || is_lit(p, "!=") || is_lit(p, "+") || is_lit(p, "-")
        || is_lit(p, "*") || is_lit(p, "/") || is_lit(p, "%")
}

/// Parenthesis depth after the first `k` characters: `(` opens, `)` closes.
pub open spec fn paren_depth(s: Seq<char>, k: int) -> int
    decreases k,
{
    if k <= 0 || k > s.len() {
        0
    } else {
        paren_depth(s, k - 1) + if s[k - 1] == '(' {
            1int
        } else if s[k - 1] == ')' {
            -1int
        } else {
            0int
        }
    }
}

/// One pair of parentheses encloses the whole text: it starts with `(`,
/// ends with `)`, and the depth stays above zero until the last character.
pub open spec fn outer_wrapped(s: Seq<char>) -> bool {
    &&& s.len() >= 2
    &&& s[0] == '('
    &&& s[s.len() - 1] == ')'
    &&& forall|k: int| 1 <= k < s.len() ==> #[trigger] paren_depth(s, k) > 0
}

/// The text without one pair of parentheses that encloses all of it.
pub fn strip_balanced_outer_parentheses(c: &[char]) -> (r: Option<Vec<char>>)
    ensures
        r is Some == outer_wrapped(c@),
        r matches Some(inner) ==> inner@ == c@.subrange(1, c@.len() - 1),
{
    if c.len() < 2 || c[0] != '(' || c[c.len() - 1] != ')' {
        return None;
    }
    let mut depth: usize = 0;
    let mut i: usize = 0;
    while i < c.len()
        invariant
            i <= c.len(),
            c@.len() >= 2,
            c@[0] == '(',
            c@[c@.len() - 1] == ')',
            depth <= i,
            depth as int == paren_depth(c@, i as int),
            forall|k: int| 1 <= k <= i && k < c@.len() ==> #[trigger] paren_depth(c@, k) > 0,
        decreases c.len() - i,
    {
        if c[i] == '(' {
            depth = depth + 1;
        } else if c[i] == ')' {
            if depth == 0 {
                return None;
            }
            depth -= 1;
        }
        assert(depth as int == paren_depth(c@, i + 1));
        if depth == 0 && i + 1 < c.len() {
            assert(paren_depth(c@, i + 1) == 0);
            return None;
        }
        i += 1;
    }
    Some(slice_of(c, 1, c.len() - 1))
}

/// Repeatedly strips parentheses that enclose the whole text.
pub open spec fn strip_outer_spec(c: Seq<char>) -> Seq<char>
    decreases c.len(),
{
    if outer_wrapped(c) {
        strip_outer_spec(c.subrange(1, c.len() - 1))
    } else {
        c
    }
}

/// A condition as compared: whitespace removed, then enclosing
/// parentheses stripped.
pub open spec fn canonical_spec(c: Seq<char>) -> Seq<char> {
    strip_outer_spec(strip_ws(c))
}

/// Whitespace removed and enclosing parentheses stripped.
pub fn canonical_condition(c: &[char]) -> (r: Vec<char>)
    ensures
        r@ == canonical_spec(c@),
{
    let mut cond = normalize(c);
    loop
        invariant
            strip_outer_spec(cond@) == canonical_spec(c@),
        decreases cond@.len(),
    {
        match strip_balanced_outer_parentheses(&cond) {
            Some(inner) => {
                cond = inner;
            },
            None => {
                return cond;
            },
        }
    }
}

/// The six comparison operators, two-character ones first: the order in
/// which a condition is split.
pub open spec fn comparison_op_text(k: int) -> Seq<char> {
    if k == 0 {
        "<="@
    } else if k == 1 {
        ">="@
    } else if k == 2 {
        "!="@
    } else if k == 3 {
        "=="@
    } else if k == 4 {
        "<"@
    } else {
        ">"@
    }
}

/// The operator that negates `comparison_op_text(k)`.
pub open spec fn negated_op_spec(k: int) -> Seq<char> {
    if k == 0 {
        ">"@
    } else if k == 1 {
        "<"@
    } else if k == 2 {
        "=="@
    } else if k == 3 {
        "!="@
    } else if k == 4 {
        ">="@
    } else {
        "<="@
    }
}

/// The operator for `comparison_op_text(k)` with its sides swapped.
pub open spec fn reversed_op_spec(k: int) -> Seq<char> {
    if k == 0 {
        ">="@
    } else if k == 1 {
        "<="@
    } else if k == 2 {
        "!="@
    } else if k == 3 {
        "=="@
    } else if k == 4 {
        ">"@
    } else {
        "<"@
    }
}

/// The first operator, from `k` on in the order above, that occurs in the
/// text, with the position of its first occurrence.
pub open spec fn first_split(c: Seq<char>, k: int) -> Option<(int, int)>
    decreases 6 - k,
{
    if k < 0 || k >= 6 {
        None
    } else {
        match find_spec(c, comparison_op_text(k)) {
            Some(i) => Some((k, i)),
            None => first_split(c, k + 1),
        }
    }
}

/// `left`, operator number and `right` of a comparison, sides trimmed.
pub open spec fn split_parts(c: Seq<char>) -> Option<(Seq<char>, int, Seq<char>)> {
    match first_split(c, 0) {
        Some((k, i)) => Some((trim_spec(c.take(i)), k, trim_spec(c.skip(i + comparison_op_text(k).len())))),
        None => None,
    }
}

/// The negation of a condition, as text.
pub open spec fn negated_spec(c: Seq<char>) -> Option<Seq<char>> {
    match split_parts(canonical_spec(c)) {
        Some((l, k, r)) => Some(l + negated_op_spec(k) + r),
        None => None,
    }
}

/// A condition with its sides swapped, as text.
pub open spec fn reversed_spec(c: Seq<char>) -> Option<Seq<char>> {
    match split_parts(canonical_spec(c)) {
        Some((l, k, r)) => Some(r + reversed_op_spec(k) + l),
        None => None,
    }
}

/// Two conditions are the same up to whitespace, enclosing parentheses
/// and swapping sides.
pub open spec fn equivalent_spec(a: Seq<char>, b: Seq<char>) -> bool {
    let l = canonical_spec(a);
    let r = canonical_spec(b);
    l == r || reversed_spec(l) == Some(r) || reversed_spec(r) == Some(l)
}

pub fn comparison_op(k: usize) -> (s: &'static str)
    requires
        k < 6,
    ensures
        s@ == comparison_op_text(k as int),
{
    proof {
        reveal_strlit("<=");
        reveal_strlit(">=");
        reveal_strlit("!=");
        reveal_strlit("==");
        reveal_strlit("<");
        reveal_strlit(">");
    }
    if k == 0 {
        "<="
    } else if k == 1 {
        ">="
    } else if k == 2 {
        "!="
    } else if k == 3 {
        "=="
    } else if k == 4 {
        "<"
    } else {
        ">"
    }
}

fn negated_op(k: usize) -> (s: &'static str)
    requires
        k < 6,
    ensures
        s@ == negated_op_spec(k as int),
{
    proof {
        reveal_strlit("<=");
        reveal_strlit(">=");
        reveal_strlit("!=");
        reveal_strlit("==");
        reveal_strlit("<");
        reveal_strlit(">");
    }
    if k == 0 {
        ">"
    } else if k == 1 {
        "<"
    } else if k == 2 {
        "=="
    } else if k == 3 {
        "!="
    } else if k == 4 {
        ">="
    } else {
        "<="
    }
}

fn reversed_op(k: usize) -> (s: &'static str)
    requires
        k < 6,
    ensures
        s@ == reversed_op_spec(k as int),
{
    proof {
        reveal_strlit("<=");
        reveal_strlit(">=");
        reveal_strlit("!=");
        reveal_strlit("==");
        reveal_strlit("<");
        reveal_strlit(">");
    }
    if k == 0 {
        ">="
    } else if k == 1 {
        "<="
    } else if k == 2 {
        "!="
    } else if k == 3 {
        "=="
    } else if k == 4 {
        ">"
    } else {
        "<"
    }
}

/// `left`, operator and `right` of a text that is already canonical.
fn split_comparison(c: &[char]) -> (r: Option<(Vec<char>, usize, Vec<char>)>)
    ensures
        r is Some == split_parts(c@) is Some,
        r matches Some((l, k, rr)) ==> k < 6 && split_parts(c@) == Some((l@, k as int, rr@)),
{
    let mut k: usize = 0;
    while k < 6
        invariant
            k <= 6,
            first_split(c@, 0) == first_split(c@, k as int),
        decreases 6 - k,
    {
        let op = comparison_op(k);
        match split_once_lit(c, op) {
            Some((left, right)) => {
                return Some((trim(&left), k, trim(&right)));
            },
            None => {},
        }
        k += 1;
    }
    None
}

/// `a op b` with `op` replaced by its negation (mode 0) or with its sides
/// swapped (mode 1).
fn rewrite_condition(c: &[char], mode: usize) -> (r: Option<Vec<char>>)
    ensures
        r is Some == split_parts(c@) is Some,
        r matches Some(t) ==> split_parts(c@) matches Some((l, k, rr)) && t@ == (if mode == 0 {
            l + negated_op_spec(k) + rr
        } else {
            rr + reversed_op_spec(k) + l
        }),
{
    match split_comparison(c) {
        Some((l, k, rr)) => {
            let mut out: Vec<char> = Vec::new();
            if mode == 0 {
                append(&mut out, &l);
                append_lit(&mut out, negated_op(k));
                append(&mut out, &rr);
            } else {
                append(&mut out, &rr);
                append_lit(&mut out, reversed_op(k));
                append(&mut out, &l);
            }
            Some(out)
        },
        None => None,
    }
}

/// The condition that holds exactly when this one fails (`a<b` to `a>=b`).
pub fn negated_condition(c: &[char]) -> (r: Option<Vec<char>>)
    ensures
        r is Some == negated_spec(c@) is Some,
        r matches Some(t) ==> negated_spec(c@) == Some(t@),
{
    let cc = canonical_condition(c);
    rewrite_condition(&cc, 0)
}

/// The same condition with its sides swapped (`a<b` to `b>a`).
pub fn reversed_condition(c: &[char]) -> (r: Option<Vec<char>>)
    ensures
        r is Some == reversed_spec(c@) is Some,
        r matches Some(t) ==> reversed_spec(c@) == Some(t@),
{
    let cc = canonical_condition(c);
    rewrite_condition(&cc, 1)
}

/// Whether two conditions are the same up to whitespace, outer
/// parentheses and reversal.
pub fn conditions_equivalent(left: &[char], right: &[char]) -> (r: bool)
    ensures
        r == equivalent_spec(left@, right@),
{
    let l = canonical_condition(left);
    let r = canonical_condition(right);
    if same(&l, &r) {
        return true;
    }
    let lr = reversed_condition(&l);
    if let Some(x) = &lr {
        if same(x, &r) {
            return true;
        }
    }
    let rr = reversed_condition(&r);
    if let Some(y) = &rr {
        if same(y, &l) {
            return true;
        }
    }
    false
}

/// The canonical condition and, when it differs, its reversal.
pub fn condition_variants(c: &[char]) -> (r: Vec<Vec<char>>)
    ensures
        views(r@) == (match reversed_spec(c@) {
            Some(rev) => if rev == canonical_spec(c@) {
                seq![canonical_spec(c@)]
            } else {
                seq![canonical_spec(c@), rev]
            },
            None => seq![canonical_spec(c@)],
        }),
{
    let mut variants: Vec<Vec<char>> = Vec::new();
    variants.push(canonical_condition(c));
    assert(views(variants@) =~= seq![canonical_spec(c@)]);
    if let Some(rev) = reversed_condition(c) {
        let ghost before = views(variants@);
        proof {
            if rev@ == canonical_spec(c@) {
                assert(before[0] == rev@);
            }
        }
        push_unique(&mut variants, rev);
        proof {
            if rev@ != canonical_spec(c@) {
                assert(views(variants@) =~= seq![canonical_spec(c@), rev@]);
            }
        }
    }
    variants
}

/// Whether `condition`, or its reversal, negated is equivalent to `other`.
pub open spec fn negates_spec(condition: Seq<char>, other: Seq<char>) -> bool {
    exists|v: Seq<char>|
        (v == canonical_spec(condition) || reversed_spec(condition) == Some(v)) && (negated_spec(v) matches Some(
            n) && equivalent_spec(n, other))
}

/// Whether `condition` is the negation of `other`.
#[verifier::loop_isolation(false)]
pub fn condition_negates(condition: &[char], other: &[char]) -> (r: bool)
    ensures
        r == negates_spec(condition@, other@),
{
    let variants = condition_variants(condition);
    let ghost vs = views(variants@);
    proof {
        match reversed_spec(condition@) {
            Some(rev) => {
                if rev == canonical_spec(condition@) {
                    assert(vs.len() == 1 && vs[0] == canonical_spec(condition@));
                } else {
                    assert(vs.len() == 2 && vs[0] == canonical_spec(condition@) && vs[1] == rev);
                }
            },
            None => {
                assert(vs.len() == 1 && vs[0] == canonical_spec(condition@));
            },
        }
    }
    let mut i: usize = 0;
    while i < variants.len()
        invariant
            vs == views(variants@),
            1 <= vs.len() <= 2,
            vs[0] == canonical_spec(condition@),
            vs.len() == 2 ==> reversed_spec(condition@) == Some(vs[1]),
            vs.len() == 1 ==> (reversed_spec(condition@) is None || reversed_spec(condition@) == Some(vs[0])),
            forall|j: int| 0 <= j < i ==> !(negated_spec(#[trigger] vs[j]) matches Some(n) && equivalent_spec(n, other@)),
        decreases variants.len() - i,
    {
        if let Some(neg) = negated_condition(&variants[i]) {
            if conditions_equivalent(&neg, other) {
                assert(vs[i as int] == canonical_spec(condition@) || reversed_spec(condition@) == Some(vs[i as int]));
                return true;
            }
        }
        assert(!(negated_spec(vs[i as int]) matches Some(n) && equivalent_spec(n, other@)));
        i += 1;
    }
    assert forall|v: Seq<char>| (v == canonical_spec(condition@) || reversed_spec(condition@) == Some(v)) implies !(negated_spec(v) matches Some(n) && equivalent_spec(n, other@)) by {
        if v == canonical_spec(condition@) {
            assert(vs[0] == v);
        } else if vs.len() == 2 {
            assert(vs[1] == v);
        } else {
            assert(vs[0] == v);
        }
    }
    false
}

/// Appends `value` unless an equal text is already there.
pub fn push_unique(values: &mut Vec<Vec<char>>, value: Vec<char>)
    ensures
        views(old(values)@).contains(value@) ==> views(final(values)@) == views(old(values)@),
        !views(old(values)@).contains(value@) ==> views(final(values)@) == views(old(values)@).push(value@),
{
    if !crate::text::texts_contain(values, &value) {
        let ghost before = values@;
        values.push(value);
        assert(views(values@) =~= views(before).push(values@.last()@));
    }
}

/// `left`, `op` and `right` of a comparison, split at the first operator
/// in the order `<=`, `>=`, `!=`, `==`, `<`, `>`, sides trimmed.
pub fn comparison_parts(condition: &[char]) -> (r: Option<(Vec<char>, Vec<char>, Vec<char>)>)
    ensures
        r is Some == split_parts(canonical_spec(condition@)) is Some,
        r matches Some((l, op, rr)) ==> split_parts(canonical_spec(condition@)) matches Some((sl, k, sr)) && l@ == sl
            && op@ == comparison_op_text(k) && rr@ == sr,
{
    let c = canonical_condition(condition);
    match split_comparison(&c) {
        Some((l, k, rr)) => Some((l, chars_of(comparison_op(k)), rr)),
        None => None,
    }
}

/// The four inequality operators in the order a condition is split for
/// flipping, and their flips.
pub open spec fn inequality_op(k: int) -> Seq<char> {
    if k == 0 {
        "<="@
    } else if k == 1 {
        ">="@
    } else if k == 2 {
        "<"@
    } else {
        ">"@
    }
}

pub open spec fn flipped_op(k: int) -> Seq<char> {
    if k == 0 {
        ">="@
    } else if k == 1 {
        "<="@
    } else if k == 2 {
        ">"@
    } else {
        "<"@
    }
}

/// The first inequality operator, from `k` on, that occurs, and where.
pub open spec fn first_inequality(c: Seq<char>, k: int) -> Option<(int, int)>
    decreases 4 - k,
{
    if k < 0 || k >= 4 {
        None
    } else {
        match find_spec(c, inequality_op(k)) {
            Some(i) => Some((k, i)),
            None => first_inequality(c, k + 1),
        }
    }
}

pub open spec fn flipped_spec(c: Seq<char>) -> Option<Seq<char>> {
    match first_inequality(c, 0) {
        Some((k, i)) => Some(c.skip(i + inequality_op(k).len()) + flipped_op(k) + c.take(i)),
        None => None,
    }
}

fn inequality_op_text(k: usize) -> (r: (&'static str, &'static str))
    requires
        k < 4,
    ensures
        r.0@ == inequality_op(k as int),
        r.1@ == flipped_op(k as int),
{
    proof {
        reveal_strlit("<=");
        reveal_strlit(">=");
        reveal_strlit("<");
        reveal_strlit(">");
    }
    if k == 0 {
        ("<=", ">=")
    } else if k == 1 {
        (">=", "<=")
    } else if k == 2 {
        ("<", ">")
    } else {
        (">", "<")
    }
}

/// The inequality with its sides swapped, split at the first of `<=`,
/// `>=`, `<`, `>` (sides kept as written).
pub fn flipped_inequality(condition: &[char]) -> (r: Option<Vec<char>>)
    ensures
        r is Some == flipped_spec(condition@) is Some,
        r matches Some(t) ==> flipped_spec(condition@) == Some(t@),
{
    let mut k: usize = 0;
    while k < 4
        invariant
            k <= 4,
            first_inequality(condition@, 0) == first_inequality(condition@, k as int),
        decreases 4 - k,
    {
        let (op, flip) = inequality_op_text(k);
        match split_once_lit(condition, op) {
            Some((left, right)) => {
                let mut out = right;
                append_lit(&mut out, flip);
                append(&mut out, &left);
                return Some(out);
            },
            None => {},
        }
        k += 1;
    }
    None
}

/// Position of the `)` matching the `(` at `open_idx`.
pub fn matching_paren(input: &[char], open_idx: usize) -> (r: Option<usize>)
    requires
        open_idx < input@.len(),
        input@[open_idx as int] == '(',
    ensures
        r matches Some(i) ==> open_idx < i < input@.len() && input@[i as int] == ')',
        r is Some == char_group_close(input@, '(', ')', open_idx as int, 0) is Some,
        r matches Some(i) ==> char_group_close(input@, '(', ')', open_idx as int, 0) == Some(i as int),
{
    let mut depth: usize = 0;
    let mut idx = open_idx;
    while idx < input.len()
        invariant
            open_idx <= idx <= input.len(),
            open_idx < input@.len(),
            input@[open_idx as int] == '(',
            idx > open_idx ==> depth >= 1,
            idx == open_idx ==> depth == 0,
            depth <= idx - open_idx,
            char_group_close(input@, '(', ')', open_idx as int, 0) == char_group_close(input@, '(', ')', idx as int,
                depth as int),
        decreases input.len() - idx,
    {
        if input[idx] == '(' {
            depth = depth.saturating_add(1);
            if depth == 0 {
                depth = 1;
            }
        } else if input[idx] == ')' {
            depth -= 1;
            if depth == 0 {
                return Some(idx);
            }
        }
        idx += 1;
    }
    None
}

/// Every `wrapper(e)` replaced by `e`, the first occurrence each time, as
/// long as one is found whose parentheses close; the wrapper ends in `(`.
pub fn remove_wrappers(input: &[char], wrapper: &str) -> (r: Vec<char>)
    ensures
        r@.len() <= input@.len(),
        find_spec(input@, wrapper@) is None ==> r@ == input@,
{
    let w = chars_of(wrapper);
    let mut out = slice_of(input, 0, input.len());
    assert(out@ =~= input@);
    if w.len() == 0 || w[w.len() - 1] != '(' {
        return out;
    }
    loop
        invariant
            out@.len() <= input@.len(),
            w@ == wrapper@,
            w@.len() > 0,
            w@[w@.len() - 1] == '(',
            find_spec(input@, wrapper@) is None ==> out@ == input@,
        decreases out@.len(),
    {
        let start = match find(&out, &w) {
            Some(s) => s,
            None => return out,
        };
        assert(occurs_at(out@, w@, start as int));
        let ol = out.len();
        let wl = w.len();
        assert(start + wl <= ol);
        let open_idx = start + wl - 1;
        assert(out@.subrange(start as int, start + w@.len())[w@.len() - 1] == out@[open_idx as int]);
        let end = match matching_paren(&out, open_idx) {
            Some(e) => e,
            None => return out,
        };
        let head = slice_of(&out, 0, start);
        let inner = slice_of(&out, open_idx + 1, end);
        let tail = slice_of(&out, end + 1, out.len());
        let mut next = concat(&head, &inner);
        append(&mut next, &tail);
        out = next;
    }
}

/// `int(e)` wrappers removed.
pub fn remove_int_wrappers(input: &[char]) -> (r: Vec<char>)
    ensures
        r@.len() <= input@.len(),
        find_spec(input@, "int("@) is None ==> r@ == input@,
{
    remove_wrappers(input, "int(")
}

/// `old(e)` wrappers removed.
pub fn remove_old_wrappers(input: &[char]) -> (r: Vec<char>)
    ensures
        r@.len() <= input@.len(),
        find_spec(input@, "old("@) is None ==> r@ == input@,
{
    remove_wrappers(input, "old(")
}

/// The last `::`-separated segment of a path: what follows its last `::`.
pub open spec fn type_name_tail_spec(ty: Seq<char>) -> Seq<char> {
    match crate::text::rfind_spec(ty, "::"@) {
        Some(i) => ty.skip(i + 2),
        None => ty,
    }
}

pub fn type_name_tail(ty: &[char]) -> (r: Vec<char>)
    ensures
        r@ == type_name_tail_spec(ty@),
{
    proof {
        reveal_strlit("::");
    }
    let sep = chars_of("::");
    match crate::text::rfind(ty, &sep) {
        Some(i) => {
            assert(occurs_at(ty@, sep@, i as int));
            let tl = ty.len();
            let sl = sep.len();
            assert(i + sl <= tl);
            slice_of(ty, i + sl, tl)
        },
        None => {
            let r = slice_of(ty, 0, ty.len());
            assert(r@ =~= ty@);
            r
        },
    }
}

/// The last non-empty `::` segment of a path, else the whole path.
pub open spec fn function_leaf_spec(path: Seq<char>) -> Seq<char> {
    if type_name_tail_spec(path).len() == 0 {
        path
    } else {
        type_name_tail_spec(path)
    }
}

pub fn function_leaf_name(path: &[char]) -> (r: Vec<char>)
    ensures
        r@ == (if type_name_tail_spec(path@).len() == 0 {
            path@
        } else {
            type_name_tail_spec(path@)
        }),
{
    let tail = type_name_tail(path);
    if tail.len() == 0 {
        let r = slice_of(path, 0, path.len());
        assert(r@ =~= path@);
        r
    } else {
        tail
    }
}

/// Lists `a` then `b`.
pub fn texts_concat(a: &Vec<Vec<char>>, b: &Vec<Vec<char>>) -> (r: Vec<Vec<char>>)
    ensures
        views(r@) == views(a@) + views(b@),
{
    let mut r = crate::text::clone_texts(a);
    assert(r@.len() == views(r@).len());
    assert forall|k: int| 0 <= k < a@.len() implies r@[k]@ == a@[k]@ by {
        assert(views(r@)[k] == views(a@)[k]);
    }
    let mut i: usize = 0;
    while i < b.len()
        invariant
            i <= b.len(),
            r@.len() == a@.len() + i,
            forall|k: int| 0 <= k < a@.len() ==> r@[k]@ == a@[k]@,
            forall|k: int| 0 <= k < i ==> r@[a@.len() + k]@ == b@[k]@,
        decreases b.len() - i,
    {
        let t = slice_of(&b[i], 0, b[i].len());
        r.push(t);
        i += 1;
    }
    assert(views(r@) =~= views(a@) + views(b@));
    r
}

} // verus!
