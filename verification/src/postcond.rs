//! Postconditions of total functions: proved from the returned expression,
//! from the arms of a `match` or `if` the compiler reports, from the
//! contracts, or with Z3.

use crate::arith::{is_unsigned_integer, param_type, param_type_spec, int_type_spec};
use crate::discharge::{contracts_with_assumptions, z3_proves_conclusion};
use crate::loops::loop_exit_proves_value;
use crate::semantics::{SemanticBranchArm, SemanticMatch, SemanticMatchArm, TrustFunctionSemantics};
use crate::solver::{Param, VerificationOptions};
use crate::text::{
    first_index, last_index, lemma_first_index, lemma_last_index, append, append_lit, chars_of, chars_of_string, find_char, is_lit, parse_i128, parse_i128_spec, rfind_char,
    same, slice_of, split_once_lit, starts_with_lit, starts_with_spec, strip_prefix_lit, trim, views,
};
use crate::obligations::guard_assumptions_spec;
use crate::tokens::{
    condition_negates, conditions_equivalent, equivalent_spec, negates_spec, normalize, push_unique,
    reversed_condition, tok_char, tok_eq, tok_is, token_expression, token_range, tokens, type_name_tail,
};
use vstd::prelude::*;

verus! {

/// An `ensures` clause as written and with whitespace removed.
pub struct Contract {
    pub original: Vec<char>,
    pub normalized: Vec<char>,
}

/// The answer for one postcondition.
pub enum PostconditionProof {
    Proved,
    Unproved,
    /// Proved from the tokens only, where the compiler's facts should
    /// have covered the returned expression.
    SemanticExtractionIncomplete { expression: Vec<char> },
}

fn copy(v: &[char]) -> (r: Vec<char>)
    ensures
        r@ == v@,
{
    let r = slice_of(v, 0, v.len());
    assert(v@.subrange(0, v@.len() as int) =~= v@);
    r
}

pub fn postcondition_proof(proved: bool) -> (r: PostconditionProof)
    ensures
        proved ==> r is Proved,
        !proved ==> r is Unproved,
{
    if proved {
        PostconditionProof::Proved
    } else {
        PostconditionProof::Unproved
    }
}

/// What lies between the first `{` and the last `}` of a function's
/// source; empty when there is no such pair in that order.
pub open spec fn body_spec(source: Seq<char>) -> Seq<char> {
    match (first_index(source, '{', 0), last_index(source, '}', source.len() as int)) {
        (Some(a), Some(b)) => if a < b {
            source.subrange(a + 1, b)
        } else {
            seq![]
        },
        _ => seq![],
    }
}

/// The text between the first `{` and the last `}` of a function's source;
/// empty when there is no such pair in that order.
pub fn body(source: &[char]) -> (r: Vec<char>)
    ensures
        r@ == body_spec(source@),
        r@.len() > 0 ==> exists|s: int, e: int|
            0 <= s < e < source@.len() && source@[s] == '{' && source@[e] == '}' && (forall|k: int|
                0 <= k < s ==> source@[k] != '{') && (forall|k: int| e < k < source@.len() ==> source@[k] != '}')
                && r@ == source@.subrange(s + 1, e),
{
    let fb = find_char(source, '{');
    let lb = rfind_char(source, '}');
    proof {
        match fb {
            Some(b) => lemma_first_index(source@, '{', 0, Some(b as int)),
            None => lemma_first_index(source@, '{', 0, None),
        }
        match lb {
            Some(e) => lemma_last_index(source@, '}', source@.len() as int, Some(e as int)),
            None => lemma_last_index(source@, '}', source@.len() as int, None),
        }
    }
    let start = match fb {
        Some(s) => s,
        None => return Vec::new(),
    };
    let end = match lb {
        Some(e) => e,
        None => return Vec::new(),
    };
    if start >= end {
        return Vec::new();
    }
    slice_of(source, start + 1, end)
}

/// The text with every leading `return` removed.
pub open spec fn strip_returns(s: Seq<char>) -> Seq<char>
    decreases s.len(),
{
    if starts_with_spec(s, "return"@) && "return"@.len() > 0 {
        strip_returns(s.skip("return"@.len() as int))
    } else {
        s
    }
}

/// The length of the text once its trailing `;`s (among the first `n`
/// characters) are dropped.
pub open spec fn semicolon_free_len(s: Seq<char>, n: int) -> int
    decreases n,
{
    if n > 0 && n <= s.len() && s[n - 1] == ';' {
        semicolon_free_len(s, n - 1)
    } else {
        n
    }
}

/// The text with every trailing `;` removed.
pub open spec fn drop_semicolons(s: Seq<char>) -> Seq<char> {
    s.take(semicolon_free_len(s, s.len() as int))
}

/// The value a body returns, as `return_expression` finds it.
pub open spec fn return_expression_spec(body: Seq<char>) -> Seq<char> {
    let trimmed = drop_semicolons(strip_returns(crate::text::trim_spec(body)));
    match last_index(trimmed, '}', trimmed.len() as int) {
        Some(i) => {
            let tail = crate::text::trim_spec(trimmed.skip(i + 1));
            if tail.len() > 0 {
                drop_semicolons(tail)
            } else {
                trimmed
            }
        },
        None => trimmed,
    }
}

fn without_leading_return(s: &[char]) -> (r: Vec<char>)
    ensures
        r@ == strip_returns(s@),
{
    proof { reveal_strlit("return"); }
    let mut t = copy(s);
    loop
        invariant
            strip_returns(t@) == strip_returns(s@),
            "return"@.len() == 6,
        decreases t@.len(),
    {
        match strip_prefix_lit(&t, "return") {
            Some(rest) => {
                proof { reveal_strlit("return"); }
                t = rest;
            },
            None => return t,
        }
    }
}

/// The text with every trailing `;` removed.
fn without_trailing_semicolons(s: &[char]) -> (r: Vec<char>)
    ensures
        r@.len() > 0 ==> r@.last() != ';',
        r@ == s@.take(r@.len() as int),
        r@ == drop_semicolons(s@),
{
    let mut n = s.len();
    while n > 0 && s[n - 1] == ';'
        invariant
            n <= s.len(),
            semicolon_free_len(s@, n as int) == semicolon_free_len(s@, s@.len() as int),
        decreases n,
    {
        n -= 1;
    }
    slice_of(s, 0, n)
}

/// The value a function body returns: the body trimmed, a leading `return`
/// and trailing `;` dropped, and then what follows the last `}` when that
/// is not empty.
pub fn return_expression(body: &[char]) -> (r: Vec<char>)
    ensures
        r@ == return_expression_spec(body@),
{
    let trimmed = without_trailing_semicolons(&without_leading_return(&trim(body)));
    let found = rfind_char(&trimmed, '}');
    proof {
        match found {
            Some(e) => lemma_last_index(trimmed@, '}', trimmed@.len() as int, Some(e as int)),
            None => lemma_last_index(trimmed@, '}', trimmed@.len() as int, None),
        }
    }
    match found {
        Some(i) => {
            let tl = trimmed.len();
            let tail = trim(&slice_of(&trimmed, i + 1, tl));
            if tail.len() > 0 {
                return without_trailing_semicolons(&tail);
            }
        },
        None => {},
    }
    trimmed
}

/// Every token `out` of the condition replaced by the returned expression.
pub open spec fn out_replaced(tok: Seq<char>, e: Seq<char>) -> Seq<char> {
    if tok == "out"@ {
        e
    } else {
        tok
    }
}

/// The condition with each token `out` replaced by the returned
/// expression, its tokens joined.
pub open spec fn out_substituted(condition: Seq<char>, return_expression: Seq<char>) -> Seq<char> {
    crate::tokens::joined(crate::tokens::tokens_spec(condition).map_values(|tok: Seq<char>| out_replaced(tok,
        return_expression)))
}

pub fn substitute_out(condition: &[char], return_expression: &[char]) -> (r: Vec<char>)
    ensures
        r@ == out_substituted(condition@, return_expression@),
{
    let t = tokens(condition);
    let ghost tv = views(t@);
    let mut out: Vec<Vec<char>> = Vec::new();
    let mut i: usize = 0;
    while i < t.len()
        invariant
            i <= t@.len(),
            tv == views(t@),
            out@.len() == i,
            views(out@) == tv.subrange(0, i as int).map_values(|tok: Seq<char>| out_replaced(tok, return_expression@)),
        decreases t.len() - i,
    {
        let ghost before = views(out@);
        if is_lit(&t[i], "out") {
            out.push(copy(return_expression));
        } else {
            out.push(copy(&t[i]));
        }
        assert(tv[i as int] == t@[i as int]@);
        assert(views(out@) =~= before.push(out@[i as int]@));
        assert(views(out@) =~= tv.subrange(0, i + 1).map_values(|tok: Seq<char>| out_replaced(tok, return_expression@)));
        i += 1;
    }
    assert(tv.subrange(0, t@.len() as int) =~= tv);
    token_expression(&out)
}

/// Where a field's value ends: the first `,` outside brackets, from `i`
/// on, with the given bracket depths (a closing bracket at depth zero
/// leaves it at zero).
pub open spec fn value_end(t: Seq<Seq<char>>, i: int, p: int, b: int, c: int) -> int
    decreases t.len() - i,
{
    if i < 0 || i >= t.len() {
        i
    } else if t[i] == ","@ && p == 0 && b == 0 && c == 0 {
        i
    } else if t[i] == seq!['('] {
        value_end(t, i + 1, p + 1, b, c)
    } else if t[i] == seq![')'] {
        value_end(t, i + 1, if p > 0 { p - 1 } else { 0 }, b, c)
    } else if t[i] == seq!['['] {
        value_end(t, i + 1, p, b + 1, c)
    } else if t[i] == seq![']'] {
        value_end(t, i + 1, p, if b > 0 { b - 1 } else { 0 }, c)
    } else if t[i] == seq!['{'] {
        value_end(t, i + 1, p, b, c + 1)
    } else if t[i] == seq!['}'] {
        value_end(t, i + 1, p, b, if c > 0 { c - 1 } else { 0 })
    } else {
        value_end(t, i + 1, p, b, c)
    }
}

/// The first `field :` from token `idx` on, and its value's tokens written
/// together.
pub open spec fn field_value_from(t: Seq<Seq<char>>, field: Seq<char>, idx: int) -> Option<Seq<char>>
    decreases t.len() - idx,
{
    if idx < 0 || idx >= t.len() || t.len() - idx <= 2 {
        None
    } else if t[idx] == field && t[idx + 1] == ":"@ {
        Some(crate::tokens::joined(t.subrange(idx + 2, value_end(t, idx + 2, 0, 0, 0))))
    } else {
        field_value_from(t, field, idx + 1)
    }
}

/// The value a struct literal gives `field`: between the first `{` and the
/// last `}`.
pub open spec fn return_field_spec(e: Seq<char>, field: Seq<char>) -> Option<Seq<char>> {
    match (first_index(e, '{', 0), last_index(e, '}', e.len() as int)) {
        (Some(o), Some(c)) => if o < c {
            field_value_from(crate::tokens::tokens_spec(e.subrange(o + 1, c)), field, 0)
        } else {
            None
        },
        _ => None,
    }
}

/// The expression given for `field` in a struct literal `T { field: e, .. }`:
/// its tokens up to the next `,` outside brackets, written together.
pub fn return_field_expression(return_expression: &[char], field: &[char]) -> (r: Option<Vec<char>>)
    ensures
        !return_expression@.contains('{') || !return_expression@.contains('}') ==> r is None,
        r is Some == return_field_spec(return_expression@, field@) is Some,
        r matches Some(v) ==> return_field_spec(return_expression@, field@) == Some(v@),
{
    proof {
        reveal_strlit(":");
        reveal_strlit(",");
    }
    let open = match find_char(return_expression, '{') {
        Some(o) => o,
        None => {
            proof {
                lemma_first_index(return_expression@, '{', 0, None);
            }
            return None;
        },
    };
    proof {
        lemma_first_index(return_expression@, '{', 0, Some(open as int));
    }
    let close = match rfind_char(return_expression, '}') {
        Some(c) => c,
        None => {
            proof {
                lemma_last_index(return_expression@, '}', return_expression@.len() as int, None);
            }
            return None;
        },
    };
    proof {
        lemma_last_index(return_expression@, '}', return_expression@.len() as int, Some(close as int));
    }
    assert(return_expression@.contains('{')) by {
        assert(return_expression@[open as int] == '{');
    }
    assert(return_expression@.contains('}')) by {
        assert(return_expression@[close as int] == '}');
    }
    if open >= close {
        return None;
    }
    let fields = slice_of(return_expression, open + 1, close);
    let t = tokens(&fields);
    let ghost tv = views(t@);
    let mut idx: usize = 0;
    while idx < t.len() && t.len() - idx > 2
        invariant
            return_expression@.contains('{'),
            return_expression@.contains('}'),
            tv == views(t@),
            tv == crate::tokens::tokens_spec(return_expression@.subrange(open + 1, close as int)),
            ":"@ == seq![':'],
            ","@ == seq![','],
            return_field_spec(return_expression@, field@) == field_value_from(tv, field@, idx as int),
        decreases t.len() - idx,
    {
        assert(tv[idx as int] == t@[idx as int]@ && tv[idx + 1] == t@[idx + 1]@);
        if !tok_eq(&t, idx, field) || !tok_is(&t, idx + 1, ":") {
            idx += 1;
            continue;
        }
        let start = idx + 2;
        let mut end = start;
        let mut paren: usize = 0;
        let mut bracket: usize = 0;
        let mut brace: usize = 0;
        while end < t.len()
            invariant_except_break
                start <= end <= t.len(),
                return_expression@.contains('{'),
                return_expression@.contains('}'),
                tv == views(t@),
                ","@ == seq![','],
                paren <= end - start && bracket <= end - start && brace <= end - start,
                value_end(tv, start as int, 0, 0, 0) == value_end(tv, end as int, paren as int, bracket as int, brace as int),
            ensures
                start <= end <= t.len(),
                return_expression@.contains('{'),
                return_expression@.contains('}'),
                value_end(tv, start as int, 0, 0, 0) == end,
            decreases t.len() - end,
        {
            assert(tv[end as int] == t@[end as int]@);
            if tok_is(&t, end, ",") && paren == 0 && bracket == 0 && brace == 0 {
                break;
            }
            if tok_char(&t, end, '(') {
                paren = paren.saturating_add(1);
            } else if tok_char(&t, end, ')') {
                paren = paren.saturating_sub(1);
            } else if tok_char(&t, end, '[') {
                bracket = bracket.saturating_add(1);
            } else if tok_char(&t, end, ']') {
                bracket = bracket.saturating_sub(1);
            } else if tok_char(&t, end, '{') {
                brace = brace.saturating_add(1);
            } else if tok_char(&t, end, '}') {
                brace = brace.saturating_sub(1);
            }
            end += 1;
        }
        return Some(token_expression(&token_range(&t, start, end)));
    }
    None
}

/// `out.f == e` where the returned struct literal gives `f` the value `e`.
pub fn output_field_equals_return_field(output: &[char], expected: &[char], return_expression: &[char]) -> (r: bool)
    ensures
        r ==> starts_with_spec(output@, "out."@),
        r == (starts_with_spec(output@, "out."@) && return_field_spec(return_expression@, output@.skip("out."@.len() as int))
            == Some(expected@)),
{
    let field = match strip_prefix_lit(output, "out.") {
        Some(f) => f,
        None => return false,
    };
    match return_field_expression(return_expression, &field) {
        Some(e) => same(&e, expected),
        None => false,
    }
}

/// `a == b` split at its first `==`.
pub open spec fn equation_sides(c: Seq<char>) -> Option<(Seq<char>, Seq<char>)> {
    match crate::text::find_spec(c, "=="@) {
        Some(i) => Some((c.take(i), c.skip(i + 2))),
        None => None,
    }
}

/// Whether one side of the postcondition `a == b` is `out` and the other
/// the returned expression (or, when allowed, the value a `while x > 0`
/// loop leaves), or a field of `out` that the returned literal sets.
pub fn postcondition_proved_by_return_expression(postcondition: &Contract, raw_body: &[char], return_expression: &[char], allow_token_loop_exit: bool) -> (r: bool)
    ensures
        equation_sides(postcondition.normalized@) matches Some((a, b)) && ((a == "out"@ && b == return_expression@) || (b
            == "out"@ && a == return_expression@)) ==> r,
        r ==> (equation_sides(postcondition.normalized@) matches Some((a, b)) && (a == "out"@ || b == "out"@
            || starts_with_spec(a, "out."@) || starts_with_spec(b, "out."@))),
{
    proof { reveal_strlit("=="); }
    let (left, right) = match split_once_lit(&postcondition.normalized, "==") {
        Some(p) => p,
        None => return false,
    };
    (is_lit(&left, "out") && same(&right, return_expression)) || (is_lit(&right, "out") && same(&left, return_expression))
        || (allow_token_loop_exit && is_lit(&left, "out") && loop_exit_proves_value(raw_body, return_expression, &right))
        || (allow_token_loop_exit && is_lit(&right, "out") && loop_exit_proves_value(raw_body, return_expression, &left))
        || output_field_equals_return_field(&left, &right, return_expression)
        || output_field_equals_return_field(&right, &left, return_expression)
}

/// An integer literal or an integer parameter.
pub fn is_known_postcondition_term(term: &[char], params: &[Param]) -> (r: bool)
    ensures
        r == (parse_i128_spec(term@) is Some || param_type_spec(term@, params@) is Some),
{
    parse_i128(term).is_some() || param_type(term, params).is_some()
}

/// `text` followed by the literal.
fn text_then(text: &[char], lit: &str) -> (r: Vec<char>)
    ensures
        r@ == text@ + lit@,
{
    let mut out = copy(text);
    append_lit(&mut out, lit);
    out
}

/// The literal followed by `text`.
fn lit_then(lit: &str, text: &[char]) -> (r: Vec<char>)
    ensures
        r@ == lit@ + text@,
{
    let mut out = chars_of(lit);
    append(&mut out, text);
    out
}

/// `left op right` written together.
fn join_condition(left: &[char], op: &str, right: &[char]) -> (r: Vec<char>)
    ensures
        r@ == left@ + op@ + right@,
{
    let mut out = copy(left);
    append_lit(&mut out, op);
    append(&mut out, right);
    out
}

/// Whether some contract is `left op right` up to equivalence.
pub fn contracts_prove_order(left: &[char], op: &str, right: &[char], contracts: &Vec<Vec<char>>) -> (r: bool)
    ensures
        r == exists|k: int| 0 <= k < contracts@.len() && equivalent_spec(#[trigger] contracts@[k]@, left@ + op@ + right@),
{
    let condition = join_condition(left, op, right);
    let mut i: usize = 0;
    while i < contracts.len()
        invariant
            condition@ == left@ + op@ + right@,
            forall|k: int| 0 <= k < i ==> !equivalent_spec(#[trigger] contracts@[k]@, left@ + op@ + right@),
        decreases contracts.len() - i,
    {
        if conditions_equivalent(&contracts[i], &condition) {
            return true;
        }
        i += 1;
    }
    false
}

/// Whether the contracts pin `expression` to `expected`: they are the same
/// text, or `expected` is a literal or parameter and a contract says
/// `expression == expected`, or contracts give both `<=` and `>=`.
/// Some contract is `left op right` up to equivalence.
pub open spec fn order_proved(left: Seq<char>, op: Seq<char>, right: Seq<char>, contracts: Seq<Vec<char>>) -> bool {
    exists|k: int| 0 <= k < contracts.len() && equivalent_spec(#[trigger] contracts[k]@, left + op + right)
}

/// What `contracts_prove_equality` decides.
pub open spec fn equality_proved(expression: Seq<char>, expected: Seq<char>, contracts: Seq<Vec<char>>, params: Seq<Param>) -> bool {
    expression == expected || ((parse_i128_spec(expected) is Some || param_type_spec(expected, params) is Some) && (
    order_proved(expression, "=="@, expected, contracts) || (order_proved(expression, "<="@, expected, contracts)
        && order_proved(expression, ">="@, expected, contracts))))
}

pub fn contracts_prove_equality(expression: &[char], expected: &[char], contracts: &Vec<Vec<char>>, params: &[Param]) -> (r: bool)
    ensures
        r == equality_proved(expression@, expected@, contracts@, params@),
        expression@ == expected@ ==> r,
        r && expression@ != expected@ ==> (parse_i128_spec(expected@) is Some || param_type_spec(expected@, params@) is Some),
{
    if same(expression, expected) {
        return true;
    }
    if !is_known_postcondition_term(expected, params) {
        return false;
    }
    if contracts_prove_order(expression, "==", expected, contracts) {
        return true;
    }
    contracts_prove_order(expression, "<=", expected, contracts) && contracts_prove_order(expression, ">=", expected, contracts)
}

/// A contract that bounds an unsigned expression by zero from above:
/// `e==0`, `0==e`, `e<=0`, `0>=e`, `e<1` or `1>e`, written exactly so.
pub fn contract_proves_unsigned_zero_upper_bound(expression: &[char], contract: &[char]) -> (r: bool)
    ensures
        r == (contract@ == expression@ + "==0"@ || contract@ == "0=="@ + expression@ || contract@ == expression@
            + "<=0"@ || contract@ == "0>="@ + expression@ || contract@ == expression@ + "<1"@ || contract@ == "1>"@
            + expression@),
{
    same(contract, &text_then(expression, "==0")) || same(contract, &lit_then("0==", expression))
        || same(contract, &text_then(expression, "<=0")) || same(contract, &lit_then("0>=", expression))
        || same(contract, &text_then(expression, "<1")) || same(contract, &lit_then("1>", expression))
}

/// A contract bounding an unsigned expression by zero from above.
pub open spec fn zero_upper_bound(expression: Seq<char>, contract: Seq<char>) -> bool {
    contract == expression + "==0"@ || contract == "0=="@ + expression || contract == expression + "<=0"@ || contract
        == "0>="@ + expression || contract == expression + "<1"@ || contract == "1>"@ + expression
}

/// Whether the contracts show the returned expression equals `expected`,
/// or `expected` is `0` and an unsigned parameter is bounded by zero.
pub fn expression_equals_expected_from_assumptions(expression: &[char], expected: &[char], contracts: &Vec<Vec<char>>, params: &[Param]) -> (r: bool)
    ensures
        expression@ == expected@ ==> r,
        r == (equality_proved(expression@, expected@, contracts@, params@) || (expected@ == "0"@ && (param_type_spec(
            expression@, params@) matches Some(t) && (t == "u32"@ || t == "u64"@ || t == "usize"@)) && exists|k: int| 0 <= k
            < contracts@.len() && zero_upper_bound(expression@, #[trigger] contracts@[k]@))),
{
    if contracts_prove_equality(expression, expected, contracts, params) {
        return true;
    }
    if !is_lit(expected, "0") {
        return false;
    }
    let ty = match param_type(expression, params) {
        Some(t) => t,
        None => return false,
    };
    if !is_unsigned_integer(&ty) {
        return false;
    }
    let mut i: usize = 0;
    while i < contracts.len()
        invariant
            i <= contracts@.len(),
            forall|k: int| 0 <= k < i ==> !zero_upper_bound(expression@, #[trigger] contracts@[k]@),
            expected@ == "0"@,
            param_type_spec(expression@, params@) == Some(ty@),
            ty@ == "u32"@ || ty@ == "u64"@ || ty@ == "usize"@,
            !equality_proved(expression@, expected@, contracts@, params@),
        decreases contracts.len() - i,
    {
        if contract_proves_unsigned_zero_upper_bound(expression, &contracts[i]) {
            assert(zero_upper_bound(expression@, contracts@[i as int]@));
            return true;
        }
        i += 1;
    }
    false
}

/// `out == e` (or `e == out`) where the contracts show the returned
/// expression equals `e`.
pub fn postcondition_proved_by_assumptions(postcondition: &Contract, return_expression: &[char], contracts: &Vec<Vec<char>>, params: &[Param]) -> (r: bool)
    ensures
        equation_sides(postcondition.normalized@) matches Some((a, b)) && ((a == "out"@ && b == return_expression@) || (b
            == "out"@ && a == return_expression@)) ==> r,
        r ==> (equation_sides(postcondition.normalized@) matches Some((a, b)) && (a == "out"@ || b == "out"@)),
{
    proof { reveal_strlit("=="); }
    let (left, right) = match split_once_lit(&postcondition.normalized, "==") {
        Some(p) => p,
        None => return false,
    };
    if is_lit(&left, "out") {
        return expression_equals_expected_from_assumptions(return_expression, &right, contracts, params);
    }
    if is_lit(&right, "out") {
        return expression_equals_expected_from_assumptions(return_expression, &left, contracts, params);
    }
    false
}

/// The postcondition follows from the returned expression: directly, from
/// the contracts, or by Z3 with `out` replaced by the expression.
pub fn postcondition_proved_by_return_expression_with_assumptions(
    postcondition: &Contract,
    raw_body: &[char],
    return_expression: &[char],
    contracts: &Vec<Vec<char>>,
    params: &[Param],
    options: VerificationOptions,
    allow_token_loop_exit: bool,
) -> (r: bool)
    ensures
        equation_sides(postcondition.normalized@) matches Some((a, b)) && ((a == "out"@ && b == return_expression@) || (b
            == "out"@ && a == return_expression@)) ==> r,
        r && !(options.solver is Z3) ==> (equation_sides(postcondition.normalized@) matches Some((a, b)) && (a == "out"@ || b
            == "out"@ || starts_with_spec(a, "out."@) || starts_with_spec(b, "out."@))),
        r ==> (equation_sides(postcondition.normalized@) matches Some((a, b)) && (a == "out"@ || b == "out"@ || starts_with_spec(
            a, "out."@) || starts_with_spec(b, "out."@))) || (options.solver is Z3 && crate::discharge::z3_valid_text(
            out_substituted(postcondition.normalized@, return_expression@), views(contracts@), params@,
            options.target_pointer_width)),
{
    if postcondition_proved_by_return_expression(postcondition, raw_body, return_expression, allow_token_loop_exit) {
        return true;
    }
    if postcondition_proved_by_assumptions(postcondition, return_expression, contracts, params) {
        return true;
    }
    let conclusion = substitute_out(&postcondition.normalized, return_expression);
    match z3_proves_conclusion(&conclusion, contracts, params, options) {
        Some(b) => b,
        None => false,
    }
}

/// The assumptions of an arm, whitespace removed, each followed by its
/// reversal; each once.
pub fn semantic_arm_assumptions(assumptions: &Vec<String>) -> (r: Vec<Vec<char>>)
    ensures
        views(r@) == guard_assumptions_spec(assumptions@),
{
    let mut out: Vec<Vec<char>> = Vec::new();
    let mut i: usize = 0;
    while i < assumptions.len()
        invariant
            i <= assumptions@.len(),
            views(out@) == guard_assumptions_spec(assumptions@.subrange(0, i as int)),
        decreases assumptions.len() - i,
    {
        let ghost sub = assumptions@.subrange(0, i + 1);
        assert(sub.drop_last() =~= assumptions@.subrange(0, i as int));
        let a = chars_of_string(&assumptions[i]);
        push_unique(&mut out, normalize(&a));
        if let Some(rev) = reversed_condition(&a) {
            push_unique(&mut out, normalize(&rev));
        }
        i += 1;
    }
    assert(assumptions@.subrange(0, assumptions@.len() as int) =~= assumptions@);
    out
}

/// The guard of a branch arm followed by its other assumptions, prepared
/// as `semantic_arm_assumptions` does.
pub fn semantic_branch_arm_assumptions(arm: &SemanticBranchArm) -> (r: Vec<Vec<char>>)
    ensures
        views(r@) == guard_assumptions_spec(seq![arm.guard] + arm.assumptions@),
{
    let mut all: Vec<String> = Vec::new();
    all.push(arm.guard.clone());
    let mut i: usize = 0;
    while i < arm.assumptions.len()
        invariant
            i <= arm.assumptions@.len(),
            all@ == seq![arm.guard] + arm.assumptions@.subrange(0, i as int),
        decreases arm.assumptions.len() - i,
    {
        all.push(arm.assumptions[i].clone());
        assert(all@ =~= seq![arm.guard] + arm.assumptions@.subrange(0, i + 1));
        i += 1;
    }
    assert(arm.assumptions@.subrange(0, arm.assumptions@.len() as int) =~= arm.assumptions@);
    semantic_arm_assumptions(&all)
}

/// A contract rules the condition out when it is its negation.
pub fn semantic_condition_excluded_by_contract(condition: &[char], contract: &[char]) -> (r: bool)
    ensures
        r == negates_spec(condition@, contract@),
{
    condition_negates(condition, contract)
}

/// Whether no contract negates any of the arm's assumptions.
pub fn assumptions_reachable(assumptions: &Vec<Vec<char>>, contracts: &Vec<Vec<char>>) -> (r: bool)
    ensures
        r == forall|a: int, c: int| 0 <= a < assumptions@.len() && 0 <= c < contracts@.len() ==> !negates_spec(
            #[trigger] assumptions@[a]@, #[trigger] contracts@[c]@),
{
    let mut a: usize = 0;
    while a < assumptions.len()
        invariant
            a <= assumptions.len(),
            forall|x: int, c: int| 0 <= x < a && 0 <= c < contracts@.len() ==> !negates_spec(
                #[trigger] assumptions@[x]@, #[trigger] contracts@[c]@),
        decreases assumptions.len() - a,
    {
        let mut c: usize = 0;
        while c < contracts.len()
            invariant
                a < assumptions.len(),
                c <= contracts.len(),
                forall|x: int, k: int| 0 <= x < a && 0 <= k < contracts@.len() ==> !negates_spec(
                    #[trigger] assumptions@[x]@, #[trigger] contracts@[k]@),
                forall|k: int| 0 <= k < c ==> !negates_spec(assumptions@[a as int]@, #[trigger] contracts@[k]@),
            decreases contracts.len() - c,
        {
            if semantic_condition_excluded_by_contract(&assumptions[a], &contracts[c]) {
                return false;
            }
            c += 1;
        }
        a += 1;
    }
    true
}

/// No contract negates any of the texts.
pub open spec fn none_negated(assumptions: Seq<Seq<char>>, contracts: Seq<Seq<char>>) -> bool {
    forall|a: int, c: int| 0 <= a < assumptions.len() && 0 <= c < contracts.len() ==> !negates_spec(
        #[trigger] assumptions[a], #[trigger] contracts[c])
}

/// A branch arm is reachable unless a contract negates its guard or one of
/// its assumptions (or their reversals).
pub fn semantic_branch_arm_reachable(arm: &SemanticBranchArm, contracts: &Vec<Vec<char>>) -> (r: bool)
    ensures
        r == none_negated(guard_assumptions_spec(seq![arm.guard] + arm.assumptions@), views(contracts@)),
{
    let a = semantic_branch_arm_assumptions(arm);
    let r = assumptions_reachable(&a, contracts);
    assert(r == none_negated(views(a@), views(contracts@))) by {
        if r {
            assert forall|x: int, c: int| 0 <= x < views(a@).len() && 0 <= c < views(contracts@).len() implies !negates_spec(
                #[trigger] views(a@)[x], #[trigger] views(contracts@)[c]) by {
                assert(views(a@)[x] == a@[x]@ && views(contracts@)[c] == contracts@[c]@);
            }
        } else {
            let (x, c) = choose|x: int, c: int| 0 <= x < a@.len() && 0 <= c < contracts@.len() && negates_spec(
                #[trigger] a@[x]@, #[trigger] contracts@[c]@);
            assert(views(a@)[x] == a@[x]@ && views(contracts@)[c] == contracts@[c]@);
        }
    }
    r
}

/// A contract `x != None` rules out the `None` arm of a match on `x`, and
/// `x == None` the `Some` arm (either side order, no spaces).
pub fn semantic_variant_excluded_by_contract(scrutinee: &[char], variant: &[char], contract: &[char]) -> (r: bool)
    ensures
        r == ((variant@ == "None"@ && (contract@ == scrutinee@ + "!=None"@ || contract@ == "None!="@ + scrutinee@))
            || (variant@ == "Some"@ && (contract@ == scrutinee@ + "==None"@ || contract@ == "None=="@
            + scrutinee@))),
{
    proof {
        reveal_strlit("None");
        reveal_strlit("Some");
        assert("None"@[0] != "Some"@[0]);
    }
    if is_lit(variant, "None") {
        same(contract, &text_then(scrutinee, "!=None")) || same(contract, &lit_then("None!=", scrutinee))
    } else if is_lit(variant, "Some") {
        same(contract, &text_then(scrutinee, "==None")) || same(contract, &lit_then("None==", scrutinee))
    } else {
        false
    }
}

/// `x != None` rules out the `None` arm of a match on `x`, `x == None` the
/// `Some` arm.
pub open spec fn variant_excluded(scrutinee: Seq<char>, variant: Seq<char>, contract: Seq<char>) -> bool {
    (variant == "None"@ && (contract == scrutinee + "!=None"@ || contract == "None!="@ + scrutinee)) || (variant == "Some"@
        && (contract == scrutinee + "==None"@ || contract == "None=="@ + scrutinee))
}

/// An arm of a match is reachable unless a contract excludes its variant
/// or negates one of its assumptions.
pub fn semantic_match_arm_reachable(semantic_match: &SemanticMatch, arm: &SemanticMatchArm, contracts: &Vec<Vec<char>>) -> (r: bool)
    ensures
        r == ((forall|k: int| 0 <= k < contracts@.len() ==> !variant_excluded(semantic_match.scrutinee@, arm.variant@,
            #[trigger] contracts@[k]@)) && none_negated(guard_assumptions_spec(arm.assumptions@), views(contracts@))),
{
    let scrutinee = chars_of_string(&semantic_match.scrutinee);
    let variant = chars_of_string(&arm.variant);
    let mut i: usize = 0;
    while i < contracts.len()
        invariant
            scrutinee@ == semantic_match.scrutinee@,
            variant@ == arm.variant@,
            forall|k: int| 0 <= k < i ==> !variant_excluded(semantic_match.scrutinee@, arm.variant@, #[trigger] contracts@[k]@),
        decreases contracts.len() - i,
    {
        if semantic_variant_excluded_by_contract(&scrutinee, &variant, &contracts[i]) {
            return false;
        }
        i += 1;
    }
    let a = semantic_arm_assumptions(&arm.assumptions);
    let r = assumptions_reachable(&a, contracts);
    assert(r == none_negated(views(a@), views(contracts@))) by {
        if r {
            assert forall|x: int, c: int| 0 <= x < views(a@).len() && 0 <= c < views(contracts@).len() implies !negates_spec(
                #[trigger] views(a@)[x], #[trigger] views(contracts@)[c]) by {
                assert(views(a@)[x] == a@[x]@ && views(contracts@)[c] == contracts@[c]@);
            }
        } else {
            let (x, c) = choose|x: int, c: int| 0 <= x < a@.len() && 0 <= c < contracts@.len() && negates_spec(
                #[trigger] a@[x]@, #[trigger] contracts@[c]@);
            assert(views(a@)[x] == a@[x]@ && views(contracts@)[c] == contracts@[c]@);
        }
    }
    r
}

/// Whether the arms name this variant.
fn arms_have_variant(arms: &Vec<SemanticMatchArm>, variant: &str) -> (r: bool)
    ensures
        r == exists|k: int| 0 <= k < arms@.len() && (#[trigger] arms@[k]).variant@ == variant@,
{
    let mut i: usize = 0;
    while i < arms.len()
        invariant
            forall|k: int| 0 <= k < i ==> (#[trigger] arms@[k]).variant@ != variant@,
        decreases arms.len() - i,
    {
        if is_lit(&chars_of_string(&arms[i].variant), variant) {
            return true;
        }
        i += 1;
    }
    false
}

/// A match on an `Option` with `None` and `Some` arms, or on a `Result`
/// with `Ok` and `Err` arms.
pub open spec fn match_exhaustive_spec(semantic_match: SemanticMatch) -> bool {
    let tail = crate::tokens::type_name_tail_spec(semantic_match.scrutinee_type@);
    let has = |v: Seq<char>| exists|k: int| 0 <= k < semantic_match.arms@.len() && (#[trigger] semantic_match.arms@[k]).variant@ == v;
    if starts_with_spec(tail, "Option<"@) {
        has("None"@) && has("Some"@)
    } else if starts_with_spec(tail, "Result<"@) {
        has("Ok"@) && has("Err"@)
    } else {
        false
    }
}

/// A match arm that no contract rules out.
pub open spec fn match_arm_reachable_spec(semantic_match: SemanticMatch, arm: SemanticMatchArm, contracts: Seq<Seq<char>>) -> bool {
    (forall|k: int| 0 <= k < contracts.len() ==> !variant_excluded(semantic_match.scrutinee@, arm.variant@,
        #[trigger] contracts[k])) && none_negated(guard_assumptions_spec(arm.assumptions@), contracts)
}

/// An exhaustive match with a reachable arm, each reachable arm returning
/// a value.
pub open spec fn complete_match(semantic_match: SemanticMatch, contracts: Seq<Seq<char>>) -> bool {
    &&& match_exhaustive_spec(semantic_match)
    &&& exists|a: int| 0 <= a < semantic_match.arms@.len() && match_arm_reachable_spec(semantic_match,
        #[trigger] semantic_match.arms@[a], contracts)
    &&& forall|a: int| 0 <= a < semantic_match.arms@.len() && match_arm_reachable_spec(semantic_match,
        #[trigger] semantic_match.arms@[a], contracts) ==> semantic_match.arms@[a].return_expression is Some
}

/// A branch arm that no contract rules out.
pub open spec fn branch_arm_reachable_spec(arm: SemanticBranchArm, contracts: Seq<Seq<char>>) -> bool {
    none_negated(guard_assumptions_spec(seq![arm.guard] + arm.assumptions@), contracts)
}

/// A branch with a reachable arm, each reachable arm returning a value.
pub open spec fn complete_branch(branch: crate::semantics::SemanticBranch, contracts: Seq<Seq<char>>) -> bool {
    &&& exists|a: int| 0 <= a < branch.arms@.len() && branch_arm_reachable_spec(#[trigger] branch.arms@[a], contracts)
    &&& forall|a: int| 0 <= a < branch.arms@.len() && branch_arm_reachable_spec(#[trigger] branch.arms@[a], contracts)
        ==> branch.arms@[a].return_expression is Some
}

pub fn semantic_match_is_exhaustive(semantic_match: &SemanticMatch) -> (r: bool)
    ensures
        r == match_exhaustive_spec(*semantic_match),
        r == ({
            let tail = crate::tokens::type_name_tail_spec(semantic_match.scrutinee_type@);
            let has = |v: Seq<char>| exists|k: int| 0 <= k < semantic_match.arms@.len() && (#[trigger] semantic_match.arms@[k]).variant@ == v;
            if starts_with_spec(tail, "Option<"@) {
                has("None"@) && has("Some"@)
            } else if starts_with_spec(tail, "Result<"@) {
                has("Ok"@) && has("Err"@)
            } else {
                false
            }
        }),
{
    let tail = type_name_tail(&chars_of_string(&semantic_match.scrutinee_type));
    if starts_with_lit(&tail, "Option<") {
        return arms_have_variant(&semantic_match.arms, "None") && arms_have_variant(&semantic_match.arms, "Some");
    }
    if starts_with_lit(&tail, "Result<") {
        return arms_have_variant(&semantic_match.arms, "Ok") && arms_have_variant(&semantic_match.arms, "Err");
    }
    false
}

/// Over a match on the compiler's facts: `Some(true)` when an exhaustive
/// match has every reachable arm prove the postcondition, `Some(false)`
/// when some exhaustive, fully valued match exists but none proves it,
/// `None` when there is no such match.
#[verifier::loop_isolation(false)]
pub fn semantic_match_proves_postcondition(
    postcondition: &Contract,
    raw_body: &[char],
    semantics: Option<&TrustFunctionSemantics>,
    contracts: &Vec<Vec<char>>,
    params: &[Param],
    options: VerificationOptions,
) -> (r: Option<bool>)
    ensures
        semantics is None ==> r is None,
        semantics matches Some(s) ==> (r is Some <==> exists|m: int| 0 <= m < s.matches@.len() && complete_match(
            #[trigger] s.matches@[m], views(contracts@))),
{
    let s = match semantics {
        Some(s) => s,
        None => return None,
    };
    let ghost cv = views(contracts@);
    let mut complete_seen = false;
    let mut m: usize = 0;
    while m < s.matches.len()
        invariant
            m <= s.matches@.len(),
            complete_seen == exists|j: int| 0 <= j < m && complete_match(#[trigger] s.matches@[j], cv),
        decreases s.matches.len() - m,
    {
        let semantic_match = &s.matches[m];
        assert(*semantic_match == s.matches@[m as int]);
        if semantic_match_is_exhaustive(semantic_match) {
            let mut reachable: usize = 0;
            let mut valued = true;
            let mut all_proved = true;
            let mut a: usize = 0;
            while a < semantic_match.arms.len()
                invariant
                    a <= semantic_match.arms@.len(),
                    (reachable > 0) == exists|j: int| 0 <= j < a && match_arm_reachable_spec(*semantic_match,
                        #[trigger] semantic_match.arms@[j], cv),
                    valued == forall|j: int| 0 <= j < a && match_arm_reachable_spec(*semantic_match,
                        #[trigger] semantic_match.arms@[j], cv) ==> semantic_match.arms@[j].return_expression is Some,
                decreases semantic_match.arms.len() - a,
            {
                let arm = &semantic_match.arms[a];
                assert(*arm == semantic_match.arms@[a as int]);
                let rr = semantic_match_arm_reachable(semantic_match, arm, contracts);
                assert(rr == match_arm_reachable_spec(*semantic_match, *arm, cv)) by {
                    assert forall|k: int| 0 <= k < cv.len() implies cv[k] == #[trigger] contracts@[k]@ by {}
                }
                if rr {
                    reachable = reachable.saturating_add(1);
                    match &arm.return_expression {
                        Some(e) => {
                            if all_proved {
                                let ret = normalize(&chars_of_string(e));
                                let arm_contracts = contracts_with_assumptions(contracts, &semantic_arm_assumptions(&arm.assumptions));
                                if !postcondition_proved_by_return_expression_with_assumptions(postcondition, raw_body, &ret, &arm_contracts, params, options, false) {
                                    all_proved = false;
                                }
                            }
                        },
                        None => {
                            valued = false;
                        },
                    }
                }
                a += 1;
            }
            if reachable > 0 && valued {
                complete_seen = true;
                if all_proved {
                    return Some(true);
                }
            }
        }
        m += 1;
    }
    if complete_seen {
        Some(false)
    } else {
        None
    }
}

/// The same over the `if` branches the compiler reports.
#[verifier::loop_isolation(false)]
pub fn semantic_branch_proves_postcondition(
    postcondition: &Contract,
    raw_body: &[char],
    semantics: Option<&TrustFunctionSemantics>,
    contracts: &Vec<Vec<char>>,
    params: &[Param],
    options: VerificationOptions,
) -> (r: Option<bool>)
    ensures
        semantics is None ==> r is None,
        semantics matches Some(s) ==> (r is Some <==> exists|b: int| 0 <= b < s.branches@.len() && complete_branch(
            #[trigger] s.branches@[b], views(contracts@))),
{
    let s = match semantics {
        Some(s) => s,
        None => return None,
    };
    let ghost cv = views(contracts@);
    let mut complete_seen = false;
    let mut b: usize = 0;
    while b < s.branches.len()
        invariant
            b <= s.branches@.len(),
            complete_seen == exists|j: int| 0 <= j < b && complete_branch(#[trigger] s.branches@[j], cv),
        decreases s.branches.len() - b,
    {
        let branch = &s.branches[b];
        assert(*branch == s.branches@[b as int]);
        let mut reachable: usize = 0;
        let mut valued = true;
        let mut all_proved = true;
        let mut a: usize = 0;
        while a < branch.arms.len()
            invariant
                a <= branch.arms@.len(),
                (reachable > 0) == exists|j: int| 0 <= j < a && branch_arm_reachable_spec(#[trigger] branch.arms@[j], cv),
                valued == forall|j: int| 0 <= j < a && branch_arm_reachable_spec(#[trigger] branch.arms@[j], cv)
                    ==> branch.arms@[j].return_expression is Some,
            decreases branch.arms.len() - a,
        {
            let arm = &branch.arms[a];
            assert(*arm == branch.arms@[a as int]);
            if semantic_branch_arm_reachable(arm, contracts) {
                reachable = reachable.saturating_add(1);
                match &arm.return_expression {
                    Some(e) => {
                        if all_proved {
                            let ret = normalize(&chars_of_string(e));
                            let arm_contracts = contracts_with_assumptions(contracts, &semantic_branch_arm_assumptions(arm));
                            if !postcondition_proved_by_return_expression_with_assumptions(postcondition, raw_body, &ret, &arm_contracts, params, options, false) {
                                all_proved = false;
                            }
                        }
                    },
                    None => {
                        valued = false;
                    },
                }
            }
            a += 1;
        }
        if reachable > 0 && valued {
            complete_seen = true;
            if all_proved {
                return Some(true);
            }
        }
        b += 1;
    }
    if complete_seen {
        Some(false)
    } else {
        None
    }
}

/// The postcondition checked against the returned expression the compiler
/// reports; `None` when it reports none.
pub fn semantic_return_proves_postcondition(
    postcondition: &Contract,
    raw_body: &[char],
    semantic_return_expression: &Option<Vec<char>>,
    contracts: &Vec<Vec<char>>,
    params: &[Param],
    options: VerificationOptions,
) -> (r: Option<bool>)
    ensures
        semantic_return_expression is None <==> r is None,
{
    match semantic_return_expression {
        Some(e) => Some(postcondition_proved_by_return_expression_with_assumptions(postcondition, raw_body, e, contracts, params, options, false)),
        None => None,
    }
}

/// One postcondition of a total function: first from the compiler's
/// returned expression, then its matches, then its branches; a proof from
/// the tokens alone is incomplete when compiler facts are given.
pub fn postcondition_proved(
    postcondition: &Contract,
    body: &[char],
    raw_body: &[char],
    semantic_return_expression: &Option<Vec<char>>,
    semantics: Option<&TrustFunctionSemantics>,
    contracts: &Vec<Vec<char>>,
    params: &[Param],
    options: VerificationOptions,
) -> (r: PostconditionProof)
    ensures
        semantics is None && semantic_return_expression is None ==> !(r is SemanticExtractionIncomplete),
        semantics is None && semantic_return_expression is None && (equation_sides(postcondition.normalized@) matches Some((a, b))
            && ((a == "out"@ && b == return_expression_spec(body@)) || (b == "out"@ && a == return_expression_spec(body@))))
            ==> r is Proved,
        semantics is None && semantic_return_expression is None && !(options.solver is Z3) && r is Proved ==> (equation_sides(
            postcondition.normalized@) matches Some((a, b)) && (a == "out"@ || b == "out"@ || starts_with_spec(a, "out."@)
            || starts_with_spec(b, "out."@))),
{
    let ret = return_expression(body);
    let semantic_return = semantic_return_proves_postcondition(postcondition, raw_body, semantic_return_expression, contracts, params, options);
    if let Some(true) = semantic_return {
        return PostconditionProof::Proved;
    }
    if let Some(proved) = semantic_match_proves_postcondition(postcondition, raw_body, semantics, contracts, params, options) {
        return postcondition_proof(proved);
    }
    if let Some(proved) = semantic_branch_proves_postcondition(postcondition, raw_body, semantics, contracts, params, options) {
        return postcondition_proof(proved);
    }
    if let Some(false) = semantic_return {
        return PostconditionProof::Unproved;
    }
    let fallback = postcondition_proved_by_return_expression_with_assumptions(postcondition, raw_body, &ret, contracts, params, options, semantics.is_none());
    if fallback && semantics.is_some() {
        return PostconditionProof::SemanticExtractionIncomplete { expression: ret };
    }
    postcondition_proof(fallback)
}

} // verus!
