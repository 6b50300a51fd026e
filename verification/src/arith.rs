//! Integer-safety obligations: which additions, subtractions, negations,
//! multiplications, divisions and remainders a body performs, and whether
//! the contracts rule out their overflow or division by zero.

use crate::semantics::{SemanticArithmeticKind, SemanticArithmeticOperation, TrustFunctionSemantics};
use crate::solver::{self, Param, ProofResult, SolverBackend, VerificationOptions};
use crate::segments::{executable_token_segments, executable_view, straight_line, TokenSegment};
use crate::text::{
    append, append_lit, chars_of, chars_of_string, clone_texts, concat, decimal_i128,
    is_lit, parse_i128, same, slice_of, views,
};
use crate::tokens::{
    comparison_parts, is_ident, is_value_operand, looks_unary_minus, matching_open_token_group,
    matching_token_group, normalize, push_unique, reversed_condition, tok_char, tok_is,
    token_expression, token_range, value_operand_spec, ident_spec,
};
use vstd::prelude::*;

verus! {

/// The integer types the verifier checks arithmetic on.
pub open spec fn int_type_spec(ty: Seq<char>) -> bool {
    ty == "i32"@ || ty == "i64"@ || ty == "u32"@ || ty == "u64"@ || ty == "usize"@
}

pub fn is_supported_integer(ty: &[char]) -> (r: bool)
    ensures
        r == int_type_spec(ty@),
{
    is_lit(ty, "i32") || is_lit(ty, "i64") || is_lit(ty, "u32") || is_lit(ty, "u64") || is_lit(ty, "usize")
}

pub fn is_signed_integer(ty: &[char]) -> (r: bool)
    ensures
        r == (ty@ == "i32"@ || ty@ == "i64"@),
{
    is_lit(ty, "i32") || is_lit(ty, "i64")
}

pub fn is_unsigned_integer(ty: &[char]) -> (r: bool)
    ensures
        r == (ty@ == "u32"@ || ty@ == "u64"@ || ty@ == "usize"@),
{
    is_lit(ty, "u32") || is_lit(ty, "u64") || is_lit(ty, "usize")
}

pub open spec fn max_spec(ty: Seq<char>, w: Option<u32>) -> Option<int> {
    if ty == "i32"@ {
        Some(i32::MAX as int)
    } else if ty == "i64"@ {
        Some(i64::MAX as int)
    } else if ty == "u32"@ {
        Some(u32::MAX as int)
    } else if ty == "u64"@ {
        Some(u64::MAX as int)
    } else if ty == "usize"@ {
        Some(solver::usize_max_spec(w))
    } else {
        None
    }
}

pub open spec fn min_spec(ty: Seq<char>) -> Option<int> {
    if ty == "i32"@ {
        Some(i32::MIN as int)
    } else if ty == "i64"@ {
        Some(i64::MIN as int)
    } else if ty == "u32"@ || ty == "u64"@ || ty == "usize"@ {
        Some(0)
    } else {
        None
    }
}

pub fn max_value(ty: &[char], w: Option<u32>) -> (r: Option<i128>)
    ensures
        r matches Some(v) ==> max_spec(ty@, w) == Some(v as int) && v >= 0,
        r is None ==> max_spec(ty@, w) is None,
{
    if is_lit(ty, "i32") {
        Some(2147483647)
    } else if is_lit(ty, "i64") {
        Some(9223372036854775807)
    } else if is_lit(ty, "u32") {
        Some(4294967295)
    } else if is_lit(ty, "u64") {
        Some(18446744073709551615)
    } else if is_lit(ty, "usize") {
        Some(solver::usize_max_value(w))
    } else {
        None
    }
}

pub fn min_value(ty: &[char]) -> (r: Option<i128>)
    ensures
        r matches Some(v) ==> min_spec(ty@) == Some(v as int) && v <= 0 && v >= i64::MIN,
        r is None ==> min_spec(ty@) is None,
{
    if is_lit(ty, "i32") {
        Some(-2147483648)
    } else if is_lit(ty, "i64") {
        Some(-9223372036854775808)
    } else if is_lit(ty, "u32") || is_lit(ty, "u64") || is_lit(ty, "usize") {
        Some(0)
    } else {
        None
    }
}

/// The type of the first parameter with this name whose type is a checked
/// integer type.
/// Parameter lists with the same names and types give the same types.
pub proof fn lemma_param_type_pairs(a: Seq<Param>, b: Seq<Param>)
    requires
        crate::types::param_pairs(a) == crate::types::param_pairs(b),
    ensures
        forall|n: Seq<char>| #[trigger] param_type_spec(n, a) == param_type_spec(n, b),
    decreases a.len(),
{
    assert(a.len() == crate::types::param_pairs(a).len());
    if a.len() > 0 {
        assert(crate::types::param_pairs(a.drop_last()) =~= crate::types::param_pairs(a).drop_last());
        assert(crate::types::param_pairs(b.drop_last()) =~= crate::types::param_pairs(b).drop_last());
        lemma_param_type_pairs(a.drop_last(), b.drop_last());
        assert(crate::types::param_pairs(a)[a.len() - 1] == crate::types::param_pairs(b)[a.len() - 1]);
        assert(a.last().name@ == b.last().name@ && a.last().ty@ == b.last().ty@);
        assert forall|n: Seq<char>| #[trigger] param_type_spec(n, a) == param_type_spec(n, b) by {
            assert(param_type_spec(n, a.drop_last()) == param_type_spec(n, b.drop_last()));
        }
    }
}

pub open spec fn param_type_spec(name: Seq<char>, params: Seq<Param>) -> Option<Seq<char>>
    decreases params.len(),
{
    if params.len() == 0 {
        None
    } else {
        match param_type_spec(name, params.drop_last()) {
            Some(t) => Some(t),
            None => if params.last().name@ == name && int_type_spec(params.last().ty@) {
                Some(params.last().ty@)
            } else {
                None
            },
        }
    }
}

pub fn param_type(name: &[char], params: &[Param]) -> (r: Option<Vec<char>>)
    ensures
        r matches Some(t) ==> param_type_spec(name@, params@) == Some(t@) && int_type_spec(t@),
        r is None ==> param_type_spec(name@, params@) is None,
{
    let mut i: usize = 0;
    while i < params.len()
        invariant
            i <= params.len(),
            param_type_spec(name@, params@.take(i as int)) is None,
        decreases params.len() - i,
    {
        proof {
            assert(params@.take(i + 1).drop_last() =~= params@.take(i as int));
        }
        if same(&params[i].name, name) && is_supported_integer(&params[i].ty) {
            proof {
                lemma_param_type_prefix(name@, params@, i + 1);
            }
            return Some(slice_of(&params[i].ty, 0, params[i].ty.len()));
        }
        i += 1;
    }
    assert(params@.take(params.len() as int) =~= params@);
    None
}

proof fn lemma_param_type_prefix(name: Seq<char>, params: Seq<Param>, j: int)
    requires
        0 < j <= params.len(),
        param_type_spec(name, params.take(j)) is Some,
    ensures
        param_type_spec(name, params) == param_type_spec(name, params.take(j)),
    decreases params.len() - j,
{
    if j < params.len() {
        assert(params.take(j + 1).drop_last() =~= params.take(j));
        lemma_param_type_prefix(name, params, j + 1);
    } else {
        assert(params.take(j) =~= params);
    }
}

/// The type the compiler reports for an operation, when it is one of the
/// supported integer types.
pub open spec fn op_type_spec(ty: Option<String>) -> Option<Seq<char>> {
    match ty {
        Some(s) => if int_type_spec(s@) {
            Some(s@)
        } else {
            None
        },
        None => None,
    }
}

/// The operation type, when it is a checked integer type.
pub fn supported_operation_type(ty: &Option<String>) -> (r: Option<Vec<char>>)
    ensures
        r matches Some(t) ==> int_type_spec(t@) && (ty matches Some(s) && s@ == t@),
        crate::discharge::opt_view(r) == op_type_spec(*ty),
{
    match ty {
        Some(s) => {
            let t = chars_of_string(s);
            if is_supported_integer(&t) {
                Some(t)
            } else {
                None
            }
        },
        None => None,
    }
}

/// `T::MAX` or `T::MIN` spelled out for the type.
fn type_bound_text(ty: &[char], bound: &str) -> (r: Vec<char>)
    ensures
        r@ == ty@ + "::"@ + bound@,
{
    let mut t = slice_of(ty, 0, ty.len());
    append_lit(&mut t, "::");
    append_lit(&mut t, bound);
    assert(ty@.subrange(0, ty@.len() as int) =~= ty@);
    t
}

/// The value of an integer literal, or of `T::MAX` / `T::MIN` for the
/// given type.
pub open spec fn int_constant_spec(token: Seq<char>, ty: Option<Seq<char>>, w: Option<u32>) -> Option<int> {
    match crate::text::parse_i128_spec(token) {
        Some(v) => Some(v as int),
        None => match ty {
            Some(t) => if token == t + "::MAX"@ {
                max_spec(t, w)
            } else if token == t + "::MIN"@ {
                min_spec(t)
            } else {
                None
            },
            None => None,
        },
    }
}

pub fn integer_constant_value(token: &[char], ty: &Option<Vec<char>>, w: Option<u32>) -> (r: Option<i128>)
    ensures
        crate::text::parse_i128_spec(token@) matches Some(v) ==> r == Some(v),
        r matches Some(v) ==> int_constant_spec(token@, match ty { Some(t) => Some(t@), None => None }, w) == Some(v as int),
        r is None ==> int_constant_spec(token@, match ty { Some(t) => Some(t@), None => None }, w) is None,
{
    proof {
        reveal_strlit("::");
        reveal_strlit("MAX");
        reveal_strlit("MIN");
        reveal_strlit("::MAX");
        reveal_strlit("::MIN");
        assert("::"@ + "MAX"@ =~= "::MAX"@);
        assert("::"@ + "MIN"@ =~= "::MIN"@);
    }
    if let Some(v) = parse_i128(token) {
        return Some(v);
    }
    match ty {
        Some(t) => {
            let tmax = type_bound_text(t, "MAX");
            assert(tmax@ =~= t@ + "::MAX"@);
            if same(token, &tmax) {
                return max_value(t, w);
            }
            let tmin = type_bound_text(t, "MIN");
            assert(tmin@ =~= t@ + "::MIN"@);
            if same(token, &tmin) {
                return min_value(t);
            }
            None
        },
        None => None,
    }
}

/// `l op r` for `+`, `-`, and `*` for any other operator.
pub open spec fn op_value(l: int, r: int, op: char) -> int {
    if op == '+' {
        l + r
    } else if op == '-' {
        l - r
    } else {
        l * r
    }
}

/// Both operands are constants of the type and `op` applied to them stays
/// in the type's range.
pub open spec fn typed_constant_safe_spec(left: Seq<char>, right: Seq<char>, ty: Option<Seq<char>>, op: char, w: Option<u32>) -> bool {
    match ty {
        None => false,
        Some(t) => match (int_constant_spec(left, ty, w), int_constant_spec(right, ty, w), min_spec(t), max_spec(t, w)) {
            (Some(l), Some(r), Some(lo), Some(hi)) => lo <= op_value(l, r, op) <= hi,
            _ => false,
        },
    }
}

/// Whether both operands are constants of the type and `op` applied to
/// them stays in its range (op: `+`, `-` or `*`).
pub fn typed_constant_binary_is_safe(left: &[char], right: &[char], ty: &Option<Vec<char>>, op: char, w: Option<u32>) -> (r: bool)
    ensures
        r == typed_constant_safe_spec(left@, right@, crate::discharge::opt_view(*ty), op, w),
{
    let t = match ty {
        Some(t) => t,
        None => return false,
    };
    let (l, r) = match (integer_constant_value(left, ty, w), integer_constant_value(right, ty, w)) {
        (Some(l), Some(r)) => (l, r),
        _ => return false,
    };
    let value = if op == '+' {
        l.checked_add(r)
    } else if op == '-' {
        l.checked_sub(r)
    } else {
        l.checked_mul(r)
    };
    let bounds = (min_value(t), max_value(t, w));
    let v = match value {
        Some(v) => v,
        None => {
            proof {
                if let (Some(lo), Some(hi)) = bounds {
                    assert(!(lo <= op_value(l as int, r as int, op) <= hi));
                }
            }
            return false;
        },
    };
    match bounds {
        (Some(lo), Some(hi)) => lo <= v && v <= hi,
        _ => false,
    }
}

/// Whether an operation on these operands must be checked: either is an
/// integer parameter, or both are identifiers.
pub fn expression_needs_integer_proof(left: &[char], right: &[char], params: &[Param]) -> (r: bool)
    ensures
        r == (param_type_spec(left@, params@) is Some || param_type_spec(right@, params@) is Some
            || (ident_spec(left@) && ident_spec(right@))),
{
    param_type(left, params).is_some() || param_type(right, params).is_some() || (is_ident(left) && is_ident(right))
}

/// `a` + `mid` + `b`.
pub fn join3(a: &[char], mid: &str, b: &[char]) -> (r: Vec<char>)
    ensures
        r@ == a@ + mid@ + b@,
{
    let mut r = slice_of(a, 0, a.len());
    assert(a@.subrange(0, a@.len() as int) =~= a@);
    append_lit(&mut r, mid);
    append(&mut r, b);
    r
}

/// The operand that ends just before `op_idx`: `-n` for a negative
/// literal, else a single value token.
pub open spec fn operand_before_view(t: Seq<Seq<char>>, op_idx: int) -> Option<Seq<char>> {
    if 2 <= op_idx <= t.len() && crate::text::parse_i128_spec(t[op_idx - 1]) is Some && t[op_idx - 2] == "-"@ && (op_idx
        == 2 || crate::tokens::unary_minus_before(t[op_idx - 3])) {
        Some(seq!['-'] + t[op_idx - 1])
    } else if 0 < op_idx <= t.len() && value_operand_spec(t[op_idx - 1]) {
        Some(t[op_idx - 1])
    } else {
        None
    }
}

/// The operand that starts at `idx`: `-n` for a negative literal, else a
/// single value token.
pub open spec fn operand_after_view(t: Seq<Seq<char>>, idx: int) -> Option<Seq<char>> {
    if 0 <= idx < t.len() && t[idx] == "-"@ {
        if idx + 1 < t.len() && crate::text::parse_i128_spec(t[idx + 1]) is Some && (idx == 0
            || crate::tokens::unary_minus_before(t[idx - 1])) {
            Some(seq!['-'] + t[idx + 1])
        } else {
            None
        }
    } else if 0 <= idx < t.len() && value_operand_spec(t[idx]) {
        Some(t[idx])
    } else {
        None
    }
}

/// `- n` just before `op_idx`, with `-` a unary minus and `n` an integer.
pub open spec fn negative_literal_before(t: &[Vec<char>], op_idx: usize) -> bool {
    2 <= op_idx <= t@.len() && crate::text::parse_i128_spec(t@[op_idx - 1]@) is Some && t@[op_idx - 2]@ == "-"@
        && crate::tokens::unary_minus_spec_at(t, (op_idx - 2) as usize)
}

/// The operand before the operator at `op_idx`, a negative literal
/// included, and where it starts.
pub fn simple_signed_value_operand_before(t: &[Vec<char>], op_idx: usize) -> (r: Option<(Vec<char>, usize)>)
    ensures
        (op_idx == 0 || op_idx > t@.len()) ==> r is None,
        r matches Some((v, start)) ==> 0 < op_idx <= t@.len() && ((start == op_idx - 1 && v@ == t@[start as int]@
            && value_operand_spec(v@)) || (start + 2 == op_idx && t@[start as int]@ == "-"@ && crate::tokens::unary_minus_spec_at(t, start)
            && crate::text::parse_i128_spec(t@[op_idx - 1]@) is Some && v@ == seq!['-'] + t@[op_idx - 1]@)),
        r is Some == (0 < op_idx <= t@.len() && (negative_literal_before(t, op_idx) || value_operand_spec(
            t@[op_idx - 1]@))),
        negative_literal_before(t, op_idx) ==> (r matches Some((v, start)) && start + 2 == op_idx),
        match r {
            Some((v, _)) => operand_before_view(views(t@), op_idx as int) == Some(v@),
            None => operand_before_view(views(t@), op_idx as int) is None,
        },
{
    if op_idx == 0 || op_idx > t.len() {
        return None;
    }
    let idx = op_idx - 1;
    let token = &t[idx];
    if parse_i128(token).is_some() && idx > 0 && tok_is(t, idx - 1, "-") && looks_unary_minus(t, idx - 1) {
        let mut v = vec!['-'];
        append(&mut v, token);
        return Some((v, idx - 1));
    }
    if is_value_operand(token) {
        let v = slice_of(token, 0, token.len());
        assert(v@ =~= token@);
        assert(views(t@)[idx as int] == token@);
        return Some((v, idx));
    }
    None
}

/// The operand starting at `idx`, a negative literal included, and where
/// it ends.
pub fn simple_signed_value_operand_after(t: &[Vec<char>], idx: usize) -> (r: Option<(Vec<char>, usize)>)
    ensures
        idx >= t@.len() ==> r is None,
        r matches Some((v, end)) ==> idx < t@.len() && ((end == idx + 1 && v@ == t@[idx as int]@ && t@[idx as int]@ != "-"@
            && value_operand_spec(v@)) || (end == idx + 2 && t@[idx as int]@ == "-"@ && crate::tokens::unary_minus_spec_at(t, idx)
            && crate::text::parse_i128_spec(t@[idx + 1]@) is Some && v@ == seq!['-'] + t@[idx + 1]@)),
        match r {
            Some((v, _)) => operand_after_view(views(t@), idx as int) == Some(v@),
            None => operand_after_view(views(t@), idx as int) is None,
        },
        r is Some == (idx < t@.len() && if t@[idx as int]@ == "-"@ {
            idx + 1 < t@.len() && crate::text::parse_i128_spec(t@[idx + 1]@) is Some && crate::tokens::unary_minus_spec_at(
                t, idx)
        } else {
            value_operand_spec(t@[idx as int]@)
        }),
{
    if idx >= t.len() {
        return None;
    }
    let token = &t[idx];
    if is_lit(token, "-") {
        if idx + 1 >= t.len() {
            return None;
        }
        let value = &t[idx + 1];
        if parse_i128(value).is_some() && looks_unary_minus(t, idx) {
            let mut v = vec!['-'];
            append(&mut v, value);
            return Some((v, idx + 2));
        }
        return None;
    }
    if is_value_operand(token) {
        let v = slice_of(token, 0, token.len());
        assert(v@ =~= token@);
        assert(views(t@)[idx as int] == token@);
        return Some((v, idx + 1));
    }
    None
}

/// `base.field` when the tokens just before `op_idx` are `base . field`.
pub fn field_expression_before(t: &[Vec<char>], op_idx: usize) -> (r: Option<Vec<char>>)
    ensures
        r is Some == (3 <= op_idx <= t@.len() && t@[op_idx - 2]@ == "."@ && ident_spec(t@[op_idx - 3]@) && ident_spec(
            t@[op_idx - 1]@)),
        r matches Some(e) ==> e@ == t@[op_idx - 3]@ + "."@ + t@[op_idx - 1]@,
{
    if op_idx < 3 || op_idx > t.len() || !tok_is(t, op_idx - 2, ".") {
        return None;
    }
    let base = &t[op_idx - 3];
    let field = &t[op_idx - 1];
    if !is_ident(base) || !is_ident(field) {
        return None;
    }
    Some(join3(base, ".", field))
}

/// The text inside the parentheses that open at `open_idx`, when they close.
pub open spec fn paren_group_text(t: Seq<Seq<char>>, open_idx: int) -> Option<Seq<char>> {
    match crate::tokens::token_group_close(t, '(', ')', open_idx, 0) {
        Some(c) => Some(crate::tokens::joined(t.subrange(open_idx + 1, c))),
        None => None,
    }
}

/// `l op (e)` or `(e) op r` around the operator at `op_idx`, with `e` not a
/// single value; the right-hand group is looked at first.
pub open spec fn complex_binary_spec(t: Seq<Seq<char>>, op_idx: int) -> Option<Seq<char>> {
    if op_idx < 0 || op_idx >= t.len() {
        None
    } else if op_idx + 1 < t.len() && t[op_idx + 1] == seq!['('] && paren_group_text(t, op_idx + 1) is None {
        None
    } else if op_idx + 1 < t.len() && t[op_idx + 1] == seq!['('] && !value_operand_spec(
        paren_group_text(t, op_idx + 1)->0,
    ) {
        if op_idx == 0 {
            None
        } else {
            Some(t[op_idx - 1] + " "@ + t[op_idx] + " ("@ + paren_group_text(t, op_idx + 1)->0 + ")"@)
        }
    } else if op_idx > 0 && t[op_idx - 1] == seq![')'] {
        match crate::tokens::token_group_open(t, '(', ')', op_idx, 0) {
            None => None,
            Some(o) => {
                let left = crate::tokens::joined(t.subrange(o + 1, op_idx - 1));
                if value_operand_spec(left) || op_idx + 1 >= t.len() {
                    None
                } else {
                    Some(seq!['('] + left + ") "@ + t[op_idx] + " "@ + t[op_idx + 1])
                }
            },
        }
    } else {
        None
    }
}

/// The expression text of a binary operation whose one side is a
/// parenthesized compound expression, as `l op (e)` or `(e) op r`.
pub fn complex_binary_expression(t: &[Vec<char>], op_idx: usize) -> (r: Option<Vec<char>>)
    ensures
        r is Some ==> (op_idx + 1 < t@.len() && t@[op_idx + 1]@ == seq!['(']) || (0 < op_idx < t@.len() && t@[op_idx - 1]@ == seq![')']),
        crate::discharge::opt_view(r) == complex_binary_spec(views(t@), op_idx as int),
{
    if op_idx >= t.len() {
        return None;
    }
    let ghost tv = views(t@);
    let op = &t[op_idx];
    if tok_char(t, op_idx + 1, '(') {
        let close = match matching_token_group(t, op_idx + 1, '(', ')') {
            Some(c) => c,
            None => return None,
        };
        let right = token_expression(&token_range(t, op_idx + 2, close));
        assert(paren_group_text(tv, op_idx + 1) == Some(right@));
        if !is_value_operand(&right) {
            if op_idx == 0 {
                return None;
            }
            let left = &t[op_idx - 1];
            let mut e = join3(left, " ", op);
            append_lit(&mut e, " (");
            append(&mut e, &right);
            append_lit(&mut e, ")");
            assert(e@ =~= tv[op_idx - 1] + " "@ + tv[op_idx as int] + " ("@ + right@ + ")"@);
            return Some(e);
        }
    }
    if op_idx > 0 && tok_char(t, op_idx - 1, ')') {
        let open = match matching_open_token_group(t, op_idx - 1, '(', ')') {
            Some(o) => o,
            None => return None,
        };
        let left = token_expression(&token_range(t, open + 1, op_idx - 1));
        if !is_value_operand(&left) {
            if op_idx + 1 >= t.len() {
                return None;
            }
            let right = &t[op_idx + 1];
            let mut e = vec!['('];
            append(&mut e, &left);
            append_lit(&mut e, ") ");
            append(&mut e, op);
            append_lit(&mut e, " ");
            append(&mut e, right);
            assert(e@ =~= seq!['('] + left@ + ") "@ + tv[op_idx as int] + " "@ + tv[op_idx + 1]);
            return Some(e);
        }
    }
    None
}

/// The denominator and expression text of `l op (e)` with a compound `e`.
pub fn complex_denominator_expression(t: &[Vec<char>], op_idx: usize, op: &str) -> (r: Option<(Vec<char>, Vec<char>)>)
    ensures
        r is Some ==> op_idx + 1 < t@.len() && t@[op_idx + 1]@ == seq!['('],
        r is Some == (0 < op_idx && op_idx + 1 < t@.len() && t@[op_idx + 1]@ == seq!['('] && paren_group_text(
            views(t@), op_idx + 1) is Some && !value_operand_spec(paren_group_text(views(t@), op_idx + 1)->0)),
        r matches Some((d, e)) ==> Some(d@) == paren_group_text(views(t@), op_idx + 1) && e@ == t@[op_idx - 1]@ + " "@
            + op@ + " ("@ + d@ + ")"@,
{
    if op_idx >= t.len() || !tok_char(t, op_idx + 1, '(') {
        return None;
    }
    let close = match matching_token_group(t, op_idx + 1, '(', ')') {
        Some(c) => c,
        None => return None,
    };
    let denominator = token_expression(&token_range(t, op_idx + 2, close));
    assert(paren_group_text(views(t@), op_idx + 1) == Some(denominator@));
    if is_value_operand(&denominator) {
        return None;
    }
    if op_idx == 0 {
        return None;
    }
    let left = &t[op_idx - 1];
    let mut e = join3(left, " ", &chars_of(op));
    append_lit(&mut e, " (");
    append(&mut e, &denominator);
    append_lit(&mut e, ")");
    assert(e@ =~= t@[op_idx - 1]@ + " "@ + op@ + " ("@ + denominator@ + ")"@);
    Some((denominator, e))
}

/// `i32::MAX-1` and the like for the bounds one below a type's maximum,
/// else the decimal value.
pub open spec fn constant_with_type_spec(value: int, ty: Seq<char>) -> Seq<char> {
    if value == 2147483646 && ty == "i32"@ {
        "i32::MAX-1"@
    } else if value == 9223372036854775806 && ty == "i64"@ {
        "i64::MAX-1"@
    } else if value == 4294967294 && ty == "u32"@ {
        "u32::MAX-1"@
    } else if value == 18446744073709551614 && ty == "u64"@ {
        "u64::MAX-1"@
    } else {
        crate::text::signed_decimal_spec(value)
    }
}

pub fn constant_with_type(value: i128, ty: &[char]) -> (r: Vec<char>)
    ensures
        r@ == constant_with_type_spec(value as int, ty@),
{
    if value == 2147483646 && is_lit(ty, "i32") {
        chars_of("i32::MAX-1")
    } else if value == 9223372036854775806 && is_lit(ty, "i64") {
        chars_of("i64::MAX-1")
    } else if value == 4294967294 && is_lit(ty, "u32") {
        chars_of("u32::MAX-1")
    } else if value == 18446744073709551614 && is_lit(ty, "u64") {
        chars_of("u64::MAX-1")
    } else {
        decimal_i128(value)
    }
}

/// `i32::MIN+1` and the like for the bounds one above a type's minimum,
/// else the decimal value.
pub open spec fn min_bound_with_type_spec(value: int, ty: Seq<char>) -> Seq<char> {
    if value == -2147483647 && ty == "i32"@ {
        "i32::MIN+1"@
    } else if value == -9223372036854775807 && ty == "i64"@ {
        "i64::MIN+1"@
    } else {
        crate::text::signed_decimal_spec(value)
    }
}

pub fn min_bound_with_type(value: i128, ty: &[char]) -> (r: Vec<char>)
    ensures
        r@ == min_bound_with_type_spec(value as int, ty@),
{
    if value == -2147483647 && is_lit(ty, "i32") {
        chars_of("i32::MIN+1")
    } else if value == -9223372036854775807 && is_lit(ty, "i64") {
        chars_of("i64::MIN+1")
    } else {
        decimal_i128(value)
    }
}

/// Whether some contract equals one of the texts.
pub fn any_contract_is(contracts: &Vec<Vec<char>>, expected: &Vec<Vec<char>>) -> (r: bool)
    ensures
        r == exists|i: int, j: int| 0 <= i < contracts@.len() && 0 <= j < expected@.len() && contracts@[i]@ == expected@[j]@,
{
    let mut i: usize = 0;
    while i < contracts.len()
        invariant
            i <= contracts.len(),
            forall|a: int, b: int| 0 <= a < i && 0 <= b < expected@.len() ==> contracts@[a]@ != expected@[b]@,
        decreases contracts.len() - i,
    {
        let mut j: usize = 0;
        while j < expected.len()
            invariant
                i < contracts.len(),
                j <= expected.len(),
                forall|a: int, b: int| 0 <= a < i && 0 <= b < expected@.len() ==> contracts@[a]@ != expected@[b]@,
                forall|b: int| 0 <= b < j ==> contracts@[i as int]@ != expected@[b]@,
            decreases expected.len() - j,
        {
            if same(&contracts[i], &expected[j]) {
                return true;
            }
            j += 1;
        }
        i += 1;
    }
    false
}

/// Whether some contract equals the text.
pub fn contract_is(contracts: &Vec<Vec<char>>, expected: &[char]) -> (r: bool)
    ensures
        r == views(contracts@).contains(expected@),
{
    crate::text::texts_contain(contracts, expected)
}

/// The contracts that state `expr` differs from the type's minimum `min`.
pub open spec fn not_min_forms(expr: Seq<char>, ty: Seq<char>, min: int) -> Seq<Seq<char>> {
    let tmin = ty + "::MIN"@;
    let m = crate::text::signed_decimal_spec(min);
    let mp = crate::text::signed_decimal_spec(min + 1);
    let typed = min_bound_with_type_spec(min + 1, ty);
    seq![
        expr + "!="@ + tmin, tmin + "!="@ + expr, expr + "!="@ + m, m + "!="@ + expr,
        expr + ">"@ + tmin, tmin + "<"@ + expr, expr + ">"@ + m, m + "<"@ + expr,
        expr + ">="@ + typed, typed + "<="@ + expr, expr + ">="@ + mp, mp + "<="@ + expr,
    ]
}

/// Whether a contract states `expr` differs from the type's minimum.
pub fn contracts_prove_not_min(expr: &[char], ty: &[char], min: i128, contracts: &Vec<Vec<char>>) -> (r: bool)
    requires
        min < i128::MAX,
    ensures
        r == exists|i: int| 0 <= i < contracts@.len() && not_min_forms(expr@, ty@, min as int).contains(#[trigger] contracts@[i]@),
{
    let min_plus_one = min + 1;
    let typed = min_bound_with_type(min_plus_one, ty);
    let tmin = type_bound_text(ty, "MIN");
    let m = decimal_i128(min);
    let mp = decimal_i128(min_plus_one);
    let expected: Vec<Vec<char>> = vec![
        join3(expr, "!=", &tmin),
        join3(&tmin, "!=", expr),
        join3(expr, "!=", &m),
        join3(&m, "!=", expr),
        join3(expr, ">", &tmin),
        join3(&tmin, "<", expr),
        join3(expr, ">", &m),
        join3(&m, "<", expr),
        join3(expr, ">=", &typed),
        join3(&typed, "<=", expr),
        join3(expr, ">=", &mp),
        join3(&mp, "<=", expr),
    ];
    proof {
        assert(tmin@ =~= ty@ + "::MIN"@) by {
            reveal_strlit("::");
            reveal_strlit("MIN");
            reveal_strlit("::MIN");
        }
        let f = not_min_forms(expr@, ty@, min as int);
        assert(views(expected@) =~= f);
        assert forall|i: int| 0 <= i < contracts@.len() && f.contains(#[trigger] contracts@[i]@) implies exists|j: int| 0 <= j < expected@.len() && contracts@[i]@ == expected@[j]@ by {
            let j = choose|j: int| 0 <= j < f.len() && f[j] == contracts@[i]@;
            assert(expected@[j]@ == f[j]);
        }
        assert forall|i: int, j: int| 0 <= i < contracts@.len() && 0 <= j < expected@.len() && contracts@[i]@ == expected@[j]@ implies f.contains(contracts@[i]@) by {
            assert(f[j] == expected@[j]@);
        }
    }
    any_contract_is(contracts, &expected)
}

/// The contracts that state `expr` differs from `-1`.
pub open spec fn not_negative_one_forms(expr: Seq<char>) -> Seq<Seq<char>> {
    seq![
        expr + "!="@ + "-1"@, "-1"@ + "!="@ + expr, expr + ">"@ + "-1"@, "-1"@ + "<"@ + expr,
        expr + ">"@ + "0"@, "0"@ + "<"@ + expr, expr + ">="@ + "0"@, "0"@ + "<="@ + expr,
        expr + "<"@ + "-1"@, "-1"@ + ">"@ + expr, expr + "<="@ + "-2"@, "-2"@ + ">="@ + expr,
    ]
}

/// Whether a contract states `expr` differs from `-1`.
pub fn contracts_prove_not_negative_one(expr: &[char], contracts: &Vec<Vec<char>>) -> (r: bool)
    ensures
        r == exists|i: int| 0 <= i < contracts@.len() && not_negative_one_forms(expr@).contains(#[trigger] contracts@[i]@),
{
    let n1 = chars_of("-1");
    let z = chars_of("0");
    let n2 = chars_of("-2");
    let expected: Vec<Vec<char>> = vec![
        join3(expr, "!=", &n1),
        join3(&n1, "!=", expr),
        join3(expr, ">", &n1),
        join3(&n1, "<", expr),
        join3(expr, ">", &z),
        join3(&z, "<", expr),
        join3(expr, ">=", &z),
        join3(&z, "<=", expr),
        join3(expr, "<", &n1),
        join3(&n1, ">", expr),
        join3(expr, "<=", &n2),
        join3(&n2, ">=", expr),
    ];
    proof {
        let f = not_negative_one_forms(expr@);
        assert(views(expected@) =~= f);
        assert forall|i: int| 0 <= i < contracts@.len() && f.contains(#[trigger] contracts@[i]@) implies exists|j: int| 0 <= j < expected@.len() && contracts@[i]@ == expected@[j]@ by {
            let j = choose|j: int| 0 <= j < f.len() && f[j] == contracts@[i]@;
            assert(expected@[j]@ == f[j]);
        }
        assert forall|i: int, j: int| 0 <= i < contracts@.len() && 0 <= j < expected@.len() && contracts@[i]@ == expected@[j]@ implies f.contains(contracts@[i]@) by {
            assert(f[j] == expected@[j]@);
        }
    }
    any_contract_is(contracts, &expected)
}

pub struct AddObligation {
    pub variable: Vec<char>,
    pub ty: Option<Vec<char>>,
    pub constant: Option<i128>,
    pub expression: Vec<char>,
    pub assumptions: Vec<Vec<char>>,
}

pub struct SubObligation {
    pub variable: Vec<char>,
    pub ty: Option<Vec<char>>,
    pub constant: Option<i128>,
    pub rhs: Option<Vec<char>>,
    pub expression: Vec<char>,
    pub assumptions: Vec<Vec<char>>,
}

pub struct NegObligation {
    pub variable: Vec<char>,
    pub ty: Vec<char>,
    pub expression: Vec<char>,
    pub assumptions: Vec<Vec<char>>,
}

pub struct MulObligation {
    pub variable: Vec<char>,
    pub ty: Option<Vec<char>>,
    pub constant: Option<i128>,
    pub expression: Vec<char>,
    pub assumptions: Vec<Vec<char>>,
}

pub struct DenominatorObligation {
    pub denominator: Vec<char>,
    pub expression: Vec<char>,
    pub assumptions: Vec<Vec<char>>,
}

pub struct DivOverflowObligation {
    pub left: Vec<char>,
    pub right: Vec<char>,
    pub ty: Vec<char>,
    pub expression: Vec<char>,
    pub assumptions: Vec<Vec<char>>,
}

fn copy(v: &[char]) -> (r: Vec<char>)
    ensures
        r@ == v@,
{
    let r = slice_of(v, 0, v.len());
    assert(v@.subrange(0, v@.len() as int) =~= v@);
    r
}

fn either_type(left: &[char], right: &[char], params: &[Param]) -> (r: Option<Vec<char>>)
    ensures
        crate::discharge::opt_view(r) == (match param_type_spec(left@, params@) {
            Some(t) => Some(t),
            None => param_type_spec(right@, params@),
        }),
{
    match param_type(left, params) {
        Some(t) => Some(t),
        None => param_type(right, params),
    }
}

/// `x op c` at `idx` with `x` an integer parameter named by an identifier
/// and `c` a literal: a check every such operation gets.
pub open spec fn param_op_literal_at(t: Seq<Seq<char>>, params: Seq<Param>, op: Seq<char>, idx: int) -> bool {
    &&& 0 <= idx && idx + 2 < t.len()
    &&& t[idx + 1] == op
    &&& ident_spec(t[idx])
    &&& param_type_spec(t[idx], params) is Some
    &&& crate::text::parse_i128_spec(t[idx + 2]) is Some
}

/// The tokens hold a `+` at `j + 1` whose two neighbours, joined around
/// it, give this text, or whose right neighbour opens or left neighbour
/// closes a parenthesis.
pub open spec fn plus_site_at(t: Seq<Seq<char>>, e: Seq<char>, j: int) -> bool {
    &&& 0 <= j && j + 2 < t.len() && t[j + 1] == "+"@
    &&& (e == t[j] + " + "@ + t[j + 2] || t[j + 2] == seq!['('] || t[j] == seq![')'])
}

/// Some `+` of the tokens gives this text.
pub open spec fn plus_site_text(t: Seq<Seq<char>>, e: Seq<char>) -> bool {
    exists|j: int| #[trigger] plus_site_at(t, e, j)
}

/// The text of a `+` between an integer parameter and a literal is those
/// two tokens joined around it.
pub proof fn lemma_plus_site_simple(t: Seq<Seq<char>>, params: Seq<Param>, e: Seq<char>, j: int)
    requires
        plus_site_at(t, e, j),
        param_op_literal_at(t, params, "+"@, j),
    ensures
        e == t[j] + " + "@ + t[j + 2],
{
    lemma_literal_not_group(t[j + 2]);
    lemma_ident_not_group(t[j]);
}

/// The tokens hold a `*` at `j + 1` whose two neighbours, joined around
/// it, give this text, or whose right neighbour opens or left neighbour
/// closes a parenthesis.
pub open spec fn star_site_at(t: Seq<Seq<char>>, e: Seq<char>, j: int) -> bool {
    &&& 0 <= j && j + 2 < t.len() && t[j + 1] == "*"@
    &&& (e == t[j] + " * "@ + t[j + 2] || t[j + 2] == seq!['('] || t[j] == seq![')'])
}

/// Some `*` of the tokens gives this text.
pub open spec fn star_site_text(t: Seq<Seq<char>>, e: Seq<char>) -> bool {
    exists|j: int| #[trigger] star_site_at(t, e, j)
}

/// The text of a `*` between an integer parameter and a literal is those
/// two tokens joined around it.
pub proof fn lemma_star_site_simple(t: Seq<Seq<char>>, params: Seq<Param>, e: Seq<char>, j: int)
    requires
        star_site_at(t, e, j),
        param_op_literal_at(t, params, "*"@, j),
    ensures
        e == t[j] + " * "@ + t[j + 2],
{
    lemma_literal_not_group(t[j + 2]);
    lemma_ident_not_group(t[j]);
}

/// Some obligation checks `v` with constant `c` at type `ty`.
pub open spec fn add_recorded(r: Seq<AddObligation>, v: Seq<char>, c: i128, ty: Seq<char>) -> bool {
    exists|k: int| 0 <= k < r.len() && (#[trigger] r[k]).variable@ == v && r[k].constant == Some(c) && (r[k].ty matches Some(x) && x@ == ty)
}

/// Some obligation has this text.
pub open spec fn add_text_recorded(r: Seq<AddObligation>, e: Seq<char>) -> bool {
    exists|k: int| 0 <= k < r.len() && (#[trigger] r[k]).expression@ == e
}

/// The obligation's text is `l + r` of two simple operands, and when `l`
/// is an integer parameter and `r` a literal it checks `l` with constant
/// `r` at the parameter's type.
pub open spec fn add_text_fields(o: AddObligation, l: Seq<char>, r: Seq<char>, params: Seq<Param>) -> bool {
    &&& crate::tokens::value_operand_spec(l) && crate::tokens::value_operand_spec(r)
    &&& o.expression@ == l + " + "@ + r
    &&& (param_type_spec(l, params) is Some && crate::text::parse_i128_spec(r) is Some ==> o.variable@ == l && o.constant
        == crate::text::parse_i128_spec(r) && crate::discharge::opt_view(o.ty) == param_type_spec(l, params))
}

/// What an addition obligation's text tells: a parenthesised operand (the
/// text starts with `(` or ends with `)`), or two simple operands with the
/// fields they give.
pub open spec fn add_shape(o: AddObligation, params: Seq<Param>) -> bool {
    ||| o.expression@.len() > 0 && (o.expression@[0] == '(' || o.expression@.last() == ')')
    ||| exists|l: Seq<char>, r: Seq<char>| #[trigger] add_text_fields(o, l, r, params)
}

proof fn lemma_add_text_push(r: Seq<AddObligation>, x: AddObligation)
    ensures
        forall|e: Seq<char>| add_text_recorded(r, e) ==> #[trigger] add_text_recorded(r.push(x), e),
        add_text_recorded(r.push(x), x.expression@),
{
    assert forall|e: Seq<char>| add_text_recorded(r, e) implies #[trigger] add_text_recorded(r.push(x), e) by {
        let k = choose|k: int| 0 <= k < r.len() && (#[trigger] r[k]).expression@ == e;
        assert(r.push(x)[k] == r[k]);
    }
    assert(r.push(x)[r.len() as int] == x);
}

/// A simple operand has no space and no parenthesis; it starts with a
/// letter, `_`, a digit or a sign, and ends with a word character.
proof fn lemma_operand_chars(s: Seq<char>)
    requires
        crate::tokens::value_operand_spec(s),
    ensures
        s.len() > 0,
        forall|k: int| 0 <= k < s.len() ==> #[trigger] s[k] != ' ' && s[k] != '(' && s[k] != ')',
{
    if crate::tokens::ident_spec(s) {
        assert forall|k: int| 0 <= k < s.len() implies #[trigger] s[k] != ' ' && s[k] != '(' && s[k] != ')' by {
            assert(crate::text::is_word_char(s[k]));
        }
    } else {
        assert(crate::text::int_text_value(s) is Some);
        if s.len() > 0 && (s[0] == '+' || s[0] == '-') {
            let d = s.skip(1);
            assert forall|k: int| 0 <= k < s.len() implies #[trigger] s[k] != ' ' && s[k] != '(' && s[k] != ')' by {
                if k > 0 {
                    assert(d[k - 1] == s[k]);
                    assert(crate::text::is_ascii_digit(d[k - 1]));
                }
            }
        } else {
            assert forall|k: int| 0 <= k < s.len() implies #[trigger] s[k] != ' ' && s[k] != '(' && s[k] != ')' by {
                assert(crate::text::is_ascii_digit(s[k]));
            }
        }
    }
}

/// `l + " + " + r` splits one way only when `l` holds no space.
proof fn lemma_add_text_split(l: Seq<char>, r: Seq<char>, p: Seq<char>, c: Seq<char>)
    requires
        forall|k: int| 0 <= k < l.len() ==> #[trigger] l[k] != ' ',
        forall|k: int| 0 <= k < p.len() ==> #[trigger] p[k] != ' ',
        l + " + "@ + r == p + " + "@ + c,
    ensures
        l == p,
        r == c,
{
    reveal_strlit(" + ");
    let x = l + " + "@ + r;
    if l.len() < p.len() {
        assert(x[l.len() as int] == ' ');
        assert(x[l.len() as int] == p[l.len() as int]);
    } else if p.len() < l.len() {
        assert(x[p.len() as int] == ' ');
        assert(x[p.len() as int] == l[p.len() as int]);
    }
    assert(l =~= x.subrange(0, l.len() as int));
    assert(p =~= x.subrange(0, p.len() as int));
    assert(r =~= x.skip(l.len() as int + 3));
    assert(c =~= x.skip(p.len() as int + 3));
}

/// An obligation of that shape whose text is `p + c`, for an integer
/// parameter `p` and a literal `c`, checks `p` with constant `c` at the
/// parameter's type.
pub proof fn lemma_add_shape_site(o: AddObligation, params: Seq<Param>, p: Seq<char>, c: Seq<char>)
    requires
        add_shape(o, params),
        crate::tokens::ident_spec(p),
        param_type_spec(p, params) is Some,
        crate::text::parse_i128_spec(c) is Some,
        o.expression@ == p + " + "@ + c,
    ensures
        o.variable@ == p,
        o.constant == crate::text::parse_i128_spec(c),
        crate::discharge::opt_view(o.ty) == param_type_spec(p, params),
{
    reveal_strlit(" + ");
    lemma_operand_chars(p);
    lemma_operand_chars(c);
    let e = o.expression@;
    assert(e[0] == p[0]);
    assert(e.last() == c.last());
    if exists|l: Seq<char>, r: Seq<char>| #[trigger] add_text_fields(o, l, r, params) {
        let (l, r) = choose|l: Seq<char>, r: Seq<char>| #[trigger] add_text_fields(o, l, r, params);
        lemma_operand_chars(l);
        lemma_add_text_split(l, r, p, c);
    } else {
        assert(e[0] != '(');
        assert(c[c.len() - 1] != ')');
    }
}

/// The shape depends only on what the obligation's view holds.
pub proof fn lemma_add_shape_view(a: AddObligation, b: AddObligation, params: Seq<Param>)
    requires
        add_shape(a, params),
        crate::obligations::add_view(a) == crate::obligations::add_view(b),
    ensures
        add_shape(b, params),
{
    assert(a.constant == b.constant) by {
        match a.constant {
            Some(x) => { assert(b.constant is Some); }
            None => {}
        }
    }
    if exists|l: Seq<char>, r: Seq<char>| #[trigger] add_text_fields(a, l, r, params) {
        let (l, r) = choose|l: Seq<char>, r: Seq<char>| #[trigger] add_text_fields(a, l, r, params);
        assert(add_text_fields(b, l, r, params));
    }
}

/// A parenthesised operation's text starts with `(` or ends with `)`.
proof fn lemma_complex_shape(t: Seq<Seq<char>>, op_idx: int)
    ensures
        complex_binary_spec(t, op_idx) matches Some(x) ==> x.len() > 0 && (x[0] == '(' || x.last() == ')'),
{
    reveal_strlit(")");
    if let Some(x) = complex_binary_spec(t, op_idx) {
        if op_idx + 1 < t.len() && t[op_idx + 1] == seq!['('] && !crate::tokens::value_operand_spec(
            paren_group_text(t, op_idx + 1)->0) {
            let a = t[op_idx - 1] + " "@ + t[op_idx] + " ("@ + paren_group_text(t, op_idx + 1)->0;
            assert(x == a + ")"@);
            assert(x.last() == ')');
        } else {
            assert(x[0] == '(');
        }
    }
}

proof fn lemma_literal_not_group(s: Seq<char>)
    requires
        crate::text::parse_i128_spec(s) is Some,
    ensures
        s != seq!['('],
        s != seq![')'],
{
    if s == seq!['('] || s == seq![')'] {
        assert(!crate::text::is_ascii_digit(s[0]));
    }
}

proof fn lemma_ident_not_group(s: Seq<char>)
    requires
        ident_spec(s),
    ensures
        s != seq![')'],
        s != seq!['('],
{
    if s == seq![')'] || s == seq!['('] {
        assert(!crate::text::is_word_char(s[0]));
    }
}

/// Additions `a + b` in one segment's tokens that need a proof.
pub fn addition_obligations_from_tokens(t: &[Vec<char>], params: &[Param], assumptions: &Vec<Vec<char>>) -> (r: Vec<AddObligation>)
    ensures
        forall|k: int| 0 <= k < r@.len() ==> views((#[trigger] r@[k]).assumptions@) == views(assumptions@),
        forall|idx: int| #[trigger] param_op_literal_at(views(t@), params@, "+"@, idx) ==> add_recorded(r@, t@[idx]@,
            crate::text::parse_i128_spec(t@[idx + 2]@)->0, param_type_spec(t@[idx]@, params@)->0),
        r@.len() > 0 ==> crate::tokens::has_token(views(t@), "+"@),
        forall|k: int| 0 <= k < r@.len() ==> add_shape(#[trigger] r@[k], params@),
        forall|idx: int| #[trigger] param_op_literal_at(views(t@), params@, "+"@, idx) ==> add_text_recorded(r@, t@[idx]@ + " + "@
            + t@[idx + 2]@),
        forall|k: int| 0 <= k < r@.len() ==> plus_site_text(views(t@), (#[trigger] r@[k]).expression@),
{
    let ghost tv = views(t@);
    let mut obligations: Vec<AddObligation> = Vec::new();
    if t.len() < 3 {
        return obligations;
    }
    let mut idx: usize = 0;
    while idx < t.len() - 2
        invariant
            t@.len() >= 3,
            tv == views(t@),
            idx <= t@.len() - 2,
            forall|k: int| 0 <= k < obligations@.len() ==> views((#[trigger] obligations@[k]).assumptions@) == views(assumptions@),
            forall|j: int| 0 <= j < idx && #[trigger] param_op_literal_at(tv, params@, "+"@, j) ==> add_recorded(obligations@, t@[j]@,
                crate::text::parse_i128_spec(t@[j + 2]@)->0, param_type_spec(t@[j]@, params@)->0),
            obligations@.len() > 0 ==> crate::tokens::has_token(tv, "+"@),
            forall|k: int| 0 <= k < obligations@.len() ==> add_shape(#[trigger] obligations@[k], params@),
            forall|j: int| 0 <= j < idx && #[trigger] param_op_literal_at(tv, params@, "+"@, j) ==> add_text_recorded(obligations@,
                tv[j] + " + "@ + tv[j + 2]),
            forall|k: int| 0 <= k < obligations@.len() ==> plus_site_text(tv, (#[trigger] obligations@[k]).expression@),
        decreases t.len() - 2 - idx,
    {
        let left = &t[idx];
        let op = &t[idx + 1];
        let right = &t[idx + 2];
        proof {
            if param_op_literal_at(tv, params@, "+"@, idx as int) {
                lemma_literal_not_group(tv[idx + 2]);
                lemma_ident_not_group(tv[idx as int]);
            }
        }
        let found: Option<AddObligation> = if !is_lit(op, "+") {
            None
        } else if let Some(expression) = complex_binary_expression(t, idx + 1) {
            proof {
                lemma_complex_shape(tv, idx + 1);
            }
            Some(AddObligation {
                variable: copy(left),
                ty: either_type(left, right, params),
                constant: None,
                expression,
                assumptions: clone_texts(assumptions),
            })
        } else if !is_value_operand(left) || !is_value_operand(right) {
            None
        } else {
            let expression = join3(left, " + ", right);
            if let (Some(ty), Some(c)) = (param_type(left, params), parse_i128(right)) {
                let ob = AddObligation {
                    variable: copy(left),
                    ty: Some(ty),
                    constant: Some(c),
                    expression,
                    assumptions: clone_texts(assumptions),
                };
                assert(add_text_fields(ob, left@, right@, params@));
                Some(ob)
            } else if let (Some(c), Some(ty)) = (parse_i128(left), param_type(right, params)) {
                let ob = AddObligation {
                    variable: copy(right),
                    ty: Some(ty),
                    constant: Some(c),
                    expression,
                    assumptions: clone_texts(assumptions),
                };
                assert(add_text_fields(ob, left@, right@, params@));
                Some(ob)
            } else if expression_needs_integer_proof(left, right, params) {
                let ob = AddObligation {
                    variable: copy(left),
                    ty: either_type(left, right, params),
                    constant: None,
                    expression,
                    assumptions: clone_texts(assumptions),
                };
                assert(add_text_fields(ob, left@, right@, params@));
                Some(ob)
            } else {
                None
            }
        };
        if let Some(ob) = found {
            let ghost before = obligations@;
            obligations.push(ob);
            proof {
                lemma_add_recorded_push(before, ob);
                lemma_add_text_push(before, ob);
                assert(tv[idx + 1] == op@);
                assert forall|k: int| 0 <= k < obligations@.len() implies add_shape(#[trigger] obligations@[k], params@) by {
                    if k < before.len() {
                        assert(obligations@[k] == before[k]);
                    }
                }
                assert(plus_site_at(tv, ob.expression@, idx as int));
                assert forall|k: int| 0 <= k < obligations@.len() implies plus_site_text(tv,
                    (#[trigger] obligations@[k]).expression@) by {
                    if k < before.len() {
                        assert(obligations@[k] == before[k]);
                    } else {
                        assert(plus_site_at(tv, obligations@[k].expression@, idx as int));
                    }
                }
            }
        }
        proof {
            if param_op_literal_at(tv, params@, "+"@, idx as int) {
                assert(tv[idx as int] == left@ && tv[idx + 2] == right@);
                assert(found matches Some(ob) && ob.expression@ == tv[idx as int] + " + "@ + tv[idx + 2]);
            }
        }
        idx += 1;
    }
    obligations
}

proof fn lemma_add_recorded_push(r: Seq<AddObligation>, x: AddObligation)
    ensures
        forall|v: Seq<char>, c: i128, ty: Seq<char>| add_recorded(r, v, c, ty) ==> #[trigger] add_recorded(r.push(x), v, c, ty),
        add_recorded(r.push(x), x.variable@, x.constant->0, x.ty->0@) || !(x.constant is Some && x.ty is Some),
{
    assert forall|v: Seq<char>, c: i128, ty: Seq<char>| add_recorded(r, v, c, ty) implies #[trigger] add_recorded(r.push(x), v, c, ty) by {
        let k = choose|k: int| 0 <= k < r.len() && (#[trigger] r[k]).variable@ == v && r[k].constant == Some(c) && (r[k].ty matches Some(y) && y@ == ty);
        assert(r.push(x)[k] == r[k]);
    }
    if x.constant is Some && x.ty is Some {
        assert(r.push(x)[r.len() as int] == x);
    }
}

/// Some obligation checks `v` (or the field read ending at it) with
/// constant `c` at type `ty`.
pub open spec fn sub_recorded(r: Seq<SubObligation>, v: Seq<char>, c: i128, ty: Seq<char>) -> bool {
    exists|k: int| 0 <= k < r.len() && crate::text::ends_with_spec((#[trigger] r[k]).variable@, v) && r[k].constant == Some(c) && (r[k].ty matches Some(x) && x@ == ty)
}

proof fn lemma_sub_recorded_push(r: Seq<SubObligation>, x: SubObligation)
    ensures
        forall|v: Seq<char>, c: i128, ty: Seq<char>| sub_recorded(r, v, c, ty) ==> #[trigger] sub_recorded(r.push(x), v, c, ty),
{
    assert forall|v: Seq<char>, c: i128, ty: Seq<char>| sub_recorded(r, v, c, ty) implies #[trigger] sub_recorded(r.push(x), v, c, ty) by {
        let k = choose|k: int| 0 <= k < r.len() && crate::text::ends_with_spec((#[trigger] r[k]).variable@, v) && r[k].constant == Some(c) && (r[k].ty matches Some(y) && y@ == ty);
        assert(r.push(x)[k] == r[k]);
    }
}

/// Subtractions `a - b` in one segment's tokens that need a proof; every
/// `x - c` with `x` an integer parameter and `c` a positive literal is
/// among them (as `x` or as the field read `base.x`).
pub fn subtraction_obligations_from_tokens(t: &[Vec<char>], params: &[Param], assumptions: &Vec<Vec<char>>) -> (r: Vec<SubObligation>)
    ensures
        forall|k: int| 0 <= k < r@.len() ==> views((#[trigger] r@[k]).assumptions@) == views(assumptions@),
        forall|idx: int| #[trigger] param_op_literal_at(views(t@), params@, "-"@, idx) && crate::text::parse_i128_spec(t@[idx + 2]@)->0 > 0
            ==> sub_recorded(r@, t@[idx]@, crate::text::parse_i128_spec(t@[idx + 2]@)->0, param_type_spec(t@[idx]@, params@)->0),
        r@.len() > 0 ==> crate::tokens::has_token(views(t@), "-"@),
        forall|k: int| 0 <= k < r@.len() ==> sub_shape(#[trigger] r@[k], params@),
        forall|idx: int| #[trigger] sub_site_at(views(t@), params@, idx) ==> sub_text_recorded(r@, t@[idx]@ + " - "@ + t@[idx
            + 2]@),
{
    let ghost tv = views(t@);
    let mut obligations: Vec<SubObligation> = Vec::new();
    if t.len() < 3 {
        return obligations;
    }
    let mut idx: usize = 0;
    while idx < t.len() - 2
        invariant
            t@.len() >= 3,
            tv == views(t@),
            idx <= t@.len() - 2,
            forall|k: int| 0 <= k < obligations@.len() ==> views((#[trigger] obligations@[k]).assumptions@) == views(assumptions@),
            forall|j: int| 0 <= j < idx && #[trigger] param_op_literal_at(tv, params@, "-"@, j) && crate::text::parse_i128_spec(t@[j + 2]@)->0 > 0
                ==> sub_recorded(obligations@, t@[j]@, crate::text::parse_i128_spec(t@[j + 2]@)->0, param_type_spec(t@[j]@, params@)->0),
            obligations@.len() > 0 ==> crate::tokens::has_token(tv, "-"@),
            forall|k: int| 0 <= k < obligations@.len() ==> sub_shape(#[trigger] obligations@[k], params@),
            forall|j: int| 0 <= j < idx && #[trigger] sub_site_at(tv, params@, j) ==> sub_text_recorded(obligations@, tv[j] + " - "@
                + tv[j + 2]),
        decreases t.len() - 2 - idx,
    {
        let left = &t[idx];
        let op = &t[idx + 1];
        let right = &t[idx + 2];
        proof {
            if param_op_literal_at(tv, params@, "-"@, idx as int) {
                lemma_literal_not_group(tv[idx + 2]);
                lemma_ident_not_group(tv[idx as int]);
            }
        }
        let found: Option<SubObligation> = if !is_lit(op, "-") {
            None
        } else if let Some(expression) = complex_binary_expression(t, idx + 1) {
            proof {
                lemma_complex_shape(tv, idx + 1);
            }
            Some(SubObligation {
                variable: copy(left),
                ty: param_type(left, params),
                constant: None,
                rhs: Some(copy(right)),
                expression,
                assumptions: clone_texts(assumptions),
            })
        } else if !is_value_operand(left) || !is_value_operand(right) {
            None
        } else {
            let field = field_expression_before(t, idx + 1);
            let variable = match &field {
                Some(f) => copy(f),
                None => copy(left),
            };
            proof {
                match &field {
                    Some(f) => {
                        assert(variable@ =~= t@[idx - 2]@ + "."@ + left@);
                        assert(variable@.skip(variable@.len() - left@.len()) =~= left@);
                    },
                    None => {
                        assert(variable@.skip(0) =~= left@);
                    },
                }
            }
            let expression = join3(&variable, " - ", right);
            let ghost vv = variable@;
            proof {
                lemma_operand_chars(right@);
                match &field {
                    Some(f) => {
                        lemma_field_text(t@[idx - 2]@, left@);
                    },
                    None => {
                        lemma_operand_chars(left@);
                    },
                }
            }
            if let (Some(ty), Some(c)) = (param_type(left, params), parse_i128(right)) {
                if c > 0 {
                    let ob = SubObligation {
                        variable,
                        ty: Some(ty),
                        constant: Some(c),
                        rhs: None,
                        expression,
                        assumptions: clone_texts(assumptions),
                    };
                    assert(sub_text_fields(ob, vv, right@, params@));
                    Some(ob)
                } else {
                    None
                }
            } else if expression_needs_integer_proof(left, right, params) || field.is_some() {
                let ob = SubObligation {
                    variable,
                    ty: param_type(left, params),
                    constant: None,
                    rhs: Some(copy(right)),
                    expression,
                    assumptions: clone_texts(assumptions),
                };
                assert(sub_text_fields(ob, vv, right@, params@));
                Some(ob)
            } else {
                None
            }
        };
        if let Some(ob) = found {
            let ghost before = obligations@;
            obligations.push(ob);
            proof {
                lemma_sub_recorded_push(before, ob);
                lemma_sub_text_push(before, ob);
                assert(obligations@[before.len() as int] == ob);
                assert(tv[idx + 1] == op@);
                assert forall|k: int| 0 <= k < obligations@.len() implies sub_shape(#[trigger] obligations@[k], params@) by {
                    if k < before.len() {
                        assert(obligations@[k] == before[k]);
                    }
                }
            }
        }
        proof {
            if sub_site_at(tv, params@, idx as int) {
                assert(tv[idx as int] == left@ && tv[idx + 2] == right@);
                assert(found matches Some(ob) && ob.expression@ == tv[idx as int] + " - "@ + tv[idx + 2]);
            }
        }
        idx += 1;
    }
    obligations
}

/// A subtraction `p - c` of an integer parameter and a positive literal
/// at `idx`, not the field of some other value (`a.p - c`).
pub open spec fn sub_site_at(t: Seq<Seq<char>>, params: Seq<Param>, idx: int) -> bool {
    &&& param_op_literal_at(t, params, "-"@, idx)
    &&& crate::text::parse_i128_spec(t[idx + 2])->0 > 0
    &&& !(idx >= 2 && t[idx - 1] == "."@)
}

/// Some subtraction obligation has this text.
pub open spec fn sub_text_recorded(r: Seq<SubObligation>, e: Seq<char>) -> bool {
    exists|k: int| 0 <= k < r.len() && (#[trigger] r[k]).expression@ == e
}

/// The obligation's text is `l - r` for a left side without spaces and a
/// simple right operand; when `l` is an integer parameter and `r` a
/// positive literal it checks `l` with constant `r` at the parameter's
/// type.
pub open spec fn sub_text_fields(o: SubObligation, l: Seq<char>, r: Seq<char>, params: Seq<Param>) -> bool {
    &&& l.len() > 0 && (forall|k: int| 0 <= k < l.len() ==> #[trigger] l[k] != ' ')
    &&& crate::tokens::value_operand_spec(r)
    &&& o.expression@ == l + " - "@ + r
    &&& (crate::tokens::ident_spec(l) && param_type_spec(l, params) is Some && crate::text::parse_i128_spec(r) is Some
        && crate::text::parse_i128_spec(r)->0 > 0 ==> o.variable@ == l && o.constant == crate::text::parse_i128_spec(r)
        && crate::discharge::opt_view(o.ty) == param_type_spec(l, params))
}

/// What a subtraction obligation's text tells: a parenthesised operand,
/// or a left side and a simple right operand with the fields they give.
pub open spec fn sub_shape(o: SubObligation, params: Seq<Param>) -> bool {
    ||| o.expression@.len() > 0 && (o.expression@[0] == '(' || o.expression@.last() == ')')
    ||| exists|l: Seq<char>, r: Seq<char>| #[trigger] sub_text_fields(o, l, r, params)
}

proof fn lemma_sub_text_push(r: Seq<SubObligation>, x: SubObligation)
    ensures
        forall|e: Seq<char>| sub_text_recorded(r, e) ==> #[trigger] sub_text_recorded(r.push(x), e),
        sub_text_recorded(r.push(x), x.expression@),
{
    assert forall|e: Seq<char>| sub_text_recorded(r, e) implies #[trigger] sub_text_recorded(r.push(x), e) by {
        let k = choose|k: int| 0 <= k < r.len() && (#[trigger] r[k]).expression@ == e;
        assert(r.push(x)[k] == r[k]);
    }
    assert(r.push(x)[r.len() as int] == x);
}

/// The text `a.b` of a field read holds no space and is no identifier.
proof fn lemma_field_text(a: Seq<char>, b: Seq<char>)
    requires
        crate::tokens::ident_spec(a),
        crate::tokens::ident_spec(b),
    ensures
        (a + "."@ + b).len() > 0,
        forall|k: int| 0 <= k < (a + "."@ + b).len() ==> #[trigger] (a + "."@ + b)[k] != ' ',
        !crate::tokens::ident_spec(a + "."@ + b),
{
    reveal_strlit(".");
    lemma_operand_chars(a);
    lemma_operand_chars(b);
    let x = a + "."@ + b;
    assert forall|k: int| 0 <= k < x.len() implies #[trigger] x[k] != ' ' by {
        if k < a.len() {
            assert(x[k] == a[k]);
        } else if k > a.len() {
            assert(x[k] == b[k - a.len() - 1]);
        }
    }
    assert(x[a.len() as int] == '.');
    assert(!crate::text::is_word_char(x[a.len() as int]));
}

proof fn lemma_sub_text_split(l: Seq<char>, r: Seq<char>, p: Seq<char>, c: Seq<char>)
    requires
        forall|k: int| 0 <= k < l.len() ==> #[trigger] l[k] != ' ',
        forall|k: int| 0 <= k < p.len() ==> #[trigger] p[k] != ' ',
        l + " - "@ + r == p + " - "@ + c,
    ensures
        l == p,
        r == c,
{
    reveal_strlit(" - ");
    let x = l + " - "@ + r;
    if l.len() < p.len() {
        assert(x[l.len() as int] == ' ');
        assert(x[l.len() as int] == p[l.len() as int]);
    } else if p.len() < l.len() {
        assert(x[p.len() as int] == ' ');
        assert(x[p.len() as int] == l[p.len() as int]);
    }
    assert(l =~= x.subrange(0, l.len() as int));
    assert(p =~= x.subrange(0, p.len() as int));
    assert(r =~= x.skip(l.len() as int + 3));
    assert(c =~= x.skip(p.len() as int + 3));
}

/// An obligation of that shape whose text is `p - c`, for an integer
/// parameter `p` and a positive literal `c`, checks `p` with constant `c`
/// at the parameter's type.
pub proof fn lemma_sub_shape_site(o: SubObligation, params: Seq<Param>, p: Seq<char>, c: Seq<char>)
    requires
        sub_shape(o, params),
        crate::tokens::ident_spec(p),
        param_type_spec(p, params) is Some,
        crate::text::parse_i128_spec(c) is Some,
        crate::text::parse_i128_spec(c)->0 > 0,
        o.expression@ == p + " - "@ + c,
    ensures
        o.variable@ == p,
        o.constant == crate::text::parse_i128_spec(c),
        crate::discharge::opt_view(o.ty) == param_type_spec(p, params),
{
    reveal_strlit(" - ");
    lemma_operand_chars(p);
    lemma_operand_chars(c);
    let e = o.expression@;
    assert(e[0] == p[0]);
    assert(e.last() == c.last());
    if exists|l: Seq<char>, r: Seq<char>| #[trigger] sub_text_fields(o, l, r, params) {
        let (l, r) = choose|l: Seq<char>, r: Seq<char>| #[trigger] sub_text_fields(o, l, r, params);
        lemma_sub_text_split(l, r, p, c);
    } else {
        assert(e[0] != '(');
        assert(c[c.len() - 1] != ')');
    }
}

/// The shape depends only on what the obligation's view holds.
pub proof fn lemma_sub_shape_view(a: SubObligation, b: SubObligation, params: Seq<Param>)
    requires
        sub_shape(a, params),
        crate::obligations::sub_view(a) == crate::obligations::sub_view(b),
    ensures
        sub_shape(b, params),
{
    assert(a.constant == b.constant) by {
        match a.constant {
            Some(x) => { assert(b.constant is Some); }
            None => {}
        }
    }
    if exists|l: Seq<char>, r: Seq<char>| #[trigger] sub_text_fields(a, l, r, params) {
        let (l, r) = choose|l: Seq<char>, r: Seq<char>| #[trigger] sub_text_fields(a, l, r, params);
        assert(sub_text_fields(b, l, r, params));
    }
}

/// A unary `- p` at `idx` with `p` a parameter of a signed type `ty`.
pub open spec fn negated_param_at(t: Seq<Seq<char>>, params: Seq<Param>, idx: int, ty: Seq<char>) -> bool {
    &&& 0 <= idx && idx + 1 < t.len()
    &&& t[idx] == "-"@
    &&& (idx == 0 || crate::tokens::unary_minus_before(t[idx - 1]))
    &&& param_position_from(params, t[idx + 1], 0) matches Some(k) && params[k].ty@ == ty
    &&& (ty == "i32"@ || ty == "i64"@)
}

/// The obligation's type is that of the first parameter its variable
/// names.
pub open spec fn neg_param_typed(o: NegObligation, params: Seq<Param>) -> bool {
    param_position_from(params, o.variable@, 0) matches Some(k) && 0 <= k < params.len() && params[k].ty@ == o.ty@
}

/// Some obligation checks `-v` at type `ty`.
pub open spec fn neg_recorded(r: Seq<NegObligation>, v: Seq<char>, ty: Seq<char>) -> bool {
    exists|k: int| 0 <= k < r.len() && (#[trigger] r[k]).variable@ == v && r[k].ty@ == ty && r[k].expression@ == seq!['-'] + v
}

/// Each unary minus of a signed parameter, `-p`, to be checked against the
/// parameter's minimum; every such obligation is of that form.
pub fn negation_obligations_from_tokens(t: &[Vec<char>], params: &[Param], assumptions: &Vec<Vec<char>>) -> (r: Vec<NegObligation>)
    ensures
        forall|k: int| 0 <= k < r@.len() ==> views((#[trigger] r@[k]).assumptions@) == views(assumptions@)
            && (r@[k].ty@ == "i32"@ || r@[k].ty@ == "i64"@) && r@[k].expression@ == seq!['-'] + r@[k].variable@,
        forall|idx: int, ty: Seq<char>| #[trigger] negated_param_at(views(t@), params@, idx, ty) ==> neg_recorded(r@,
            t@[idx + 1]@, ty),
        r@.len() > 0 ==> crate::tokens::has_token(views(t@), "-"@),
        forall|k: int| 0 <= k < r@.len() ==> neg_param_typed(#[trigger] r@[k], params@),
{
    let ghost tv = views(t@);
    let mut obligations: Vec<NegObligation> = Vec::new();
    let mut idx: usize = 0;
    while idx < t.len()
        invariant
            tv == views(t@),
            forall|k: int| 0 <= k < obligations@.len() ==> views((#[trigger] obligations@[k]).assumptions@) == views(
                assumptions@) && (obligations@[k].ty@ == "i32"@ || obligations@[k].ty@ == "i64"@)
                && obligations@[k].expression@ == seq!['-'] + obligations@[k].variable@,
            forall|j: int, ty: Seq<char>| 0 <= j < idx && #[trigger] negated_param_at(tv, params@, j, ty) ==> neg_recorded(
                obligations@, tv[j + 1], ty),
            obligations@.len() > 0 ==> crate::tokens::has_token(tv, "-"@),
            forall|k: int| 0 <= k < obligations@.len() ==> neg_param_typed(#[trigger] obligations@[k], params@),
        decreases t.len() - idx,
    {
        if !is_lit(&t[idx], "-") || idx + 1 >= t.len() {
            assert forall|j: int, ty: Seq<char>| 0 <= j < idx + 1 && #[trigger] negated_param_at(tv, params@, j, ty)
                implies neg_recorded(obligations@, tv[j + 1], ty) by {
                if j == idx {
                    assert(tv[j] == t@[idx as int]@);
                }
            }
            idx += 1;
            continue;
        }
        let variable = &t[idx + 1];
        let ghost before = obligations@;
        match first_param_named(params, variable) {
            Some(k) => {
                let ty = &params[k].ty;
                if is_signed_integer(ty) && looks_unary_minus(t, idx) {
                    let mut e = vec!['-'];
                    append(&mut e, variable);
                    obligations.push(NegObligation {
                        variable: copy(variable),
                        ty: copy(ty),
                        expression: e,
                        assumptions: clone_texts(assumptions),
                    });
                    assert(obligations@[before.len() as int].variable@ == tv[idx + 1]);
                    assert(tv[idx as int] == t@[idx as int]@);
                    assert forall|j: int| 0 <= j < obligations@.len() implies neg_param_typed(#[trigger] obligations@[j], params@) by {
                        if j < before.len() {
                            assert(obligations@[j] == before[j]);
                        }
                    }
                }
            },
            None => {},
        }
        assert forall|k: int| 0 <= k < obligations@.len() implies views((#[trigger] obligations@[k]).assumptions@) == views(
            assumptions@) && (obligations@[k].ty@ == "i32"@ || obligations@[k].ty@ == "i64"@)
            && obligations@[k].expression@ == seq!['-'] + obligations@[k].variable@ by {
            if k < before.len() {
                assert(obligations@[k] == before[k]);
            }
        }
        assert forall|j: int, ty: Seq<char>| 0 <= j < idx + 1 && #[trigger] negated_param_at(tv, params@, j, ty)
            implies neg_recorded(obligations@, tv[j + 1], ty) by {
            if j < idx {
                assert(neg_recorded(before, tv[j + 1], ty));
                let w = choose|w: int| 0 <= w < before.len() && (#[trigger] before[w]).variable@ == tv[j + 1] && before[w].ty@
                    == ty && before[w].expression@ == seq!['-'] + tv[j + 1];
                assert(obligations@[w] == before[w]);
            } else {
                assert(tv[idx as int] == t@[idx as int]@);
            }
        }
        idx += 1;
    }
    obligations
}

/// Position of the first parameter named `name` at or after `i`.
pub open spec fn param_position_from(params: Seq<Param>, name: Seq<char>, i: int) -> Option<int>
    decreases params.len() - i,
{
    if i < 0 || i >= params.len() {
        None
    } else if params[i].name@ == name {
        Some(i)
    } else {
        param_position_from(params, name, i + 1)
    }
}

/// Position of the first parameter with this name.
pub fn first_param_named(params: &[Param], name: &[char]) -> (r: Option<usize>)
    ensures
        r matches Some(k) ==> k < params@.len() && params@[k as int].name@ == name@,
        r matches Some(k) ==> param_position_from(params@, name@, 0) == Some(k as int),
        r is None ==> param_position_from(params@, name@, 0) is None,
{
    let mut i: usize = 0;
    while i < params.len()
        invariant
            i <= params@.len(),
            param_position_from(params@, name@, 0) == param_position_from(params@, name@, i as int),
        decreases params.len() - i,
    {
        if same(&params[i].name, name) {
            return Some(i);
        }
        i += 1;
    }
    None
}

/// Some obligation checks `v * c` at type `ty`.
pub open spec fn mul_recorded(r: Seq<MulObligation>, v: Seq<char>, c: i128, ty: Seq<char>) -> bool {
    exists|k: int| 0 <= k < r.len() && (#[trigger] r[k]).variable@ == v && r[k].constant == Some(c) && (r[k].ty matches Some(x) && x@ == ty)
}

proof fn lemma_mul_recorded_push(r: Seq<MulObligation>, x: MulObligation)
    ensures
        forall|v: Seq<char>, c: i128, ty: Seq<char>| mul_recorded(r, v, c, ty) ==> #[trigger] mul_recorded(r.push(x), v, c, ty),
{
    assert forall|v: Seq<char>, c: i128, ty: Seq<char>| mul_recorded(r, v, c, ty) implies #[trigger] mul_recorded(r.push(x), v, c, ty) by {
        let k = choose|k: int| 0 <= k < r.len() && (#[trigger] r[k]).variable@ == v && r[k].constant == Some(c) && (r[k].ty matches Some(y) && y@ == ty);
        assert(r.push(x)[k] == r[k]);
    }
}

/// A type: the left operand's parameter type, else the right's.
pub open spec fn either_type_spec(l: Seq<char>, r: Seq<char>, params: Seq<Param>) -> Option<Seq<char>> {
    match param_type_spec(l, params) {
        Some(t) => Some(t),
        None => param_type_spec(r, params),
    }
}

/// The multiplication obligation at `a * b` with `*` at `i + 1`, as
/// (variable, type, constant, text): a compound side gives one without a
/// constant; `p * c` and `c * p` with a literal `c > 1` give one with it;
/// other products of values that need checking give one without.
pub open spec fn mul_at(t: Seq<Seq<char>>, params: Seq<Param>, i: int) -> Option<(Seq<char>, Option<Seq<char>>, Option<int>, Seq<char>)> {
    let l = t[i];
    let r = t[i + 2];
    let e = l + " * "@ + r;
    if t[i + 1] != "*"@ {
        None
    } else if complex_binary_spec(t, i + 1) is Some {
        Some((l, either_type_spec(l, r, params), None, complex_binary_spec(t, i + 1)->0))
    } else if !value_operand_spec(l) || !value_operand_spec(r) {
        None
    } else if param_type_spec(l, params) is Some && crate::text::parse_i128_spec(r) is Some {
        if crate::text::parse_i128_spec(r)->0 > 1 {
            Some((l, param_type_spec(l, params), Some(crate::text::parse_i128_spec(r)->0 as int), e))
        } else {
            None
        }
    } else if crate::text::parse_i128_spec(l) is Some && param_type_spec(r, params) is Some {
        if crate::text::parse_i128_spec(l)->0 > 1 {
            Some((r, param_type_spec(r, params), Some(crate::text::parse_i128_spec(l)->0 as int), e))
        } else {
            None
        }
    } else if param_type_spec(l, params) is Some || param_type_spec(r, params) is Some || (ident_spec(l) && ident_spec(r)) {
        Some((l, either_type_spec(l, r, params), None, e))
    } else {
        None
    }
}

/// Some multiplication obligation has this text.
pub open spec fn mul_text_recorded(r: Seq<MulObligation>, e: Seq<char>) -> bool {
    exists|k: int| 0 <= k < r.len() && (#[trigger] r[k]).expression@ == e
}

/// The obligation's text is `l * r` of two simple operands, and when `l`
/// is an integer parameter and `r` a literal above `1` it checks `l` with
/// constant `r` at the parameter's type.
pub open spec fn mul_text_fields(o: MulObligation, l: Seq<char>, r: Seq<char>, params: Seq<Param>) -> bool {
    &&& crate::tokens::value_operand_spec(l) && crate::tokens::value_operand_spec(r)
    &&& o.expression@ == l + " * "@ + r
    &&& (param_type_spec(l, params) is Some && crate::text::parse_i128_spec(r) is Some && crate::text::parse_i128_spec(r)->0 > 1
        ==> o.variable@ == l
        && o.constant == crate::text::parse_i128_spec(r) && crate::discharge::opt_view(o.ty) == param_type_spec(l, params))
}

/// What a multiplication obligation's text tells: a parenthesised
/// operand, or two simple operands with the fields they give.
pub open spec fn mul_shape(o: MulObligation, params: Seq<Param>) -> bool {
    ||| o.expression@.len() > 0 && (o.expression@[0] == '(' || o.expression@.last() == ')')
    ||| exists|l: Seq<char>, r: Seq<char>| #[trigger] mul_text_fields(o, l, r, params)
}

proof fn lemma_mul_text_push(r: Seq<MulObligation>, x: MulObligation)
    ensures
        forall|e: Seq<char>| mul_text_recorded(r, e) ==> #[trigger] mul_text_recorded(r.push(x), e),
        mul_text_recorded(r.push(x), x.expression@),
{
    assert forall|e: Seq<char>| mul_text_recorded(r, e) implies #[trigger] mul_text_recorded(r.push(x), e) by {
        let k = choose|k: int| 0 <= k < r.len() && (#[trigger] r[k]).expression@ == e;
        assert(r.push(x)[k] == r[k]);
    }
    assert(r.push(x)[r.len() as int] == x);
}

/// An obligation the scan builds at `i` has the shape its text tells.
proof fn lemma_mul_at_shape(t: Seq<Seq<char>>, params: Seq<Param>, i: int, o: MulObligation)
    requires
        0 <= i && i + 2 < t.len(),
        mul_at(t, params, i) == Some(mul_obligation_view(o)),
    ensures
        mul_shape(o, params),
{
    lemma_complex_shape(t, i + 1);
    if complex_binary_spec(t, i + 1) is None {
        let l = t[i];
        let r = t[i + 2];
        assert(o.constant matches Some(c) ==> (c as int) == mul_obligation_view(o).2->0);
        assert(mul_text_fields(o, l, r, params));
    }
}

proof fn lemma_mul_text_split(l: Seq<char>, r: Seq<char>, p: Seq<char>, c: Seq<char>)
    requires
        forall|k: int| 0 <= k < l.len() ==> #[trigger] l[k] != ' ',
        forall|k: int| 0 <= k < p.len() ==> #[trigger] p[k] != ' ',
        l + " * "@ + r == p + " * "@ + c,
    ensures
        l == p,
        r == c,
{
    reveal_strlit(" * ");
    let x = l + " * "@ + r;
    if l.len() < p.len() {
        assert(x[l.len() as int] == ' ');
        assert(x[l.len() as int] == p[l.len() as int]);
    } else if p.len() < l.len() {
        assert(x[p.len() as int] == ' ');
        assert(x[p.len() as int] == l[p.len() as int]);
    }
    assert(l =~= x.subrange(0, l.len() as int));
    assert(p =~= x.subrange(0, p.len() as int));
    assert(r =~= x.skip(l.len() as int + 3));
    assert(c =~= x.skip(p.len() as int + 3));
}

/// An obligation of that shape whose text is `p * c`, for an integer
/// parameter `p` and a literal `c` above `1`, checks `p` with constant `c`
/// at the parameter's type.
pub proof fn lemma_mul_shape_site(o: MulObligation, params: Seq<Param>, p: Seq<char>, c: Seq<char>)
    requires
        mul_shape(o, params),
        crate::tokens::ident_spec(p),
        param_type_spec(p, params) is Some,
        crate::text::parse_i128_spec(c) is Some,
        crate::text::parse_i128_spec(c)->0 > 1,
        o.expression@ == p + " * "@ + c,
    ensures
        o.variable@ == p,
        o.constant == crate::text::parse_i128_spec(c),
        crate::discharge::opt_view(o.ty) == param_type_spec(p, params),
{
    reveal_strlit(" * ");
    lemma_operand_chars(p);
    lemma_operand_chars(c);
    let e = o.expression@;
    assert(e[0] == p[0]);
    assert(e.last() == c.last());
    if exists|l: Seq<char>, r: Seq<char>| #[trigger] mul_text_fields(o, l, r, params) {
        let (l, r) = choose|l: Seq<char>, r: Seq<char>| #[trigger] mul_text_fields(o, l, r, params);
        lemma_operand_chars(l);
        lemma_mul_text_split(l, r, p, c);
    } else {
        assert(e[0] != '(');
        assert(c[c.len() - 1] != ')');
    }
}

/// The shape depends only on what the obligation's view holds.
pub proof fn lemma_mul_shape_view(a: MulObligation, b: MulObligation, params: Seq<Param>)
    requires
        mul_shape(a, params),
        crate::obligations::mul_view(a) == crate::obligations::mul_view(b),
    ensures
        mul_shape(b, params),
{
    assert(a.constant == b.constant) by {
        match a.constant {
            Some(x) => { assert(b.constant is Some); }
            None => {}
        }
    }
    if exists|l: Seq<char>, r: Seq<char>| #[trigger] mul_text_fields(a, l, r, params) {
        let (l, r) = choose|l: Seq<char>, r: Seq<char>| #[trigger] mul_text_fields(a, l, r, params);
        assert(mul_text_fields(b, l, r, params));
    }
}

/// The obligations of the positions before `n`, in order.
pub open spec fn mul_sites(t: Seq<Seq<char>>, params: Seq<Param>, n: int) -> Seq<(Seq<char>, Option<Seq<char>>, Option<int>, Seq<char>)>
    decreases n,
{
    if n <= 0 {
        seq![]
    } else {
        match mul_at(t, params, n - 1) {
            Some(x) => mul_sites(t, params, n - 1).push(x),
            None => mul_sites(t, params, n - 1),
        }
    }
}

/// An obligation as (variable, type, constant, text).
pub open spec fn mul_obligation_view(o: MulObligation) -> (Seq<char>, Option<Seq<char>>, Option<int>, Seq<char>) {
    (o.variable@, crate::discharge::opt_view(o.ty), match o.constant {
        Some(c) => Some(c as int),
        None => None,
    }, o.expression@)
}

/// Multiplications `a * b` in one segment's tokens that need a proof;
/// every `x * c` with `x` an integer parameter and `c` a literal above `1`
/// is among them.
pub fn multiplication_obligations_from_tokens(t: &[Vec<char>], params: &[Param], assumptions: &Vec<Vec<char>>) -> (r: Vec<MulObligation>)
    ensures
        forall|k: int| 0 <= k < r@.len() ==> views((#[trigger] r@[k]).assumptions@) == views(assumptions@),
        forall|idx: int| #[trigger] param_op_literal_at(views(t@), params@, "*"@, idx) && crate::text::parse_i128_spec(t@[idx + 2]@)->0 > 1
            ==> mul_recorded(r@, t@[idx]@, crate::text::parse_i128_spec(t@[idx + 2]@)->0, param_type_spec(t@[idx]@, params@)->0),
        Seq::new(r@.len(), |k: int| mul_obligation_view(r@[k])) == mul_sites(views(t@), params@, t@.len() - 2),
        r@.len() > 0 ==> crate::tokens::has_token(views(t@), "*"@),
        forall|k: int| 0 <= k < r@.len() ==> mul_shape(#[trigger] r@[k], params@),
        forall|idx: int| #[trigger] param_op_literal_at(views(t@), params@, "*"@, idx) && crate::text::parse_i128_spec(t@[idx + 2]@)->0 > 1
            ==> mul_text_recorded(r@, t@[idx]@ + " * "@ + t@[idx + 2]@),
        forall|k: int| 0 <= k < r@.len() ==> star_site_text(views(t@), (#[trigger] r@[k]).expression@),
{
    let ghost tv = views(t@);
    let mut obligations: Vec<MulObligation> = Vec::new();
    if t.len() < 3 {
        assert(Seq::new(obligations@.len(), |k: int| mul_obligation_view(obligations@[k])) =~= mul_sites(tv, params@, t@.len() - 2));
        return obligations;
    }
    let mut idx: usize = 0;
    while idx < t.len() - 2
        invariant
            t@.len() >= 3,
            tv == views(t@),
            idx <= t@.len() - 2,
            forall|k: int| 0 <= k < obligations@.len() ==> views((#[trigger] obligations@[k]).assumptions@) == views(assumptions@),
            forall|j: int| 0 <= j < idx && #[trigger] param_op_literal_at(tv, params@, "*"@, j) && crate::text::parse_i128_spec(t@[j + 2]@)->0 > 1
                ==> mul_recorded(obligations@, t@[j]@, crate::text::parse_i128_spec(t@[j + 2]@)->0, param_type_spec(t@[j]@, params@)->0),
            Seq::new(obligations@.len(), |k: int| mul_obligation_view(obligations@[k])) == mul_sites(tv, params@, idx as int),
            obligations@.len() > 0 ==> crate::tokens::has_token(tv, "*"@),
            forall|k: int| 0 <= k < obligations@.len() ==> mul_shape(#[trigger] obligations@[k], params@),
            forall|j: int| 0 <= j < idx && #[trigger] param_op_literal_at(tv, params@, "*"@, j) && crate::text::parse_i128_spec(tv[j + 2])->0 > 1
                ==> mul_text_recorded(obligations@, tv[j] + " * "@ + tv[j + 2]),
            forall|k: int| 0 <= k < obligations@.len() ==> star_site_text(tv, (#[trigger] obligations@[k]).expression@),
        decreases t.len() - 2 - idx,
    {
        proof {
            reveal_strlit("*");
            reveal_strlit(" * ");
        }
        let left = &t[idx];
        let op = &t[idx + 1];
        let right = &t[idx + 2];
        proof {
            if param_op_literal_at(tv, params@, "*"@, idx as int) {
                lemma_literal_not_group(tv[idx + 2]);
                lemma_ident_not_group(tv[idx as int]);
            }
        }
        let found: Option<MulObligation> = if !is_lit(op, "*") {
            None
        } else if let Some(expression) = complex_binary_expression(t, idx + 1) {
            Some(MulObligation {
                variable: copy(left),
                ty: either_type(left, right, params),
                constant: None,
                expression,
                assumptions: clone_texts(assumptions),
            })
        } else if !is_value_operand(left) || !is_value_operand(right) {
            None
        } else {
            let expression = join3(left, " * ", right);
            if let (Some(ty), Some(c)) = (param_type(left, params), parse_i128(right)) {
                if c > 1 {
                    Some(MulObligation {
                        variable: copy(left),
                        ty: Some(ty),
                        constant: Some(c),
                        expression,
                        assumptions: clone_texts(assumptions),
                    })
                } else {
                    None
                }
            } else if let (Some(c), Some(ty)) = (parse_i128(left), param_type(right, params)) {
                if c > 1 {
                    Some(MulObligation {
                        variable: copy(right),
                        ty: Some(ty),
                        constant: Some(c),
                        expression,
                        assumptions: clone_texts(assumptions),
                    })
                } else {
                    None
                }
            } else if expression_needs_integer_proof(left, right, params) {
                Some(MulObligation {
                    variable: copy(left),
                    ty: either_type(left, right, params),
                    constant: None,
                    expression,
                    assumptions: clone_texts(assumptions),
                })
            } else {
                None
            }
        };
        assert(tv[idx as int] == left@ && tv[idx + 1] == op@ && tv[idx + 2] == right@);
        assert(match found {
            Some(ob) => mul_at(tv, params@, idx as int) == Some(mul_obligation_view(ob)),
            None => mul_at(tv, params@, idx as int) is None,
        });
        let ghost before = obligations@;
        if let Some(ob) = found {
            obligations.push(ob);
            proof {
                lemma_mul_recorded_push(before, ob);
                lemma_mul_text_push(before, ob);
                assert(obligations@[before.len() as int] == ob);
                assert(tv[idx + 1] == "*"@);
                lemma_mul_at_shape(tv, params@, idx as int, ob);
                assert forall|k: int| 0 <= k < obligations@.len() implies mul_shape(#[trigger] obligations@[k], params@) by {
                    if k < before.len() {
                        assert(obligations@[k] == before[k]);
                    }
                }
                assert(star_site_at(tv, ob.expression@, idx as int));
                assert forall|k: int| 0 <= k < obligations@.len() implies star_site_text(tv,
                    (#[trigger] obligations@[k]).expression@) by {
                    if k < before.len() {
                        assert(obligations@[k] == before[k]);
                    } else {
                        assert(star_site_at(tv, obligations@[k].expression@, idx as int));
                    }
                }
            }
        }
        proof {
            if param_op_literal_at(tv, params@, "*"@, idx as int) && crate::text::parse_i128_spec(tv[idx + 2])->0 > 1 {
                assert(found matches Some(ob) && ob.expression@ == tv[idx as int] + " * "@ + tv[idx + 2]);
            }
        }
        assert(Seq::new(obligations@.len(), |k: int| mul_obligation_view(obligations@[k])) =~= mul_sites(tv, params@, idx + 1));
        idx += 1;
    }
    obligations
}

/// Divisions (`/`) or remainders (`%`) in one segment's tokens whose
/// denominator is not a nonzero literal.
pub open spec fn denominator_recorded(r: Seq<DenominatorObligation>, d: Seq<char>) -> bool {
    exists|k: int| 0 <= k < r.len() && (#[trigger] r[k]).denominator@ == d
}

/// `a op x` at `idx` with `a` a value and `x` an integer parameter.
pub open spec fn value_op_param_at(t: Seq<Seq<char>>, params: Seq<Param>, op: Seq<char>, idx: int) -> bool {
    &&& 0 <= idx && idx + 2 < t.len()
    &&& t[idx + 1] == op
    &&& value_operand_spec(t[idx])
    &&& ident_spec(t[idx + 2])
    &&& param_type_spec(t[idx + 2], params) is Some
}

/// The obligation's text is `x op d` or `x op (d)` for its denominator `d`.
pub open spec fn den_text_of(o: DenominatorObligation, op: Seq<char>) -> bool {
    den_text_shape(o.expression@, op, o.denominator@)
}

/// `e` is `x op d` or `x op (d)` for some `x`.
pub open spec fn den_text_shape(e: Seq<char>, op: Seq<char>, d: Seq<char>) -> bool {
    exists|x: Seq<char>| e == x + " "@ + op + " "@ + d || e == x + " "@ + op + " ("@ + d + ")"@
}

/// Some obligation has the text of `a op x` at `idx`.
pub open spec fn den_site_recorded(r: Seq<DenominatorObligation>, t: Seq<Seq<char>>, op: Seq<char>, idx: int) -> bool {
    exists|k: int| 0 <= k < r.len() && (#[trigger] r[k]).expression@ == t[idx] + " "@ + op + " "@ + t[idx + 2]
}

/// Every division (or remainder) by an integer parameter of a value is
/// among the obligations, with that parameter as its denominator.
pub fn denominator_obligations_from_tokens(t: &[Vec<char>], params: &[Param], op: &str, assumptions: &Vec<Vec<char>>) -> (r: Vec<DenominatorObligation>)
    ensures
        forall|k: int| 0 <= k < r@.len() ==> views((#[trigger] r@[k]).assumptions@) == views(assumptions@),
        forall|idx: int| #[trigger] value_op_param_at(views(t@), params@, op@, idx) ==> denominator_recorded(r@, t@[idx + 2]@),
        forall|idx: int| #[trigger] value_op_param_at(views(t@), params@, op@, idx) ==> den_site_recorded(r@, views(t@), op@, idx),
        forall|k: int| 0 <= k < r@.len() ==> #[trigger] den_text_of(r@[k], op@),
        r@.len() > 0 ==> crate::tokens::has_token(views(t@), op@),
{
    let ghost tv = views(t@);
    let mut obligations: Vec<DenominatorObligation> = Vec::new();
    if t.len() < 3 {
        return obligations;
    }
    let mut idx: usize = 0;
    while idx < t.len() - 2
        invariant
            t@.len() >= 3,
            tv == views(t@),
            idx <= t@.len() - 2,
            forall|k: int| 0 <= k < obligations@.len() ==> views((#[trigger] obligations@[k]).assumptions@) == views(assumptions@),
            forall|j: int| 0 <= j < idx && #[trigger] value_op_param_at(tv, params@, op@, j) ==> denominator_recorded(obligations@, t@[j + 2]@),
            forall|j: int| 0 <= j < idx && #[trigger] value_op_param_at(tv, params@, op@, j) ==> den_site_recorded(obligations@, tv, op@, j),
            forall|k: int| 0 <= k < obligations@.len() ==> #[trigger] den_text_of(obligations@[k], op@),
            obligations@.len() > 0 ==> crate::tokens::has_token(tv, op@),
        decreases t.len() - 2 - idx,
    {
        let ghost before = obligations@;

        proof {
            if value_op_param_at(tv, params@, op@, idx as int) {
                lemma_ident_not_group(tv[idx + 2]);
                assert(crate::text::parse_i128_spec(tv[idx + 2]) is None) by {
                    assert(!crate::text::is_ascii_digit(tv[idx + 2][0]) && tv[idx + 2][0] != '-' && tv[idx + 2][0] != '+');
                }
            }
            assert forall|d: Seq<char>| denominator_recorded(before, d) implies #[trigger] denominator_recorded(before.push(arbitrary()), d) by {
                let k = choose|k: int| 0 <= k < before.len() && (#[trigger] before[k]).denominator@ == d;
                assert(before.push(arbitrary())[k] == before[k]);
            }
        }
        let left = &t[idx];
        let operator = &t[idx + 1];
        let right = &t[idx + 2];
        if !is_lit(operator, op) {
            idx += 1;
            continue;
        }
        if let Some((denominator, expression)) = complex_denominator_expression(t, idx + 1, op) {
            obligations.push(DenominatorObligation { denominator, expression, assumptions: clone_texts(assumptions) });
            proof {
                assert(tv[idx + 1] == op@);
                lemma_denominator_push(before, obligations@.last());
                assert(obligations@ == before.push(obligations@.last()));
                lemma_den_site_push(before, obligations@.last(), tv, op@);
                assert(den_text_of(obligations@.last(), op@)) by {
                    let x = t@[idx as int]@;
                    assert(obligations@.last().expression@ == x + " "@ + op@ + " ("@ + obligations@.last().denominator@ + ")"@);
                }
                assert forall|k: int| 0 <= k < obligations@.len() implies #[trigger] den_text_of(obligations@[k], op@) by {
                    if k < before.len() {
                        assert(obligations@[k] == before[k]);
                    }
                }
                assert(!value_op_param_at(tv, params@, op@, idx as int)) by {
                    if value_op_param_at(tv, params@, op@, idx as int) {
                        assert(tv[idx + 2] == t@[idx + 2]@);
                    }
                }
            }
            idx += 1;
            continue;
        }
        if !is_value_operand(left) || !is_value_operand(right) {
            idx += 1;
            continue;
        }
        let rv = parse_i128(right);
        let nonzero_literal = match rv {
            Some(v) => v != 0,
            None => false,
        };
        if nonzero_literal {
            idx += 1;
            continue;
        }
        let zero_literal = match rv {
            Some(v) => v == 0,
            None => false,
        };
        if param_type(left, params).is_some() || param_type(right, params).is_some() || zero_literal {
            let mut e = join3(left, " ", &chars_of(op));
            append_lit(&mut e, " ");
            append(&mut e, right);
            obligations.push(DenominatorObligation { denominator: copy(right), expression: e, assumptions: clone_texts(assumptions) });
            proof {
                assert(tv[idx + 1] == op@);
                lemma_denominator_push(before, obligations@.last());
                assert(obligations@ == before.push(obligations@.last()));
                lemma_den_site_push(before, obligations@.last(), tv, op@);
                assert(obligations@[before.len() as int].denominator@ == right@);
                assert(obligations@.last().expression@ == left@ + " "@ + op@ + " "@ + right@);
                assert(den_text_of(obligations@.last(), op@));
                assert forall|k: int| 0 <= k < obligations@.len() implies #[trigger] den_text_of(obligations@[k], op@) by {
                    if k < before.len() {
                        assert(obligations@[k] == before[k]);
                    }
                }
                assert(tv[idx as int] == left@ && tv[idx + 2] == right@);
                assert(den_site_recorded(obligations@, tv, op@, idx as int));
            }
        }
        idx += 1;
    }
    obligations
}

proof fn lemma_den_site_push(r: Seq<DenominatorObligation>, x: DenominatorObligation, t: Seq<Seq<char>>, op: Seq<char>)
    ensures
        forall|j: int| den_site_recorded(r, t, op, j) ==> #[trigger] den_site_recorded(r.push(x), t, op, j),
{
    assert forall|j: int| den_site_recorded(r, t, op, j) implies #[trigger] den_site_recorded(r.push(x), t, op, j) by {
        let k = choose|k: int| 0 <= k < r.len() && (#[trigger] r[k]).expression@ == t[j] + " "@ + op + " "@ + t[j + 2];
        assert(r.push(x)[k] == r[k]);
    }
}

proof fn lemma_denominator_push(r: Seq<DenominatorObligation>, x: DenominatorObligation)
    ensures
        forall|d: Seq<char>| denominator_recorded(r, d) ==> #[trigger] denominator_recorded(r.push(x), d),
{
    assert forall|d: Seq<char>| denominator_recorded(r, d) implies #[trigger] denominator_recorded(r.push(x), d) by {
        let k = choose|k: int| 0 <= k < r.len() && (#[trigger] r[k]).denominator@ == d;
        assert(r.push(x)[k] == r[k]);
    }
}

/// A signed type, `i32` or `i64`.
pub open spec fn signed_spec(t: Seq<char>) -> bool {
    t == "i32"@ || t == "i64"@
}

/// The signed type a `left / right` (or `%`) must be checked at for
/// `MIN / -1`: the left operand's parameter type, else the right's, else
/// the compiler's, each when signed; `None` when there is none, or when a
/// constant operand rules the overflow out.
pub open spec fn div_overflow_type(left: Seq<char>, right: Seq<char>, params: Seq<Param>, op_ty: Option<Seq<char>>, w: Option<u32>) -> Option<Seq<char>> {
    let op_t = match op_ty {
        Some(t) => if int_type_spec(t) && signed_spec(t) {
            Some(t)
        } else {
            None
        },
        None => None,
    };
    let ty = if param_type_spec(left, params) is Some && signed_spec(param_type_spec(left, params)->0) {
        param_type_spec(left, params)
    } else if param_type_spec(right, params) is Some && signed_spec(param_type_spec(right, params)->0) {
        param_type_spec(right, params)
    } else {
        op_t
    };
    match ty {
        None => None,
        Some(t) => match min_spec(t) {
            None => None,
            Some(m) => if (int_constant_spec(left, Some(t), w) matches Some(v) && v != m) || (int_constant_spec(right, Some(t), w)
                matches Some(v) && v != -1) {
                None
            } else {
                Some(t)
            },
        },
    }
}

/// The overflow obligation of a signed `left / right` (or `%`): needed
/// unless a constant operand rules out `MIN / -1`.
pub fn signed_division_overflow_obligation(
    left: &[char],
    right: &[char],
    expression: &[char],
    params: &[Param],
    operation_ty: &Option<Vec<char>>,
    w: Option<u32>,
) -> (r: Option<DivOverflowObligation>)
    ensures
        r is Some == div_overflow_type(left@, right@, params@, crate::discharge::opt_view(*operation_ty), w) is Some,
        r matches Some(ob) ==> div_overflow_type(left@, right@, params@, crate::discharge::opt_view(*operation_ty), w) == Some(ob.ty@),
        r matches Some(ob) ==> ob.left@ == left@ && ob.right@ == right@ && ob.expression@ == expression@ && (ob.ty@
            == "i32"@ || ob.ty@ == "i64"@) && ob.assumptions@.len() == 0,
{
    let op_ty = match operation_ty {
        Some(t) => if is_supported_integer(t) && is_signed_integer(t) { Some(copy(t)) } else { None },
        None => None,
    };
    let lt = match param_type(left, params) {
        Some(t) => if is_signed_integer(&t) { Some(t) } else { None },
        None => None,
    };
    let ty = match lt {
        Some(t) => t,
        None => match param_type(right, params) {
            Some(t) => if is_signed_integer(&t) {
                t
            } else {
                match op_ty {
                    Some(o) => o,
                    None => return None,
                }
            },
            None => match op_ty {
                Some(o) => o,
                None => return None,
            },
        },
    };
    let min = match min_value(&ty) {
        Some(m) => m,
        None => return None,
    };
    let tyo = Some(copy(&ty));
    if let Some(v) = integer_constant_value(left, &tyo, w) {
        if v != min {
            return None;
        }
    }
    if let Some(v) = integer_constant_value(right, &tyo, w) {
        if v != -1 {
            return None;
        }
    }
    Some(DivOverflowObligation {
        left: copy(left),
        right: copy(right),
        ty,
        expression: copy(expression),
        assumptions: Vec::new(),
    })
}

/// `l op r` at `i` of two simple operands whose division can overflow.
pub open spec fn div_overflow_site(t: Seq<Seq<char>>, params: Seq<Param>, op: Seq<char>, w: Option<u32>, i: int) -> bool {
    &&& 1 <= i < t.len() - 1
    &&& t[i] == op
    &&& operand_before_view(t, i) is Some
    &&& operand_after_view(t, i + 1) is Some
    &&& div_overflow_type(operand_before_view(t, i)->0, operand_after_view(t, i + 1)->0, params, None, w) is Some
}

/// Some obligation is for `l op r` with these operands and this text.
pub open spec fn div_overflow_recorded(r: Seq<DivOverflowObligation>, l: Seq<char>, rt: Seq<char>, e: Seq<char>) -> bool {
    exists|k: int| 0 <= k < r.len() && (#[trigger] r[k]).left@ == l && r[k].right@ == rt && r[k].expression@ == e
}

/// The obligation recorded for the site at `i`.
pub open spec fn div_site_recorded(r: Seq<DivOverflowObligation>, t: Seq<Seq<char>>, op: Seq<char>, i: int) -> bool {
    div_overflow_recorded(r, operand_before_view(t, i)->0, operand_after_view(t, i + 1)->0, operand_before_view(t, i)->0
        + " "@ + op + " "@ + operand_after_view(t, i + 1)->0)
}

proof fn lemma_div_recorded_grow(a: Seq<DivOverflowObligation>, b: Seq<DivOverflowObligation>)
    ensures
        forall|l: Seq<char>, rt: Seq<char>, e: Seq<char>| #[trigger] div_overflow_recorded(a, l, rt, e) ==> div_overflow_recorded(
            a + b, l, rt, e),
{
    assert forall|l: Seq<char>, rt: Seq<char>, e: Seq<char>| #[trigger] div_overflow_recorded(a, l, rt, e) implies div_overflow_recorded(
        a + b, l, rt, e) by {
        let k = choose|k: int| 0 <= k < a.len() && (#[trigger] a[k]).left@ == l && a[k].right@ == rt && a[k].expression@ == e;
        assert((a + b)[k] == a[k]);
    }
}

/// The text of the division (or remainder) at `i`.
pub open spec fn div_site_text(t: Seq<Seq<char>>, op: Seq<char>, i: int) -> Seq<char> {
    operand_before_view(t, i)->0 + " "@ + op + " "@ + operand_after_view(t, i + 1)->0
}

/// The obligation's text is its operands around the operator.
pub open spec fn division_text_of(o: DivOverflowObligation, op: Seq<char>) -> bool {
    o.expression@ == o.left@ + " "@ + op + " "@ + o.right@
}

/// Signed division (`/`) or remainder (`%`) overflow obligations in one
/// segment's tokens.
pub fn signed_division_overflow_obligations_from_tokens(
    t: &[Vec<char>],
    params: &[Param],
    op: &str,
    w: Option<u32>,
    assumptions: &Vec<Vec<char>>,
) -> (r: Vec<DivOverflowObligation>)
    ensures
        forall|k: int| 0 <= k < r@.len() ==> views((#[trigger] r@[k]).assumptions@) == views(assumptions@) && (r@[k].ty@ == "i32"@ || r@[k].ty@ == "i64"@),
        forall|i: int| #[trigger] div_overflow_site(views(t@), params@, op@, w, i) ==> div_site_recorded(r@, views(t@), op@, i),
        forall|k: int| 0 <= k < r@.len() ==> #[trigger] division_text_of(r@[k], op@),
        r@.len() > 0 ==> crate::tokens::has_token(views(t@), op@),
{
    let ghost tv = views(t@);
    let mut obligations: Vec<DivOverflowObligation> = Vec::new();
    if t.len() < 2 {
        return obligations;
    }
    let mut op_idx: usize = 1;
    while op_idx < t.len() - 1
        invariant
            t@.len() >= 2,
            1 <= op_idx <= t@.len() - 1,
            tv == views(t@),
            forall|k: int| 0 <= k < obligations@.len() ==> views((#[trigger] obligations@[k]).assumptions@) == views(assumptions@) && (obligations@[k].ty@ == "i32"@ || obligations@[k].ty@ == "i64"@),
            forall|i: int| i < op_idx && #[trigger] div_overflow_site(tv, params@, op@, w, i) ==> div_site_recorded(
                obligations@, tv, op@, i),
            forall|k: int| 0 <= k < obligations@.len() ==> #[trigger] division_text_of(obligations@[k], op@),
            obligations@.len() > 0 ==> crate::tokens::has_token(tv, op@),
        decreases t.len() - 1 - op_idx,
    {
        if !is_lit(&t[op_idx], op) {
            op_idx += 1;
            continue;
        }
        let left = match simple_signed_value_operand_before(t, op_idx) {
            Some((l, _)) => l,
            None => {
                op_idx += 1;
                continue;
            },
        };
        let right = match simple_signed_value_operand_after(t, op_idx + 1) {
            Some((r, _)) => r,
            None => {
                op_idx += 1;
                continue;
            },
        };
        let mut expression = join3(&left, " ", &chars_of(op));
        append_lit(&mut expression, " ");
        append(&mut expression, &right);
        assert(expression@ =~= left@ + " "@ + op@ + " "@ + right@);
        let ghost before = obligations@;
        if let Some(mut ob) = signed_division_overflow_obligation(&left, &right, &expression, params, &None, w) {
            ob.assumptions = clone_texts(assumptions);
            obligations.push(ob);
            proof {
                lemma_div_recorded_grow(before, seq![ob]);
                assert(obligations@ == before + seq![ob]);
                assert(tv[op_idx as int] == op@);
                assert(obligations@[before.len() as int] == ob);
                assert(div_overflow_recorded(obligations@, left@, right@, expression@));
                assert forall|k: int| 0 <= k < obligations@.len() implies #[trigger] division_text_of(obligations@[k], op@) by {
                    if k < before.len() {
                        assert(obligations@[k] == before[k]);
                    }
                }
            }
        }
        op_idx += 1;
    }
    obligations
}

// ----- collected over a body -----

/// The addition obligations of each executable segment; in a straight-line
/// body, every `p + c` of a parameter and a literal is among them.
pub fn addition_obligations(body: &[char], params: &[Param]) -> (r: Vec<AddObligation>)
    ensures
        straight_line(body@) ==> forall|idx: int| #[trigger] param_op_literal_at(executable_view(body@), params@, "+"@, idx) ==> add_recorded(r@, executable_view(body@)[idx],
            crate::text::parse_i128_spec(executable_view(body@)[idx + 2])->0, param_type_spec(executable_view(body@)[idx], params@)->0),
        straight_line(body@) && r@.len() > 0 ==> crate::tokens::has_token(executable_view(body@), "+"@),
        forall|k: int| 0 <= k < r@.len() ==> add_shape(#[trigger] r@[k], params@),
        straight_line(body@) ==> forall|idx: int| #[trigger] param_op_literal_at(executable_view(body@), params@, "+"@, idx)
            ==> add_text_recorded(r@, executable_view(body@)[idx] + " + "@ + executable_view(body@)[idx + 2]),
        straight_line(body@) ==> forall|k: int| 0 <= k < r@.len() ==> (#[trigger] r@[k]).assumptions@.len() == 0,
        straight_line(body@) ==> forall|k: int| 0 <= k < r@.len() ==> plus_site_text(executable_view(body@),
            (#[trigger] r@[k]).expression@),
{
    let segments = executable_token_segments(body);
    let ghost ev = executable_view(body@);
    let mut out: Vec<AddObligation> = Vec::new();
    let mut i: usize = 0;
    while i < segments.len()
        invariant
            i <= segments@.len(),
            ev == executable_view(body@),
            straight_line(body@) ==> segments@.len() == (if ev.len() > 0 { 1int } else { 0int }),
            straight_line(body@) && segments@.len() > 0 ==> views(segments@[0].tokens@) == ev,
            straight_line(body@) && i == 0 ==> out@.len() == 0,
            straight_line(body@) && out@.len() > 0 ==> crate::tokens::has_token(ev, "+"@),
            forall|k: int| 0 <= k < out@.len() ==> add_shape(#[trigger] out@[k], params@),
            straight_line(body@) && i > 0 ==> forall|idx: int| #[trigger] param_op_literal_at(ev, params@, "+"@, idx)
                ==> add_text_recorded(out@, ev[idx] + " + "@ + ev[idx + 2]),
            straight_line(body@) ==> forall|k: int| 0 <= k < out@.len() ==> (#[trigger] out@[k]).assumptions@.len() == 0,
            straight_line(body@) && segments@.len() > 0 ==> segments@[0].assumptions@.len() == 0,
            straight_line(body@) && i > 0 ==> forall|idx: int| #[trigger] param_op_literal_at(ev, params@, "+"@, idx) ==> add_recorded(out@, ev[idx],
            crate::text::parse_i128_spec(ev[idx + 2])->0, param_type_spec(ev[idx], params@)->0),
            straight_line(body@) ==> forall|k: int| 0 <= k < out@.len() ==> plus_site_text(ev, (#[trigger] out@[k]).expression@),
        decreases segments.len() - i,
    {
        let mut found = addition_obligations_from_tokens(&segments[i].tokens, params, &segments[i].assumptions);
        let ghost before = out@;
        let ghost added = found@;
        out.append(&mut found);
        assert forall|k: int| 0 <= k < out@.len() implies add_shape(#[trigger] out@[k], params@) by {
            if k < before.len() {
                assert(out@[k] == before[k]);
            } else {
                assert(out@[k] == added[k - before.len()]);
            }
        }
        proof {
            if straight_line(body@) {
                assert(i == 0);
                assert(out@ =~= added);
                assert(views(segments@[0].tokens@) == ev);
                assert forall|idx: int| #[trigger] param_op_literal_at(ev, params@, "+"@, idx) implies add_recorded(out@, ev[idx],
                    crate::text::parse_i128_spec(ev[idx + 2])->0, param_type_spec(ev[idx], params@)->0) && add_text_recorded(out@,
                    ev[idx] + " + "@ + ev[idx + 2]) by {
                    assert(segments@[0].tokens@[idx]@ == ev[idx]);
                    assert(segments@[0].tokens@[idx + 2]@ == ev[idx + 2]);
                }
                assert forall|k: int| 0 <= k < out@.len() implies (#[trigger] out@[k]).assumptions@.len() == 0 by {
                    assert(out@[k] == added[k]);
                    assert(views(added[k].assumptions@) == views(segments@[0].assumptions@));
                    assert(views(out@[k].assumptions@).len() == 0);
                }
                assert forall|k: int| 0 <= k < out@.len() implies plus_site_text(ev, (#[trigger] out@[k]).expression@) by {
                    assert(out@[k] == added[k]);
                    assert(plus_site_text(views(segments@[0].tokens@), added[k].expression@));
                }
            }
        }
        i += 1;
    }
    out
}

/// The subtraction obligations of each executable segment; in a
/// straight-line body, every `p - c` of a parameter and a positive literal
/// is among them.
pub fn subtraction_obligations(body: &[char], params: &[Param]) -> (r: Vec<SubObligation>)
    ensures
        straight_line(body@) ==> forall|idx: int| #[trigger] param_op_literal_at(executable_view(body@), params@, "-"@, idx) && crate::text::parse_i128_spec(
            executable_view(body@)[idx + 2])->0 > 0 ==> sub_recorded(r@, executable_view(body@)[idx], crate::text::parse_i128_spec(executable_view(body@)[idx + 2])->0,
            param_type_spec(executable_view(body@)[idx], params@)->0),
        straight_line(body@) && r@.len() > 0 ==> crate::tokens::has_token(executable_view(body@), "-"@),
        forall|k: int| 0 <= k < r@.len() ==> sub_shape(#[trigger] r@[k], params@),
        straight_line(body@) ==> forall|idx: int| #[trigger] sub_site_at(executable_view(body@), params@, idx)
            ==> sub_text_recorded(r@, executable_view(body@)[idx] + " - "@ + executable_view(body@)[idx + 2]),
        straight_line(body@) ==> forall|k: int| 0 <= k < r@.len() ==> (#[trigger] r@[k]).assumptions@.len() == 0,
{
    let segments = executable_token_segments(body);
    let ghost ev = executable_view(body@);
    let mut out: Vec<SubObligation> = Vec::new();
    let mut i: usize = 0;
    while i < segments.len()
        invariant
            i <= segments@.len(),
            ev == executable_view(body@),
            straight_line(body@) ==> segments@.len() == (if ev.len() > 0 { 1int } else { 0int }),
            straight_line(body@) && segments@.len() > 0 ==> views(segments@[0].tokens@) == ev,
            straight_line(body@) && i == 0 ==> out@.len() == 0,
            straight_line(body@) && out@.len() > 0 ==> crate::tokens::has_token(ev, "-"@),
            straight_line(body@) && i > 0 ==> forall|idx: int| #[trigger] param_op_literal_at(ev, params@, "-"@, idx) && crate::text::parse_i128_spec(
            ev[idx + 2])->0 > 0 ==> sub_recorded(out@, ev[idx], crate::text::parse_i128_spec(ev[idx + 2])->0,
            param_type_spec(ev[idx], params@)->0),
            forall|k: int| 0 <= k < out@.len() ==> sub_shape(#[trigger] out@[k], params@),
            straight_line(body@) && i > 0 ==> forall|idx: int| #[trigger] sub_site_at(ev, params@, idx) ==> sub_text_recorded(out@,
                ev[idx] + " - "@ + ev[idx + 2]),
            straight_line(body@) ==> forall|k: int| 0 <= k < out@.len() ==> (#[trigger] out@[k]).assumptions@.len() == 0,
            straight_line(body@) && segments@.len() > 0 ==> segments@[0].assumptions@.len() == 0,
        decreases segments.len() - i,
    {
        let mut found = subtraction_obligations_from_tokens(&segments[i].tokens, params, &segments[i].assumptions);
        let ghost before = out@;
        let ghost added = found@;
        out.append(&mut found);
        assert forall|k: int| 0 <= k < out@.len() implies sub_shape(#[trigger] out@[k], params@) by {
            if k < before.len() {
                assert(out@[k] == before[k]);
            } else {
                assert(out@[k] == added[k - before.len()]);
            }
        }
        proof {
            if straight_line(body@) {
                assert(i == 0);
                assert(out@ =~= added);
                assert(views(segments@[0].tokens@) == ev);
                assert forall|idx: int| #[trigger] param_op_literal_at(ev, params@, "-"@, idx) && crate::text::parse_i128_spec(
                    ev[idx + 2])->0 > 0 implies sub_recorded(out@, ev[idx], crate::text::parse_i128_spec(ev[idx + 2])->0,
                    param_type_spec(ev[idx], params@)->0) by {
                    assert(segments@[0].tokens@[idx]@ == ev[idx]);
                    assert(segments@[0].tokens@[idx + 2]@ == ev[idx + 2]);
                }
                assert forall|idx: int| #[trigger] sub_site_at(ev, params@, idx) implies sub_text_recorded(out@, ev[idx] + " - "@
                    + ev[idx + 2]) by {
                    assert(segments@[0].tokens@[idx]@ == ev[idx]);
                    assert(segments@[0].tokens@[idx + 2]@ == ev[idx + 2]);
                    if idx >= 2 {
                        assert(segments@[0].tokens@[idx - 1]@ == ev[idx - 1]);
                    }
                    assert(sub_site_at(views(segments@[0].tokens@), params@, idx));
                }
                assert forall|k: int| 0 <= k < out@.len() implies (#[trigger] out@[k]).assumptions@.len() == 0 by {
                    assert(out@[k] == added[k]);
                    assert(views(added[k].assumptions@) == views(segments@[0].assumptions@));
                    assert(views(out@[k].assumptions@).len() == 0);
                }
            }
        }
        i += 1;
    }
    out
}

/// The negation obligations of each executable segment; in a straight-line
/// body, every unary minus of a signed parameter is among them.
pub fn negation_obligations(body: &[char], params: &[Param]) -> (r: Vec<NegObligation>)
    ensures
        forall|k: int| 0 <= k < r@.len() ==> ((#[trigger] r@[k]).ty@ == "i32"@ || r@[k].ty@ == "i64"@)
            && r@[k].expression@ == seq!['-'] + r@[k].variable@,
        straight_line(body@) ==> forall|idx: int, ty: Seq<char>| #[trigger] negated_param_at(executable_view(body@), params@,
            idx, ty) ==> neg_recorded(r@, executable_view(body@)[idx + 1], ty),
        straight_line(body@) && r@.len() > 0 ==> crate::tokens::has_token(executable_view(body@), "-"@),
        forall|k: int| 0 <= k < r@.len() ==> neg_param_typed(#[trigger] r@[k], params@),
        straight_line(body@) ==> forall|k: int| 0 <= k < r@.len() ==> (#[trigger] r@[k]).assumptions@.len() == 0,
{
    let segments = executable_token_segments(body);
    let ghost ev = executable_view(body@);
    let mut out: Vec<NegObligation> = Vec::new();
    let mut i: usize = 0;
    while i < segments.len()
        invariant
            i <= segments@.len(),
            ev == executable_view(body@),
            straight_line(body@) ==> segments@.len() == (if ev.len() > 0 { 1int } else { 0int }),
            straight_line(body@) && segments@.len() > 0 ==> views(segments@[0].tokens@) == ev,
            straight_line(body@) && i == 0 ==> out@.len() == 0,
            straight_line(body@) && out@.len() > 0 ==> crate::tokens::has_token(ev, "-"@),
            straight_line(body@) && i > 0 ==> forall|idx: int, ty: Seq<char>| #[trigger] negated_param_at(ev, params@, idx,
                ty) ==> neg_recorded(out@, ev[idx + 1], ty),
            forall|k: int| 0 <= k < out@.len() ==> ((#[trigger] out@[k]).ty@ == "i32"@ || out@[k].ty@ == "i64"@)
                && out@[k].expression@ == seq!['-'] + out@[k].variable@,
            forall|k: int| 0 <= k < out@.len() ==> neg_param_typed(#[trigger] out@[k], params@),
            straight_line(body@) ==> forall|k: int| 0 <= k < out@.len() ==> (#[trigger] out@[k]).assumptions@.len() == 0,
            straight_line(body@) && segments@.len() > 0 ==> segments@[0].assumptions@.len() == 0,
        decreases segments.len() - i,
    {
        let mut found = negation_obligations_from_tokens(&segments[i].tokens, params, &segments[i].assumptions);
        let ghost before = out@;
        let ghost added = found@;
        out.append(&mut found);
        assert forall|k: int| 0 <= k < out@.len() implies ((#[trigger] out@[k]).ty@ == "i32"@ || out@[k].ty@ == "i64"@)
            && out@[k].expression@ == seq!['-'] + out@[k].variable@ && neg_param_typed(out@[k], params@) by {
            if k < before.len() {
                assert(out@[k] == before[k]);
            } else {
                assert(out@[k] == added[k - before.len()]);
            }
        }
        proof {
            if straight_line(body@) {
                assert(i == 0);
                assert(out@ =~= added);
                assert forall|idx: int, ty: Seq<char>| #[trigger] negated_param_at(ev, params@, idx, ty) implies neg_recorded(
                    out@, ev[idx + 1], ty) by {
                    assert(segments@[0].tokens@[idx + 1]@ == ev[idx + 1]);
                    assert(negated_param_at(views(segments@[0].tokens@), params@, idx, ty));
                }
                assert forall|k: int| 0 <= k < out@.len() implies (#[trigger] out@[k]).assumptions@.len() == 0 by {
                    assert(out@[k] == added[k]);
                    assert(views(added[k].assumptions@) == views(segments@[0].assumptions@));
                    assert(views(out@[k].assumptions@).len() == 0);
                }
            }
        }
        i += 1;
    }
    out
}

/// The multiplication obligations of each executable segment; in a
/// straight-line body, every `p * c` of a parameter and a literal above 1
/// is among them.
pub fn multiplication_obligations(body: &[char], params: &[Param]) -> (r: Vec<MulObligation>)
    ensures
        straight_line(body@) ==> forall|idx: int| #[trigger] param_op_literal_at(executable_view(body@), params@, "*"@, idx) && crate::text::parse_i128_spec(
            executable_view(body@)[idx + 2])->0 > 1 ==> mul_recorded(r@, executable_view(body@)[idx], crate::text::parse_i128_spec(executable_view(body@)[idx + 2])->0,
            param_type_spec(executable_view(body@)[idx], params@)->0),
        straight_line(body@) && r@.len() > 0 ==> crate::tokens::has_token(executable_view(body@), "*"@),
        forall|k: int| 0 <= k < r@.len() ==> mul_shape(#[trigger] r@[k], params@),
        straight_line(body@) ==> forall|idx: int| #[trigger] param_op_literal_at(executable_view(body@), params@, "*"@, idx)
            && crate::text::parse_i128_spec(executable_view(body@)[idx + 2])->0 > 1 ==> mul_text_recorded(r@, executable_view(
            body@)[idx] + " * "@ + executable_view(body@)[idx + 2]),
        straight_line(body@) ==> forall|k: int| 0 <= k < r@.len() ==> (#[trigger] r@[k]).assumptions@.len() == 0,
        straight_line(body@) ==> forall|k: int| 0 <= k < r@.len() ==> star_site_text(executable_view(body@),
            (#[trigger] r@[k]).expression@),
{
    let segments = executable_token_segments(body);
    let ghost ev = executable_view(body@);
    let mut out: Vec<MulObligation> = Vec::new();
    let mut i: usize = 0;
    while i < segments.len()
        invariant
            i <= segments@.len(),
            ev == executable_view(body@),
            straight_line(body@) ==> segments@.len() == (if ev.len() > 0 { 1int } else { 0int }),
            straight_line(body@) && segments@.len() > 0 ==> views(segments@[0].tokens@) == ev,
            straight_line(body@) && i == 0 ==> out@.len() == 0,
            straight_line(body@) && out@.len() > 0 ==> crate::tokens::has_token(ev, "*"@),
            straight_line(body@) && i > 0 ==> forall|idx: int| #[trigger] param_op_literal_at(ev, params@, "*"@, idx) && crate::text::parse_i128_spec(
            ev[idx + 2])->0 > 1 ==> mul_recorded(out@, ev[idx], crate::text::parse_i128_spec(ev[idx + 2])->0,
            param_type_spec(ev[idx], params@)->0),
            forall|k: int| 0 <= k < out@.len() ==> mul_shape(#[trigger] out@[k], params@),
            straight_line(body@) && i > 0 ==> forall|idx: int| #[trigger] param_op_literal_at(ev, params@, "*"@, idx)
                && crate::text::parse_i128_spec(ev[idx + 2])->0 > 1 ==> mul_text_recorded(out@, ev[idx] + " * "@ + ev[idx + 2]),
            straight_line(body@) ==> forall|k: int| 0 <= k < out@.len() ==> (#[trigger] out@[k]).assumptions@.len() == 0,
            straight_line(body@) && segments@.len() > 0 ==> segments@[0].assumptions@.len() == 0,
            straight_line(body@) ==> forall|k: int| 0 <= k < out@.len() ==> star_site_text(ev, (#[trigger] out@[k]).expression@),
        decreases segments.len() - i,
    {
        let mut found = multiplication_obligations_from_tokens(&segments[i].tokens, params, &segments[i].assumptions);
        let ghost before = out@;
        let ghost added = found@;
        out.append(&mut found);
        assert forall|k: int| 0 <= k < out@.len() implies mul_shape(#[trigger] out@[k], params@) by {
            if k < before.len() {
                assert(out@[k] == before[k]);
            } else {
                assert(out@[k] == added[k - before.len()]);
            }
        }
        proof {
            if straight_line(body@) {
                assert(i == 0);
                assert(out@ =~= added);
                assert(views(segments@[0].tokens@) == ev);
                assert forall|idx: int| #[trigger] param_op_literal_at(ev, params@, "*"@, idx) && crate::text::parse_i128_spec(
                    ev[idx + 2])->0 > 1 implies mul_recorded(out@, ev[idx], crate::text::parse_i128_spec(ev[idx + 2])->0,
                    param_type_spec(ev[idx], params@)->0) && mul_text_recorded(out@, ev[idx] + " * "@ + ev[idx + 2]) by {
                    assert(segments@[0].tokens@[idx]@ == ev[idx]);
                    assert(segments@[0].tokens@[idx + 2]@ == ev[idx + 2]);
                }
                assert forall|k: int| 0 <= k < out@.len() implies (#[trigger] out@[k]).assumptions@.len() == 0 by {
                    assert(out@[k] == added[k]);
                    assert(views(added[k].assumptions@) == views(segments@[0].assumptions@));
                    assert(views(out@[k].assumptions@).len() == 0);
                }
                assert forall|k: int| 0 <= k < out@.len() implies star_site_text(ev, (#[trigger] out@[k]).expression@) by {
                    assert(out@[k] == added[k]);
                    assert(star_site_text(views(segments@[0].tokens@), added[k].expression@));
                }
            }
        }
        i += 1;
    }
    out
}

/// The denominators of each `op` of each executable segment; in a
/// straight-line body, every `a op p` with `p` a parameter is among them.
pub fn denominator_obligations(body: &[char], params: &[Param], op: &str) -> (r: Vec<DenominatorObligation>)
    ensures
        straight_line(body@) ==> forall|idx: int| #[trigger] value_op_param_at(executable_view(body@), params@, op@, idx) ==> denominator_recorded(r@, executable_view(body@)[idx + 2]),
        straight_line(body@) ==> forall|idx: int| #[trigger] value_op_param_at(executable_view(body@), params@, op@, idx)
            ==> den_site_recorded(r@, executable_view(body@), op@, idx),
        forall|k: int| 0 <= k < r@.len() ==> #[trigger] den_text_of(r@[k], op@),
        straight_line(body@) ==> forall|k: int| 0 <= k < r@.len() ==> (#[trigger] r@[k]).assumptions@.len() == 0,
        straight_line(body@) && r@.len() > 0 ==> crate::tokens::has_token(executable_view(body@), op@),
{
    let segments = executable_token_segments(body);
    let ghost ev = executable_view(body@);
    let mut out: Vec<DenominatorObligation> = Vec::new();
    let mut i: usize = 0;
    while i < segments.len()
        invariant
            i <= segments@.len(),
            ev == executable_view(body@),
            straight_line(body@) ==> segments@.len() == (if ev.len() > 0 { 1int } else { 0int }),
            straight_line(body@) && segments@.len() > 0 ==> views(segments@[0].tokens@) == ev,
            straight_line(body@) && i == 0 ==> out@.len() == 0,
            straight_line(body@) && out@.len() > 0 ==> crate::tokens::has_token(ev, op@),
            straight_line(body@) && i > 0 ==> forall|idx: int| #[trigger] value_op_param_at(ev, params@, op@, idx) ==> denominator_recorded(out@, ev[idx + 2]),
            straight_line(body@) && i > 0 ==> forall|idx: int| #[trigger] value_op_param_at(ev, params@, op@, idx)
                ==> den_site_recorded(out@, ev, op@, idx),
            forall|k: int| 0 <= k < out@.len() ==> #[trigger] den_text_of(out@[k], op@),
            straight_line(body@) ==> forall|k: int| 0 <= k < out@.len() ==> (#[trigger] out@[k]).assumptions@.len() == 0,
            straight_line(body@) && segments@.len() > 0 ==> segments@[0].assumptions@.len() == 0,
        decreases segments.len() - i,
    {
        let mut found = denominator_obligations_from_tokens(&segments[i].tokens, params, op, &segments[i].assumptions);
        let ghost before = out@;
        let ghost added = found@;
        out.append(&mut found);
        assert forall|k: int| 0 <= k < out@.len() implies #[trigger] den_text_of(out@[k], op@) by {
            if k < before.len() {
                assert(out@[k] == before[k]);
            } else {
                assert(out@[k] == added[k - before.len()]);
            }
        }
        proof {
            if straight_line(body@) {
                assert(i == 0);
                assert(out@ =~= added);
                assert(views(segments@[0].tokens@) == ev);
                assert forall|idx: int| #[trigger] value_op_param_at(ev, params@, op@, idx) implies denominator_recorded(out@, ev[idx + 2])
                    && den_site_recorded(out@, ev, op@, idx) by {
                    assert(segments@[0].tokens@[idx]@ == ev[idx]);
                    assert(segments@[0].tokens@[idx + 2]@ == ev[idx + 2]);
                }
                assert forall|k: int| 0 <= k < out@.len() implies (#[trigger] out@[k]).assumptions@.len() == 0 by {
                    assert(out@[k] == added[k]);
                    assert(views(added[k].assumptions@) == views(segments@[0].assumptions@));
                    assert(views(out@[k].assumptions@).len() == 0);
                }
            }
        }
        i += 1;
    }
    out
}

pub fn division_obligations(body: &[char], params: &[Param]) -> (r: Vec<DenominatorObligation>)
    ensures
        straight_line(body@) ==> forall|idx: int| #[trigger] value_op_param_at(executable_view(body@), params@, "/"@, idx)
            ==> denominator_recorded(r@, executable_view(body@)[idx + 2]),
        straight_line(body@) ==> forall|idx: int| #[trigger] value_op_param_at(executable_view(body@), params@, "/"@, idx)
            ==> den_site_recorded(r@, executable_view(body@), "/"@, idx),
        forall|k: int| 0 <= k < r@.len() ==> #[trigger] den_text_of(r@[k], "/"@),
        straight_line(body@) ==> forall|k: int| 0 <= k < r@.len() ==> (#[trigger] r@[k]).assumptions@.len() == 0,
        straight_line(body@) && r@.len() > 0 ==> crate::tokens::has_token(executable_view(body@), "/"@),
{
    denominator_obligations(body, params, "/")
}

pub fn remainder_obligations(body: &[char], params: &[Param]) -> (r: Vec<DenominatorObligation>)
    ensures
        straight_line(body@) ==> forall|idx: int| #[trigger] value_op_param_at(executable_view(body@), params@, "%"@, idx)
            ==> denominator_recorded(r@, executable_view(body@)[idx + 2]),
        straight_line(body@) ==> forall|idx: int| #[trigger] value_op_param_at(executable_view(body@), params@, "%"@, idx)
            ==> den_site_recorded(r@, executable_view(body@), "%"@, idx),
        forall|k: int| 0 <= k < r@.len() ==> #[trigger] den_text_of(r@[k], "%"@),
        straight_line(body@) ==> forall|k: int| 0 <= k < r@.len() ==> (#[trigger] r@[k]).assumptions@.len() == 0,
        straight_line(body@) && r@.len() > 0 ==> crate::tokens::has_token(executable_view(body@), "%"@),
{
    denominator_obligations(body, params, "%")
}

/// The signed division (or remainder) overflow obligations of each
/// executable segment, each at a signed type.
pub fn signed_division_overflow_obligations(body: &[char], params: &[Param], op: &str, w: Option<u32>) -> (r: Vec<DivOverflowObligation>)
    ensures
        forall|k: int| 0 <= k < r@.len() ==> ((#[trigger] r@[k]).ty@ == "i32"@ || r@[k].ty@ == "i64"@),
        straight_line(body@) ==> forall|idx: int| #[trigger] div_overflow_site(executable_view(body@), params@, op@, w, idx)
            ==> div_site_recorded(r@, executable_view(body@), op@, idx),
        forall|k: int| 0 <= k < r@.len() ==> #[trigger] division_text_of(r@[k], op@),
        straight_line(body@) ==> forall|k: int| 0 <= k < r@.len() ==> (#[trigger] r@[k]).assumptions@.len() == 0,
        straight_line(body@) && r@.len() > 0 ==> crate::tokens::has_token(executable_view(body@), op@),
{
    let segments = executable_token_segments(body);
    let ghost ev = executable_view(body@);
    let mut out: Vec<DivOverflowObligation> = Vec::new();
    let mut i: usize = 0;
    while i < segments.len()
        invariant
            i <= segments@.len(),
            ev == executable_view(body@),
            straight_line(body@) ==> segments@.len() == (if ev.len() > 0 { 1int } else { 0int }),
            straight_line(body@) && segments@.len() > 0 ==> views(segments@[0].tokens@) == ev,
            straight_line(body@) && i == 0 ==> out@.len() == 0,
            straight_line(body@) && out@.len() > 0 ==> crate::tokens::has_token(ev, op@),
            straight_line(body@) && i > 0 ==> forall|idx: int| #[trigger] div_overflow_site(ev, params@, op@, w, idx)
                ==> div_site_recorded(out@, ev, op@, idx),
            forall|k: int| 0 <= k < out@.len() ==> ((#[trigger] out@[k]).ty@ == "i32"@ || out@[k].ty@ == "i64"@),
            forall|k: int| 0 <= k < out@.len() ==> #[trigger] division_text_of(out@[k], op@),
            straight_line(body@) ==> forall|k: int| 0 <= k < out@.len() ==> (#[trigger] out@[k]).assumptions@.len() == 0,
            straight_line(body@) && segments@.len() > 0 ==> segments@[0].assumptions@.len() == 0,
        decreases segments.len() - i,
    {
        let mut found = signed_division_overflow_obligations_from_tokens(&segments[i].tokens, params, op, w, &segments[i].assumptions);
        let ghost before = out@;
        let ghost added = found@;
        out.append(&mut found);
        assert forall|k: int| 0 <= k < out@.len() implies ((#[trigger] out@[k]).ty@ == "i32"@ || out@[k].ty@ == "i64"@)
            && division_text_of(out@[k], op@) by {
            if k < before.len() {
                assert(out@[k] == before[k]);
            } else {
                assert(out@[k] == added[k - before.len()]);
            }
        }
        proof {
            if straight_line(body@) {
                assert(i == 0);
                assert(out@ =~= added);
                assert(views(segments@[0].tokens@) == ev);
                assert forall|k: int| 0 <= k < out@.len() implies (#[trigger] out@[k]).assumptions@.len() == 0 by {
                    assert(out@[k] == added[k]);
                    assert(views(added[k].assumptions@) == views(segments@[0].assumptions@));
                    assert(segments@[0].assumptions@.len() == 0);
                    assert(views(out@[k].assumptions@).len() == 0);
                }
            }
        }
        i += 1;
    }
    proof {
        if straight_line(body@) && ev.len() == 0 {
            assert forall|idx: int| #[trigger] div_overflow_site(ev, params@, op@, w, idx) implies div_site_recorded(out@, ev,
                op@, idx) by {}
        }
    }
    out
}

} // verus!
