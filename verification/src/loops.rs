//! `while` loops in total functions: each needs a `loop_spec!` with a
//! `decreases` measure, and an optional `invariant` that must hold on
//! entry and be kept by the body.

use crate::arith::{integer_constant_value, is_unsigned_integer, param_type};
use crate::discharge::z3_proves_conclusion;
use crate::segments::loop_spec_open_idx;
use crate::semantics::{SemanticArithmeticKind, SemanticArithmeticOperation, TrustFunctionSemantics, VerificationError};
use crate::solver::{Param, VerificationOptions};
use crate::text::{
    append, append_lit, chars_of, chars_of_string, clone_texts, find_spec, is_lit, parse_i128, parse_i128_spec,
    same, slice_of, split_once_lit, string_of, texts_contain, trim, trim_spec, views,
};
use crate::tokens::{has_token, negates_spec, tokens_spec, 
    equivalent_spec, canonical_condition, canonical_spec, comparison_parts, compact_parenthesized_value_tokens, condition_negates,
    conditions_equivalent, is_ident, is_value_operand, matching_token_group, negated_condition, negated_spec,
    push_unique, tok_char, tok_eq, tok_is, token_expression, token_range, tokens,
};
use vstd::prelude::*;

verus! {

/// What a verified loop lets the code after it assume.
pub struct LoopFact {
    pub condition: Vec<char>,
    pub invariants: Vec<Vec<char>>,
    pub semantic_exit_facts: Vec<Vec<char>>,
}

/// The clauses of one `loop_spec!` block.
pub struct LoopSpec {
    pub invariant: Option<Vec<char>>,
    pub decreases: Option<Vec<char>>,
}

/// The answer of a loop check: proved, not proved, or proved from the
/// tokens only where the compiler's facts should have covered it.
#[derive(Debug, Clone, Copy, PartialEq, Eq, Structural)]
pub enum LoopProof {
    Proved,
    Unproved,
    SemanticExtractionIncomplete,
}

fn copy(v: &[char]) -> (r: Vec<char>)
    ensures
        r@ == v@,
{
    let r = slice_of(v, 0, v.len());
    assert(v@.subrange(0, v@.len() as int) =~= v@);
    r
}

fn err_text(s: &[char]) -> (r: String)
    ensures
        r@ == s@,
{
    string_of(s)
}

/// `kw ( .. )` with its parentheses at `idx + 1` and `end`, holding `text`
/// written together.
pub open spec fn clause_at(t: Seq<Seq<char>>, kw: Seq<char>, idx: int, end: int, text: Seq<char>) -> bool {
    &&& 0 <= idx && idx + 1 < end < t.len()
    &&& t[idx] == kw
    &&& t[idx + 1] == "("@
    &&& t[end] == ")"@
    &&& text == crate::tokens::joined(t.subrange(idx + 2, end))
}

/// Some `kw ( .. )` clause holds `text`.
pub open spec fn has_clause(t: Seq<Seq<char>>, kw: Seq<char>, text: Seq<char>) -> bool {
    exists|idx: int, end: int| #[trigger] clause_at(t, kw, idx, end, text)
}

/// The `invariant(..)` and `decreases(..)` clauses of a `loop_spec!`
/// body; a later clause of the same kind replaces an earlier one.
/// The first clause keyword of the tokens is `kw` at `p`, with a
/// parenthesized group after it that closes.
pub open spec fn first_clause_at(t: Seq<Seq<char>>, kw: Seq<char>, p: int) -> bool {
    &&& 0 <= p && p + 2 < t.len()
    &&& t[p] == kw
    &&& t[p + 1] == seq!['(']
    &&& crate::tokens::token_group_close(t, '(', ')', p + 1, 0) is Some
    &&& forall|j: int| 0 <= j < p ==> t[j] != "invariant"@ && t[j] != "decreases"@
}

pub fn parse_loop_spec(t: &[Vec<char>]) -> (spec: LoopSpec)
    ensures
        forall|p: int| #[trigger] first_clause_at(views(t@), "invariant"@, p) ==> spec.invariant is Some,
        forall|p: int| #[trigger] first_clause_at(views(t@), "decreases"@, p) ==> spec.decreases is Some,
        !has_token(views(t@), "invariant"@) ==> spec.invariant is None,
        !has_token(views(t@), "decreases"@) ==> spec.decreases is None,
        spec.invariant matches Some(i) ==> has_clause(views(t@), "invariant"@, i@),
        spec.decreases matches Some(d) ==> has_clause(views(t@), "decreases"@, d@),
{
    proof {
        reveal_strlit("(");
        reveal_strlit(")");
        reveal_strlit("invariant");
        reveal_strlit("decreases");
        assert("invariant"@[0] != "decreases"@[0]);
    }
    let ghost tv = views(t@);
    let mut spec = LoopSpec { invariant: None, decreases: None };
    let mut idx: usize = 0;
    while idx < t.len() && t.len() - idx > 2
        invariant
            tv == views(t@),
            "("@ == seq!['('],
            ")"@ == seq![')'],
            !has_token(tv, "invariant"@) ==> spec.invariant is None,
            !has_token(tv, "decreases"@) ==> spec.decreases is None,
            spec.invariant matches Some(i) ==> has_clause(tv, "invariant"@, i@),
            spec.decreases matches Some(d) ==> has_clause(tv, "decreases"@, d@),
            "invariant"@ != "decreases"@,
            forall|p: int| #[trigger] first_clause_at(tv, "invariant"@, p) ==> idx <= p || spec.invariant is Some,
            forall|p: int| #[trigger] first_clause_at(tv, "decreases"@, p) ==> idx <= p || spec.decreases is Some,
        decreases t.len() - idx,
    {
        assert(tv[idx as int] == t@[idx as int]@);
        let is_inv = tok_is(t, idx, "invariant");
        let is_dec = tok_is(t, idx, "decreases");
        if !(is_inv || is_dec) || !tok_char(t, idx + 1, '(') {
            idx += 1;
            continue;
        }
        match matching_token_group(t, idx + 1, '(', ')') {
            Some(end) => {
                let expression = token_expression(&token_range(t, idx + 2, end));
                if is_inv {
                    assert(clause_at(tv, "invariant"@, idx as int, end as int, expression@));
                    assert(tv[idx as int] == "invariant"@);
                    assert forall|p: int| #[trigger] first_clause_at(tv, "decreases"@, p) implies p < idx || spec.decreases is Some by {
                        if p > idx {
                            assert(tv[idx as int] != "invariant"@);
                        }
                    }
                    spec.invariant = Some(expression);
                } else {
                    assert(clause_at(tv, "decreases"@, idx as int, end as int, expression@));
                    assert(tv[idx as int] == "decreases"@);
                    assert forall|p: int| #[trigger] first_clause_at(tv, "invariant"@, p) implies p < idx || spec.invariant is Some by {
                        if p > idx {
                            assert(tv[idx as int] != "decreases"@);
                        }
                    }
                    spec.decreases = Some(expression);
                }
                idx = end + 1;
            },
            None => {
                idx += 1;
            },
        }
    }
    proof {
        assert forall|p: int| #[trigger] first_clause_at(tv, "invariant"@, p) implies spec.invariant is Some by {}
        assert forall|p: int| #[trigger] first_clause_at(tv, "decreases"@, p) implies spec.decreases is Some by {}
    }
    spec
}

/// The truth of `l op r` on two integers, for an operator number of
/// `comparison_op_text`.
pub open spec fn compare_spec(l: int, op: Seq<char>, r: int) -> bool {
    if op == "=="@ {
        l == r
    } else if op == "!="@ {
        l != r
    } else if op == "<="@ {
        l <= r
    } else if op == ">="@ {
        l >= r
    } else if op == "<"@ {
        l < r
    } else if op == ">"@ {
        l > r
    } else {
        false
    }
}

/// The result of an integer comparison written with `op`; `false` for an
/// operator that is not a comparison.
pub fn compare_integer_values(left: i128, op: &[char], right: i128) -> (r: bool)
    ensures
        r == compare_spec(left as int, op@, right as int),
{
    if is_lit(op, "==") {
        left == right
    } else if is_lit(op, "!=") {
        left != right
    } else if is_lit(op, "<=") {
        left <= right
    } else if is_lit(op, ">=") {
        left >= right
    } else if is_lit(op, "<") {
        left < right
    } else if is_lit(op, ">") {
        left > right
    } else {
        false
    }
}

/// An unsigned integer parameter of this name.
pub open spec fn unsigned_param(name: Seq<char>, params: Seq<Param>) -> bool {
    crate::arith::param_type_spec(name, params) matches Some(t) && (t == "u32"@ || t == "u64"@ || t == "usize"@)
}

/// `x >= c` / `x > c` with `x` an unsigned parameter and `c <= 0`, or the
/// mirror image.
pub open spec fn unsigned_nonnegative_spec(left: Seq<char>, op: Seq<char>, right: Seq<char>, params: Seq<Param>) -> bool {
    if op == ">="@ || op == ">"@ {
        unsigned_param(left, params) && (parse_i128_spec(right) matches Some(v) && v <= 0)
    } else if op == "<="@ || op == "<"@ {
        unsigned_param(right, params) && (parse_i128_spec(left) matches Some(v) && v <= 0)
    } else {
        false
    }
}

/// `x >= c` / `x > c` with `x` an unsigned parameter and `c <= 0`, or the
/// mirror image: true of every value of `x`.
pub fn invariant_is_unsigned_nonnegative(left: &[char], op: &[char], right: &[char], params: &[Param]) -> (r: bool)
    ensures
        r == unsigned_nonnegative_spec(left@, op@, right@, params@),
        r ==> (op@ == ">="@ || op@ == ">"@ || op@ == "<="@ || op@ == "<"@),
{
    if is_lit(op, ">=") || is_lit(op, ">") {
        let unsigned = match param_type(left, params) {
            Some(t) => is_unsigned_integer(&t),
            None => false,
        };
        unsigned && match parse_i128(right) {
            Some(v) => v <= 0,
            None => false,
        }
    } else if is_lit(op, "<=") || is_lit(op, "<") {
        let unsigned = match param_type(right, params) {
            Some(t) => is_unsigned_integer(&t),
            None => false,
        };
        unsigned && match parse_i128(left) {
            Some(v) => v <= 0,
            None => false,
        }
    } else {
        false
    }
}

/// A comparison true of every value: equal sides with `==`, `<=` or
/// `>=`, two literals that compare so, or an unsigned bound by zero.
pub open spec fn trivially_true_spec(condition: Seq<char>, params: Seq<Param>) -> bool {
    match crate::tokens::split_parts(canonical_spec(condition)) {
        Some((l, k, r)) => {
            let op = crate::tokens::comparison_op_text(k);
            if l == r && (op == "=="@ || op == "<="@ || op == ">="@) {
                true
            } else {
                match (parse_i128_spec(l), parse_i128_spec(r)) {
                    (Some(a), Some(b)) => compare_spec(a as int, op, b as int),
                    _ => unsigned_nonnegative_spec(l, op, r, params),
                }
            }
        },
        None => false,
    }
}

pub fn condition_is_trivially_true(condition: &[char], params: &[Param]) -> (r: bool)
    ensures
        r == trivially_true_spec(condition@, params@),
{
    let (left, op, right) = match comparison_parts(condition) {
        Some(parts) => parts,
        None => return false,
    };
    if same(&left, &right) && (is_lit(&op, "==") || is_lit(&op, "<=") || is_lit(&op, ">=")) {
        return true;
    }
    match (parse_i128(&left), parse_i128(&right)) {
        (Some(l), Some(r)) => {
            return compare_integer_values(l, &op, r);
        },
        _ => {},
    }
    invariant_is_unsigned_nonnegative(&left, &op, &right, params)
}

/// Whether the contracts give the condition: one of them is it, it is
/// trivially true, or Z3 proves it from them.
pub fn condition_proved(condition: &[char], contracts: &Vec<Vec<char>>, params: &[Param], options: VerificationOptions) -> (r: bool)
    ensures
        (exists|k: int| 0 <= k < contracts@.len() && equivalent_spec(#[trigger] contracts@[k]@, canonical_spec(condition@)))
            ==> r,
        trivially_true_spec(canonical_spec(condition@), params@) ==> r,
        !(options.solver is Z3) ==> r == ((exists|k: int| 0 <= k < contracts@.len() && equivalent_spec(
            #[trigger] contracts@[k]@, canonical_spec(condition@))) || trivially_true_spec(canonical_spec(condition@), params@)),
        r ==> (exists|k: int| 0 <= k < contracts@.len() && equivalent_spec(#[trigger] contracts@[k]@, canonical_spec(condition@)))
            || trivially_true_spec(canonical_spec(condition@), params@) || (options.solver is Z3
            && crate::discharge::z3_valid_text(canonical_spec(condition@), views(contracts@), params@,
            options.target_pointer_width)),
{
    let c = canonical_condition(condition);
    let mut i: usize = 0;
    while i < contracts.len()
        invariant
            c@ == canonical_spec(condition@),
            forall|k: int| 0 <= k < i ==> !equivalent_spec(#[trigger] contracts@[k]@, canonical_spec(condition@)),
        decreases contracts.len() - i,
    {
        if conditions_equivalent(&contracts[i], &c) {
            return true;
        }
        i += 1;
    }
    if condition_is_trivially_true(&c, params) {
        return true;
    }
    assert(forall|k: int| 0 <= k < contracts@.len() ==> !equivalent_spec(#[trigger] contracts@[k]@, canonical_spec(condition@)));
    match z3_proves_conclusion(&c, contracts, params, options) {
        Some(b) => b,
        None => false,
    }
}

/// The position of the first `;` at or after `i`, else the end.
pub open spec fn statement_end(t: Seq<Seq<char>>, i: int) -> int
    decreases t.len() - i,
{
    if i >= t.len() {
        t.len() as int
    } else if t[i] == ";"@ {
        i
    } else {
        statement_end(t, i + 1)
    }
}

/// The expression after the `=` at `equals_idx`, up to the `;`, when once
/// `( v )` groups are collapsed it is one identifier or literal.
pub open spec fn simple_assigned_spec(t: Seq<Seq<char>>, equals_idx: int) -> Option<Seq<char>> {
    let e = crate::tokens::compact_from(t.subrange(equals_idx + 1, statement_end(t, equals_idx + 1)), 0);
    if e.len() == 1 && crate::tokens::value_operand_spec(e[0]) {
        Some(e[0])
    } else {
        None
    }
}

/// The expression assigned at `equals_idx` when, once redundant
/// parentheses are dropped, it is a single identifier or literal.
pub fn simple_assigned_expression(t: &[Vec<char>], equals_idx: usize) -> (r: Option<Vec<char>>)
    requires
        equals_idx < t@.len(),
    ensures
        r matches Some(v) ==> crate::tokens::value_operand_spec(v@),
        crate::discharge::opt_view(r) == simple_assigned_spec(views(t@), equals_idx as int),
{
    let start = equals_idx + 1;
    let mut end = start;
    while end < t.len() && !tok_is(t, end, ";")
        invariant
            start <= end <= t.len(),
            statement_end(views(t@), start as int) == statement_end(views(t@), end as int),
        decreases t.len() - end,
    {
        end += 1;
    }
    let expression = compact_parenthesized_value_tokens(&token_range(t, start, end));
    if expression.len() == 1 && is_value_operand(&expression[0]) {
        return Some(copy(&expression[0]));
    }
    None
}

/// What token `idx` does to the value of `v`: a `let` (or `let mut`) of
/// `v` and an assignment to `v` set it to the simple assigned value, a
/// `+=` or `-=` forgets it.
pub open spec fn initial_step(t: Seq<Seq<char>>, v: Seq<char>, idx: int, value: Option<Seq<char>>) -> Option<Seq<char>> {
    if t[idx] == "let"@ {
        let name_idx = if idx + 1 < t.len() && t[idx + 1] == "mut"@ {
            idx + 2
        } else {
            idx + 1
        };
        if name_idx < t.len() && t[name_idx] == v && name_idx + 1 < t.len() && t[name_idx + 1] == "="@ {
            simple_assigned_spec(t, name_idx + 1)
        } else {
            value
        }
    } else if t[idx] == v && idx + 1 < t.len() {
        if t[idx + 1] == "="@ {
            simple_assigned_spec(t, idx + 1)
        } else if (t[idx + 1] == "+"@ || t[idx + 1] == "-"@) && idx + 2 < t.len() && t[idx + 2] == "="@ {
            None
        } else {
            value
        }
    } else {
        value
    }
}

/// The simple value of `v` after the first `n` tokens.
pub open spec fn initial_value_spec(t: Seq<Seq<char>>, v: Seq<char>, n: int) -> Option<Seq<char>>
    decreases n,
{
    if n <= 0 {
        None
    } else {
        initial_step(t, v, n - 1, initial_value_spec(t, v, n - 1))
    }
}

/// The value `variable` last received in `t` from `let`, `let mut` or `=`
/// when that value was a single identifier or literal; a `+=` or `-=`
/// afterwards forgets it.
pub fn simple_initial_value(t: &[Vec<char>], variable: &[char]) -> (r: Option<Vec<char>>)
    ensures
        crate::discharge::opt_view(r) == initial_value_spec(views(t@), variable@, t@.len() as int),
{
    let ghost tv = views(t@);
    let mut value: Option<Vec<char>> = None;
    let mut idx: usize = 0;
    while idx < t.len()
        invariant
            idx <= t@.len(),
            tv == views(t@),
            crate::discharge::opt_view(value) == initial_value_spec(tv, variable@, idx as int),
        decreases t.len() - idx,
    {
        if tok_is(t, idx, "let") {
            let name_idx = if idx + 1 < t.len() && tok_is(t, idx + 1, "mut") {
                idx + 2
            } else {
                idx + 1
            };
            if name_idx < t.len() && tok_eq(t, name_idx, variable) && name_idx + 1 < t.len() && tok_is(t, name_idx + 1, "=") {
                value = simple_assigned_expression(t, name_idx + 1);
            }
            idx += 1;
            continue;
        }
        if tok_eq(t, idx, variable) && idx + 1 < t.len() {
            if tok_is(t, idx + 1, "=") {
                value = simple_assigned_expression(t, idx + 1);
            } else if (tok_is(t, idx + 1, "+") || tok_is(t, idx + 1, "-")) && idx + 2 < t.len() && tok_is(t, idx + 2, "=") {
                value = None;
            }
        }
        idx += 1;
    }
    value
}

/// A token with a local variable replaced by its simple value before the loop.
pub open spec fn local_substituted(tok: Seq<char>, prefix: Seq<Seq<char>>, params: Seq<Param>) -> Seq<char> {
    if crate::tokens::ident_spec(tok) && crate::arith::param_type_spec(tok, params) is None {
        match initial_value_spec(prefix, tok, prefix.len() as int) {
            Some(v) => v,
            None => tok,
        }
    } else {
        tok
    }
}

/// The condition's tokens, each local replaced by its value before the
/// loop, written together.
pub open spec fn initialized_spec(condition: Seq<char>, prefix: Seq<Seq<char>>, params: Seq<Param>) -> Seq<char> {
    crate::tokens::joined(tokens_spec(condition).map_values(|tok: Seq<char>| local_substituted(tok, prefix, params)))
}

/// The condition with each local variable (an identifier that is not an
/// integer parameter) replaced by the simple value it had before the loop.
pub fn substitute_simple_initial_values(condition: &[char], prefix: &[Vec<char>], params: &[Param]) -> (r: Vec<char>)
    ensures
        r@ == initialized_spec(condition@, views(prefix@), params@),
{
    let t = tokens(condition);
    let ghost tv = views(t@);
    let mut out: Vec<Vec<char>> = Vec::new();
    let mut i: usize = 0;
    while i < t.len()
        invariant
            i <= t@.len(),
            tv == views(t@),
            tv == tokens_spec(condition@),
            out@.len() == i,
            views(out@) == tv.subrange(0, i as int).map_values(|tok: Seq<char>| local_substituted(tok, views(prefix@), params@)),
        decreases t.len() - i,
    {
        let tok = &t[i];
        let ghost before = views(out@);
        if is_ident(tok) && param_type(tok, params).is_none() {
            match simple_initial_value(prefix, tok) {
                Some(v) => out.push(v),
                None => out.push(copy(tok)),
            }
        } else {
            out.push(copy(tok));
        }
        assert(views(prefix@).len() == prefix@.len());
        assert(tv[i as int] == tok@);
        assert(out@[i as int]@ == local_substituted(tv[i as int], views(prefix@), params@));
        assert(views(out@) =~= before.push(out@[i as int]@));
        assert(views(out@) =~= tv.subrange(0, i + 1).map_values(|tok: Seq<char>| local_substituted(tok, views(prefix@), params@)));
        i += 1;
    }
    assert(tv.subrange(0, t@.len() as int) =~= tv);
    token_expression(&out)
}

/// Whether the invariant, with locals replaced by their values before the
/// loop, follows from the contracts.
pub fn loop_invariant_established(inv: &[char], prefix: &[Vec<char>], contracts: &Vec<Vec<char>>, params: &[Param], options: VerificationOptions) -> (r: bool)
    ensures
        !(options.solver is Z3) ==> r == ((exists|k: int| 0 <= k < contracts@.len() && equivalent_spec(
            #[trigger] contracts@[k]@, canonical_spec(initialized_spec(inv@, views(prefix@), params@))))
            || trivially_true_spec(canonical_spec(initialized_spec(inv@, views(prefix@), params@)), params@)),
{
    let initialized = substitute_simple_initial_values(inv, prefix, params);
    condition_proved(&initialized, contracts, params, options)
}

/// Whether token `idx` is one of the variables and is assigned there
/// (`v =`, `v +=`, `v -=`).
pub open spec fn assigns_at(t: Seq<Seq<char>>, variables: Seq<Seq<char>>, idx: int) -> bool {
    &&& 0 <= idx < t.len()
    &&& variables.contains(t[idx])
    &&& ((idx + 1 < t.len() && t[idx + 1] == "="@) || (idx + 2 < t.len() && (t[idx + 1] == "+"@ || t[idx + 1]
        == "-"@) && t[idx + 2] == "="@))
}

/// Whether any of the variables is assigned in the tokens.
pub fn tokens_assign_to_any(t: &[Vec<char>], variables: &Vec<Vec<char>>) -> (r: bool)
    ensures
        r == exists|idx: int| assigns_at(views(t@), views(variables@), idx),
{
    let ghost tv = views(t@);
    let mut idx: usize = 0;
    while idx < t.len()
        invariant
            tv == views(t@),
            idx <= t.len(),
            forall|j: int| 0 <= j < idx ==> !assigns_at(tv, views(variables@), j),
        decreases t.len() - idx,
    {
        if texts_contain(variables, &t[idx]) {
            let n = t.len();
            let eq_next = idx + 1 < n && tok_is(t, idx + 1, "=");
            let compound = n - idx > 2 && (tok_is(t, idx + 1, "+") || tok_is(t, idx + 1, "-")) && tok_is(t, idx + 2, "=");
            if eq_next || compound {
                assert(assigns_at(tv, views(variables@), idx as int));
                return true;
            }
        }
        idx += 1;
    }
    assert forall|j: int| !assigns_at(tv, views(variables@), j) by {
        if 0 <= j < idx {
        }
    }
    false
}

/// A window `v = v - k` with `k` a positive literal, at `i`.
pub open spec fn decrement_window(t: Seq<Seq<char>>, v: Seq<char>, i: int) -> bool {
    &&& 0 <= i && i + 5 <= t.len()
    &&& t[i] == v && t[i + 1] == "="@ && t[i + 2] == v && t[i + 3] == "-"@
    &&& parse_i128_spec(t[i + 4]) matches Some(k) && k > 0
}

/// Whether the tokens hold `variable = variable - k` for a positive literal `k`.
pub fn decrements_variable(t: &[Vec<char>], variable: &[char]) -> (r: bool)
    ensures
        r == exists|i: int| decrement_window(views(t@), variable@, i),
{
    let ghost tv = views(t@);
    let mut i: usize = 0;
    while i < t.len() && t.len() - i >= 5
        invariant
            tv == views(t@),
            forall|j: int| 0 <= j < i ==> !decrement_window(tv, variable@, j),
        decreases t.len() - i,
    {
        if tok_eq(t, i, variable) && tok_is(t, i + 1, "=") && tok_eq(t, i + 2, variable) && tok_is(t, i + 3, "-") {
            match parse_i128(&t[i + 4]) {
                Some(k) => {
                    if k > 0 {
                        assert(decrement_window(tv, variable@, i as int));
                        return true;
                    }
                },
                None => {},
            }
        }
        i += 1;
    }
    assert forall|j: int| !decrement_window(tv, variable@, j) by {
        if 0 <= j < i {
        }
    }
    false
}

/// `v = v <op> k` at `i` (five tokens) with `k` a literal.
pub open spec fn long_step_window(t: Seq<Seq<char>>, v: Seq<char>, op: Seq<char>, i: int) -> bool {
    &&& 0 <= i && i + 5 <= t.len()
    &&& t[i] == v && t[i + 1] == "="@ && t[i + 2] == v && t[i + 3] == op
    &&& parse_i128_spec(t[i + 4]) is Some
}

/// `v <op>= k` at `i` (four tokens) with `k` a literal.
pub open spec fn short_step_window(t: Seq<Seq<char>>, v: Seq<char>, op: Seq<char>, i: int) -> bool {
    &&& 0 <= i && i + 4 <= t.len()
    &&& t[i] == v && t[i + 1] == op && t[i + 2] == "="@
    &&& parse_i128_spec(t[i + 3]) is Some
}

/// The literal step of the first `v = v op k` in the tokens, or else of the
/// first `v op= k` (op: `+` or `-`).
fn step_amount(t: &[Vec<char>], variable: &[char], op: &str) -> (r: Option<i128>)
    ensures
        r matches Some(a) ==> (exists|i: int| #[trigger] long_step_window(views(t@), variable@, op@, i)
            && parse_i128_spec(views(t@)[i + 4]) == Some(a)) || (exists|i: int| #[trigger] short_step_window(
            views(t@), variable@, op@, i) && parse_i128_spec(views(t@)[i + 3]) == Some(a)),
        r is None ==> (forall|i: int| !long_step_window(views(t@), variable@, op@, i)) && (forall|i: int|
            !short_step_window(views(t@), variable@, op@, i)),
{
    let ghost tv = views(t@);
    let mut i: usize = 0;
    while i < t.len() && t.len() - i >= 5
        invariant
            tv == views(t@),
            forall|j: int| 0 <= j < i ==> !long_step_window(tv, variable@, op@, j),
        decreases t.len() - i,
    {
        if tok_eq(t, i, variable) && tok_is(t, i + 1, "=") && tok_eq(t, i + 2, variable) && tok_is(t, i + 3, op) {
            match parse_i128(&t[i + 4]) {
                Some(k) => {
                    assert(long_step_window(tv, variable@, op@, i as int));
                    return Some(k);
                },
                None => {},
            }
        }
        i += 1;
    }
    assert forall|j: int| !long_step_window(tv, variable@, op@, j) by {
        if 0 <= j < i {
        }
    }
    let mut i: usize = 0;
    while i < t.len() && t.len() - i >= 4
        invariant
            tv == views(t@),
            forall|j: int| !long_step_window(tv, variable@, op@, j),
            forall|j: int| 0 <= j < i ==> !short_step_window(tv, variable@, op@, j),
        decreases t.len() - i,
    {
        if tok_eq(t, i, variable) && tok_is(t, i + 1, op) && tok_is(t, i + 2, "=") {
            match parse_i128(&t[i + 3]) {
                Some(k) => {
                    assert(short_step_window(tv, variable@, op@, i as int));
                    return Some(k);
                },
                None => {},
            }
        }
        i += 1;
    }
    assert forall|j: int| !short_step_window(tv, variable@, op@, j) by {
        if 0 <= j < i {
        }
    }
    None
}

/// The literal `k` of `variable = variable + k` (or else `variable += k`).
pub fn increment_amount(t: &[Vec<char>], variable: &[char]) -> (r: Option<i128>)
    ensures
        r matches Some(a) ==> (exists|i: int| #[trigger] long_step_window(views(t@), variable@, "+"@, i)
            && parse_i128_spec(views(t@)[i + 4]) == Some(a)) || (exists|i: int| #[trigger] short_step_window(
            views(t@), variable@, "+"@, i) && parse_i128_spec(views(t@)[i + 3]) == Some(a)),
        r is None ==> (forall|i: int| !long_step_window(views(t@), variable@, "+"@, i)) && (forall|i: int|
            !short_step_window(views(t@), variable@, "+"@, i)),
{
    step_amount(t, variable, "+")
}

/// The literal `k` of `variable = variable - k` (or else `variable -= k`).
pub fn decrement_amount(t: &[Vec<char>], variable: &[char]) -> (r: Option<i128>)
    ensures
        r matches Some(a) ==> (exists|i: int| #[trigger] long_step_window(views(t@), variable@, "-"@, i)
            && parse_i128_spec(views(t@)[i + 4]) == Some(a)) || (exists|i: int| #[trigger] short_step_window(
            views(t@), variable@, "-"@, i) && parse_i128_spec(views(t@)[i + 3]) == Some(a)),
        r is None ==> (forall|i: int| !long_step_window(views(t@), variable@, "-"@, i)) && (forall|i: int|
            !short_step_window(views(t@), variable@, "-"@, i)),
{
    step_amount(t, variable, "-")
}

/// One of the operation's guards is the condition.
pub open spec fn guarded_by_spec(operation: SemanticArithmeticOperation, condition: Seq<char>) -> bool {
    exists|i: int| 0 <= i < operation.guards@.len() && equivalent_spec(#[trigger] operation.guards@[i]@, condition)
}

/// Whether one of the operation's guards is the condition.
pub fn semantic_operation_guarded_by(operation: &SemanticArithmeticOperation, condition: &[char]) -> (r: bool)
    ensures
        r == guarded_by_spec(*operation, condition@),
{
    let mut i: usize = 0;
    while i < operation.guards.len()
        invariant
            i <= operation.guards@.len(),
            forall|j: int| 0 <= j < i ==> !equivalent_spec(#[trigger] operation.guards@[j]@, condition@),
        decreases operation.guards.len() - i,
    {
        if conditions_equivalent(&chars_of_string(&operation.guards[i]), condition) {
            return true;
        }
        i += 1;
    }
    false
}

/// The operation is `variable = variable <kind> ..` (kind `Add` or `Sub`)
/// under the loop condition.
pub open spec fn self_update_spec(operation: SemanticArithmeticOperation, kind: SemanticArithmeticKind, condition: Seq<char>, variable: Seq<char>) -> bool {
    &&& ((operation.kind is Add && kind is Add) || (operation.kind is Sub && kind is Sub))
    &&& operation.target matches Some(t) && t@ == variable
    &&& operation.left@ == variable
    &&& guarded_by_spec(operation, condition)
}

/// The literal right operand of an operation, if it has one.
pub open spec fn literal_right_spec(operation: SemanticArithmeticOperation) -> Option<i128> {
    match operation.right {
        Some(r) => parse_i128_spec(r@),
        None => None,
    }
}

/// Whether the operation is `variable = variable <kind> ..` under the
/// loop condition.
fn semantic_self_update(operation: &SemanticArithmeticOperation, kind: SemanticArithmeticKind, condition: &[char], variable: &[char]) -> (r: bool)
    ensures
        r == self_update_spec(*operation, kind, condition@, variable@),
{
    let kind_matches = match (operation.kind, kind) {
        (SemanticArithmeticKind::Add, SemanticArithmeticKind::Add) => true,
        (SemanticArithmeticKind::Sub, SemanticArithmeticKind::Sub) => true,
        _ => false,
    };
    let target_matches = match &operation.target {
        Some(target) => same(&chars_of_string(target), variable),
        None => false,
    };
    kind_matches && target_matches && same(&chars_of_string(&operation.left), variable)
        && semantic_operation_guarded_by(operation, condition)
}

/// The literal right operand of the operation, if it has one.
fn literal_right(operation: &SemanticArithmeticOperation) -> (r: Option<i128>)
    ensures
        r == literal_right_spec(*operation),
{
    match &operation.right {
        Some(right) => parse_i128(&chars_of_string(right)),
        None => None,
    }
}

/// The literal step of the first `variable = variable + k` (or `- k`)
/// that the compiler reports under the loop condition.
#[verifier::loop_isolation(false)]
fn semantic_step_amount(semantics: Option<&TrustFunctionSemantics>, kind: SemanticArithmeticKind, condition: &[char], variable: &[char]) -> (r: Option<i128>)
    ensures
        semantics is None ==> r is None,
        r matches Some(k) ==> semantics matches Some(s) && step_reported(*s, kind, condition@, variable@, k),
        r is None ==> (semantics matches Some(s) ==> forall|k: i128, i: int| !#[trigger] step_at(*s, kind, condition@, variable@, k, i)),
{
    match semantics {
        Some(s) => {
            let mut i: usize = 0;
            while i < s.arithmetic_operations.len()
                invariant
                    i <= s.arithmetic_operations@.len(),
                    forall|k: i128, j: int| j < i ==> !#[trigger] step_at(*s, kind, condition@, variable@, k, j),
                decreases s.arithmetic_operations.len() - i,
            {
                let operation = &s.arithmetic_operations[i];
                if semantic_self_update(operation, kind, condition, variable) {
                    if let Some(k) = literal_right(operation) {
                        assert(step_at(*s, kind, condition@, variable@, k, i as int));
                        return Some(k);
                    }
                }
                i += 1;
            }
            None
        },
        None => None,
    }
}

/// The operation's right operand is a positive literal.
pub open spec fn positive_step(operation: SemanticArithmeticOperation) -> bool {
    literal_right_spec(operation) matches Some(k) && k > 0
}

/// The compiler reports, at position `i`, `variable = variable <kind> k`
/// under the condition.
pub open spec fn step_at(s: TrustFunctionSemantics, kind: SemanticArithmeticKind, condition: Seq<char>, variable: Seq<char>, k: i128, i: int) -> bool {
    0 <= i < s.arithmetic_operations@.len() && self_update_spec(s.arithmetic_operations@[i], kind, condition, variable)
        && literal_right_spec(s.arithmetic_operations@[i]) == Some(k)
}

pub open spec fn step_reported(s: TrustFunctionSemantics, kind: SemanticArithmeticKind, condition: Seq<char>, variable: Seq<char>, k: i128) -> bool {
    exists|i: int| #[trigger] step_at(s, kind, condition, variable, k, i)
}

/// The step of a reported `variable = variable + k` under the condition.
pub fn semantic_increment_amount(semantics: Option<&TrustFunctionSemantics>, condition: &[char], variable: &[char]) -> (r: Option<i128>)
    ensures
        semantics is None ==> r is None,
        r matches Some(k) ==> semantics matches Some(s) && step_reported(*s, SemanticArithmeticKind::Add, condition@, variable@, k),
        r is None ==> (semantics matches Some(s) ==> forall|k: i128, i: int| !#[trigger] step_at(*s, SemanticArithmeticKind::Add,
            condition@, variable@, k, i)),
{
    semantic_step_amount(semantics, SemanticArithmeticKind::Add, condition, variable)
}

/// The step of a reported `variable = variable - k` under the condition.
pub fn semantic_decrement_amount(semantics: Option<&TrustFunctionSemantics>, condition: &[char], variable: &[char]) -> (r: Option<i128>)
    ensures
        semantics is None ==> r is None,
        r matches Some(k) ==> semantics matches Some(s) && step_reported(*s, SemanticArithmeticKind::Sub, condition@, variable@, k),
{
    semantic_step_amount(semantics, SemanticArithmeticKind::Sub, condition, variable)
}

/// Whether the compiler reports `variable = variable - k` with a positive
/// literal `k` under the loop condition.
#[verifier::loop_isolation(false)]
pub fn semantic_decrements_variable(semantics: Option<&TrustFunctionSemantics>, condition: &[char], variable: &[char]) -> (r: bool)
    ensures
        r == (semantics matches Some(s) && exists|i: int| 0 <= i < s.arithmetic_operations@.len() && self_update_spec(
            #[trigger] s.arithmetic_operations@[i], SemanticArithmeticKind::Sub, condition@, variable@) && positive_step(
            s.arithmetic_operations@[i])),
{
    match semantics {
        Some(s) => {
            let mut i: usize = 0;
            while i < s.arithmetic_operations.len()
                invariant
                    i <= s.arithmetic_operations@.len(),
                    forall|j: int| 0 <= j < i ==> !(self_update_spec(#[trigger] s.arithmetic_operations@[j],
                        SemanticArithmeticKind::Sub, condition@, variable@) && positive_step(s.arithmetic_operations@[j])),
                decreases s.arithmetic_operations.len() - i,
            {
                let operation = &s.arithmetic_operations[i];
                if semantic_self_update(operation, SemanticArithmeticKind::Sub, condition, variable) {
                    if let Some(k) = literal_right(operation) {
                        if k > 0 {
                            assert(s.arithmetic_operations@[i as int] == *operation);
                            return true;
                        }
                    }
                }
                i += 1;
            }
            false
        },
        None => false,
    }
}

/// `a - b` split at its first `-`, sides trimmed.
pub open spec fn measure_sides_spec(m: Seq<char>) -> Option<(Seq<char>, Seq<char>)> {
    match find_spec(m, "-"@) {
        Some(i) => Some((trim_spec(m.take(i)), trim_spec(m.skip(i + 1)))),
        None => None,
    }
}

fn measure_sides(measure: &[char]) -> (r: Option<(Vec<char>, Vec<char>)>)
    ensures
        r is Some == measure_sides_spec(measure@) is Some,
        r matches Some((a, b)) ==> measure_sides_spec(measure@) == Some((a@, b@)),
{
    proof { reveal_strlit("-"); }
    match split_once_lit(measure, "-") {
        Some((l, r)) => Some((trim(&l), trim(&r))),
        None => None,
    }
}

/// The facts report `variable = variable - k` for a positive literal `k`
/// under the condition.
pub open spec fn reported_decrement(s: TrustFunctionSemantics, condition: Seq<char>, variable: Seq<char>) -> bool {
    exists|i: int| 0 <= i < s.arithmetic_operations@.len() && self_update_spec(
        #[trigger] s.arithmetic_operations@[i], SemanticArithmeticKind::Sub, condition, variable) && positive_step(
        s.arithmetic_operations@[i])
}

/// The facts report `variable = variable + k` for a literal `k` under the
/// condition.
pub open spec fn reported_increment(s: TrustFunctionSemantics, condition: Seq<char>, variable: Seq<char>) -> bool {
    exists|k: i128, i: int| #[trigger] step_at(s, SemanticArithmeticKind::Add, condition, variable, k, i)
}

/// Whether the compiler's facts show the measure going down: the measure
/// itself is decremented, or for `a - b`, `a` is decremented or `b`
/// incremented by a literal.
pub fn semantic_measure_decreases(measure: &[char], condition: &[char], semantics: Option<&TrustFunctionSemantics>) -> (r: bool)
    ensures
        semantics is None ==> !r,
        r == (semantics matches Some(s) && (reported_decrement(*s, condition@, measure@) || (measure_sides_spec(measure@)
            matches Some(p) && (reported_decrement(*s, condition@, p.0) || reported_increment(*s, condition@, p.1))))),
{
    if semantic_decrements_variable(semantics, condition, measure) {
        return true;
    }
    match measure_sides(measure) {
        Some((left, right)) => {
            let d = semantic_decrements_variable(semantics, condition, &left);
            let inc = semantic_increment_amount(semantics, condition, &right);
            proof {
                if inc is Some {
                    let k = inc->0;
                    let s = semantics->0;
                    let i = choose|i: int| #[trigger] step_at(*s, SemanticArithmeticKind::Add, condition@, right@, k, i);
                    assert(reported_increment(*s, condition@, right@));
                }
            }
            d || inc.is_some()
        },
        None => false,
    }
}

/// The loop body decrements the measure, or for `a - b` decrements `a` or
/// increments `b` by a literal.
pub open spec fn token_measure_spec(m: Seq<char>, t: Seq<Seq<char>>) -> bool {
    ||| exists|i: int| decrement_window(t, m, i)
    ||| match measure_sides_spec(m) {
        Some(p) => sides_decrease(t, p.0, p.1),
        None => false,
    }
}

/// `l` is decremented or `r` incremented by a literal in the tokens.
pub open spec fn sides_decrease(t: Seq<Seq<char>>, l: Seq<char>, r: Seq<char>) -> bool {
    ||| exists|i: int| decrement_window(t, l, i)
    ||| exists|i: int| long_step_window(t, r, "+"@, i)
    ||| exists|i: int| short_step_window(t, r, "+"@, i)
}

/// The same judgment from the loop body's tokens.
pub fn token_measure_decreases(measure: &[char], loop_body: &[Vec<char>]) -> (r: bool)
    ensures
        r == token_measure_spec(measure@, views(loop_body@)),
{
    if decrements_variable(loop_body, measure) {
        return true;
    }
    match measure_sides(measure) {
        Some((left, right)) => {
            let d = decrements_variable(loop_body, &left);
            let inc = increment_amount(loop_body, &right);
            proof {
                let tv = views(loop_body@);
                assert(measure_sides_spec(measure@) == Some((left@, right@)));
                if inc is Some {
                    assert((exists|i: int| long_step_window(tv, right@, "+"@, i)) || (exists|i: int| short_step_window(tv, right@, "+"@, i)));
                    assert(sides_decrease(tv, left@, right@));
                } else if d {
                    assert(sides_decrease(tv, left@, right@));
                } else {
                    assert(!(exists|i: int| decrement_window(tv, left@, i)));
                    assert(!token_measure_spec(measure@, tv));
                }
            }
            d || inc.is_some()
        },
        None => {
            assert(!token_measure_spec(measure@, views(loop_body@)));
            false
        },
    }
}

/// Whether the measure decreases on each iteration; a proof from the tokens
/// alone is incomplete when compiler facts are given.
pub fn loop_measure_decreases(measure: &[char], condition: &[char], loop_body: &[Vec<char>], semantics: Option<&TrustFunctionSemantics>) -> (r: LoopProof)
    ensures
        semantics is None ==> r != LoopProof::SemanticExtractionIncomplete && (r == LoopProof::Proved
            <==> token_measure_spec(measure@, views(loop_body@))),
        semantics is Some && token_measure_spec(measure@, views(loop_body@)) ==> r != LoopProof::Unproved,
{
    if semantic_measure_decreases(measure, condition, semantics) {
        return LoopProof::Proved;
    }
    if token_measure_decreases(measure, loop_body) {
        if semantics.is_some() {
            LoopProof::SemanticExtractionIncomplete
        } else {
            LoopProof::Proved
        }
    } else {
        LoopProof::Unproved
    }
}

/// `left`, `op` and `right` written together.
fn join_condition(left: &[char], op: &str, right: &[char]) -> (r: Vec<char>)
    ensures
        r@ == left@ + op@ + right@,
{
    let mut out = copy(left);
    append_lit(&mut out, op);
    append(&mut out, right);
    out
}

/// Whether the measure can never go below zero: a non-negative literal, an
/// unsigned parameter, or `a - b` under an invariant `b <= a` / `a >= b`.
pub open spec fn measure_nonnegative_spec(measure: Seq<char>, inv: Option<Seq<char>>, params: Seq<Param>) -> bool {
    ||| (parse_i128_spec(measure) matches Some(v) && v >= 0)
    ||| (crate::arith::param_type_spec(measure, params) matches Some(t) && (t == "u32"@ || t == "u64"@ || t == "usize"@))
    ||| (measure_sides_spec(measure) matches Some((a, b)) && inv matches Some(i) && (equivalent_spec(i, b + "<="@ + a)
        || equivalent_spec(i, a + ">="@ + b)))
}

pub fn loop_measure_nonnegative(measure: &[char], inv: &Option<Vec<char>>, params: &[Param]) -> (r: bool)
    ensures
        r == measure_nonnegative_spec(measure@, crate::discharge::opt_view(*inv), params@),
{
    match integer_constant_value(measure, &None, None) {
        Some(v) => {
            if v >= 0 {
                return true;
            }
        },
        None => {},
    }
    match param_type(measure, params) {
        Some(t) => {
            if is_unsigned_integer(&t) {
                return true;
            }
        },
        None => {},
    }
    let (left, right) = match measure_sides(measure) {
        Some(p) => p,
        None => return false,
    };
    match inv {
        Some(inv) => conditions_equivalent(inv, &join_condition(&right, "<=", &left))
            || conditions_equivalent(inv, &join_condition(&left, ">=", &right)),
        None => false,
    }
}

/// A token-level proof: incomplete when compiler facts are given.
pub fn token_loop_invariant_proof(proved: bool, semantics: Option<&TrustFunctionSemantics>) -> (r: LoopProof)
    ensures
        r == (if !proved {
            LoopProof::Unproved
        } else if semantics is Some {
            LoopProof::SemanticExtractionIncomplete
        } else {
            LoopProof::Proved
        }),
{
    if !proved {
        LoopProof::Unproved
    } else if semantics.is_some() {
        LoopProof::SemanticExtractionIncomplete
    } else {
        LoopProof::Proved
    }
}

/// The two sides of the invariant, as the variables the body must leave alone.
fn sides(left: &[char], right: &[char]) -> (r: Vec<Vec<char>>)
    ensures
        views(r@) == seq![left@, right@],
{
    let mut v: Vec<Vec<char>> = Vec::new();
    v.push(copy(left));
    v.push(copy(right));
    assert(views(v@) =~= seq![left@, right@]);
    v
}

/// The body steps `v` by `op` with a literal of at most one.
pub open spec fn steps_by_at_most_one(t: Seq<Seq<char>>, v: Seq<char>, op: Seq<char>) -> bool {
    (exists|i: int| #[trigger] long_step_window(t, v, op, i) && (parse_i128_spec(t[i + 4]) matches Some(a) && a <= 1))
        || (exists|i: int| #[trigger] short_step_window(t, v, op, i) && (parse_i128_spec(t[i + 3]) matches Some(a) && a
        <= 1))
}

/// Whether one iteration keeps the invariant: an unsigned bound by zero
/// always holds; `i <= n` under `i < n` holds when `i` steps by at most one;
/// `i >= n` under `i > n` likewise downwards; otherwise the body must not
/// assign either side.
pub fn loop_invariant_preserved(inv: &[char], condition: &[char], loop_body: &[Vec<char>], semantics: Option<&TrustFunctionSemantics>, params: &[Param]) -> (r: LoopProof)
    ensures
        semantics is None ==> r != LoopProof::SemanticExtractionIncomplete,
        crate::tokens::split_parts(canonical_spec(inv@)) is None ==> r == LoopProof::Unproved,
        crate::tokens::split_parts(canonical_spec(inv@)) matches Some((l, k, rr)) && unsigned_nonnegative_spec(l,
            crate::tokens::comparison_op_text(k), rr, params@) ==> r == LoopProof::Proved,
        r == LoopProof::Proved && semantics is None ==> (crate::tokens::split_parts(canonical_spec(inv@)) matches Some((l, k, rr)) && (
            unsigned_nonnegative_spec(l, crate::tokens::comparison_op_text(k), rr, params@) || !(exists|idx: int| assigns_at(
            views(loop_body@), seq![l, rr], idx)) || (crate::tokens::comparison_op_text(k) == "<="@ && steps_by_at_most_one(
            views(loop_body@), l, "+"@)) || (crate::tokens::comparison_op_text(k) == ">="@ && steps_by_at_most_one(views(loop_body@), l,
            "-"@)))),
{
    let (left, op, right) = match comparison_parts(inv) {
        Some(parts) => parts,
        None => return LoopProof::Unproved,
    };
    if invariant_is_unsigned_nonnegative(&left, &op, &right, params) {
        return LoopProof::Proved;
    }
    if is_lit(&op, "<=") && conditions_equivalent(condition, &join_condition(&left, "<", &right)) {
        if let Some(amount) = semantic_increment_amount(semantics, condition, &left) {
            return if amount <= 1 {
                LoopProof::Proved
            } else {
                LoopProof::Unproved
            };
        }
        if let Some(amount) = increment_amount(loop_body, &left) {
            return token_loop_invariant_proof(amount <= 1, semantics);
        }
        return token_loop_invariant_proof(!tokens_assign_to_any(loop_body, &sides(&left, &right)), semantics);
    }
    proof {
        reveal_strlit("<=");
        reveal_strlit(">=");
    }
    if is_lit(&op, ">=") && conditions_equivalent(condition, &join_condition(&left, ">", &right)) {
        if let Some(amount) = semantic_decrement_amount(semantics, condition, &left) {
            return if amount <= 1 {
                LoopProof::Proved
            } else {
                LoopProof::Unproved
            };
        }
        if let Some(amount) = decrement_amount(loop_body, &left) {
            return token_loop_invariant_proof(amount <= 1, semantics);
        }
        return token_loop_invariant_proof(!tokens_assign_to_any(loop_body, &sides(&left, &right)), semantics);
    }
    token_loop_invariant_proof(!tokens_assign_to_any(loop_body, &sides(&left, &right)), semantics)
}

/// `break` when the body has one, else `continue` when it has one.
fn loop_control_keyword(loop_body: &[Vec<char>]) -> (r: Option<&'static str>)
    ensures
        has_token(views(loop_body@), "break"@) ==> (r matches Some(k) && k@ == "break"@),
        !has_token(views(loop_body@), "break"@) && has_token(views(loop_body@), "continue"@) ==> (r matches Some(k)
            && k@ == "continue"@),
        !has_token(views(loop_body@), "break"@) && !has_token(views(loop_body@), "continue"@) ==> r is None,
{
    let ghost tv = views(loop_body@);
    let mut i: usize = 0;
    while i < loop_body.len()
        invariant
            tv == views(loop_body@),
            forall|j: int| 0 <= j < i ==> #[trigger] tv[j] != "break"@,
        decreases loop_body.len() - i,
    {
        if is_lit(&loop_body[i], "break") {
            assert(tv[i as int] == "break"@);
            return Some("break");
        }
        i += 1;
    }
    let mut i: usize = 0;
    while i < loop_body.len()
        invariant
            tv == views(loop_body@),
            !has_token(tv, "break"@),
            forall|j: int| 0 <= j < i ==> #[trigger] tv[j] != "continue"@,
        decreases loop_body.len() - i,
    {
        if is_lit(&loop_body[i], "continue") {
            assert(tv[i as int] == "continue"@);
            return Some("continue");
        }
        i += 1;
    }
    None
}

fn extraction_error(function: &[char], category: &str, expression: &[char]) -> (e: VerificationError)
    ensures
        e matches VerificationError::SemanticExtractionIncomplete { function: f, category: c, expression: x }
            && f@ == function@ && c@ == category@ && x@ == expression@,
{
    VerificationError::SemanticExtractionIncomplete {
        function: err_text(function),
        category: err_text(&chars_of(category)),
        expression: err_text(expression),
    }
}

/// The `loop_spec!` block whose braces are at `o` and `c` states this
/// invariant and this measure, where given.
pub open spec fn block_states(t: Seq<Seq<char>>, o: int, c: int, inv: Option<Seq<char>>, m: Option<Seq<char>>) -> bool {
    let b = t.subrange(o + 1, c);
    &&& 0 <= o < c < t.len()
    &&& exists|s: int| crate::segments::loop_spec_open_spec(t, s) == Some(o)
    &&& (inv matches Some(i) ==> has_clause(b, "invariant"@, i))
    &&& (m matches Some(d) ==> has_clause(b, "decreases"@, d))
}

/// The fact for the `while` at `w`, whose body braces are at `o` and `c`,
/// under the spec block at `so..sc` before it stating invariant `inv` and
/// measure `m`: the measure stays non-negative and, reading the tokens,
/// the body decreases it and keeps the invariant; the fact holds the
/// loop condition and the canonical invariant.
pub open spec fn loop_fact_at(f: LoopFact, t: Seq<Seq<char>>, params: Seq<Param>, tokens_only: bool, w: int, o: int, c: int,
    so: int, sc: int, inv: Option<Seq<char>>, m: Seq<char>) -> bool {
    &&& 0 <= w < t.len() && t[w] == "while"@
    &&& sc < w
    &&& block_states(t, so, sc, inv, Some(m))
    &&& crate::frontend::first_brace_from(t, w + 1) == Some(o)
    &&& crate::tokens::token_group_close(t, '{', '}', o, 0) == Some(c)
    &&& f.condition@ == crate::tokens::joined(t.subrange(w + 1, o))
    &&& views(f.invariants@) == (match inv {
        Some(i) => seq![canonical_spec(i)],
        None => seq![],
    })
    &&& measure_nonnegative_spec(m, inv, params)
    &&& tokens_only ==> token_measure_spec(m, t.subrange(o + 1, c)) && (inv matches Some(i) ==> invariant_kept_spec(i,
        t.subrange(o + 1, c), params))
}

/// The fact comes from checking the loop whose `while` is at `w`.
pub open spec fn loop_fact_for(f: LoopFact, t: Seq<Seq<char>>, params: Seq<Param>, tokens_only: bool, w: int) -> bool {
    exists|o: int, c: int, so: int, sc: int, inv: Option<Seq<char>>, m: Seq<char>| #[trigger] loop_fact_at(f, t, params,
        tokens_only, w, o, c, so, sc, inv, m)
}

/// The `while` tokens the loop check reads, from token `i` on: a
/// `loop_spec!` block is skipped whole, and after a loop the scan goes on
/// past its body; a `while` with no braced body is passed over.
pub open spec fn loop_positions(t: Seq<Seq<char>>, i: int) -> Seq<int>
    decreases t.len() - i,
{
    if i < 0 || i >= t.len() {
        seq![]
    } else if crate::segments::loop_spec_open_spec(t, i) is Some {
        let o = crate::segments::loop_spec_open_spec(t, i)->0;
        match crate::tokens::token_group_close(t, '{', '}', o, 0) {
            Some(c) => if i < c + 1 <= t.len() {
                loop_positions(t, c + 1)
            } else {
                seq![]
            },
            None => loop_positions(t, i + 1),
        }
    } else if t[i] != "while"@ {
        loop_positions(t, i + 1)
    } else {
        match crate::frontend::first_brace_from(t, i + 1) {
            None => loop_positions(t, i + 1),
            Some(o) => match crate::tokens::token_group_close(t, '{', '}', o, 0) {
                None => loop_positions(t, i + 1),
                Some(c) => if i < c + 1 <= t.len() {
                    seq![i] + loop_positions(t, c + 1)
                } else {
                    seq![]
                },
            },
        }
    }
}

/// Checks one loop against its spec, in order: a measure is given, no
/// `break`/`continue`, the invariant is kept, the measure stays
/// non-negative and decreases, the invariant holds on entry. Returns the
/// invariant, canonicalized, as what holds after the loop.
/// The errors a loop check gives.
pub open spec fn loop_error(e: VerificationError) -> bool {
    ||| e is LoopMissingSpec
    ||| e is LoopAmbiguousSpec
    ||| e is LoopMissingDecreases
    ||| e is LoopInvariantNotEstablished
    ||| e is LoopInvariantNotPreserved
    ||| e is LoopDecreasesNotDecreasing
    ||| e is UnsupportedLoopControl
    ||| e is SemanticExtractionIncomplete
}

/// The invariant is `x >= 0` (or the like) for an unsigned `x`, which no
/// step can break.
pub open spec fn unsigned_invariant_spec(inv: Seq<char>, params: Seq<Param>) -> bool {
    crate::tokens::split_parts(canonical_spec(inv)) matches Some((l, k, rr)) && unsigned_nonnegative_spec(l,
        crate::tokens::comparison_op_text(k), rr, params)
}

/// What the token check accepts as keeping the invariant `l op r`: it
/// cannot fail for an unsigned side, neither side is assigned, or `l <= r`
/// with `l` stepping up (`l >= r` stepping down) by at most one.
pub open spec fn invariant_kept_spec(inv: Seq<char>, body: Seq<Seq<char>>, params: Seq<Param>) -> bool {
    crate::tokens::split_parts(canonical_spec(inv)) matches Some((l, k, rr)) && (unsigned_nonnegative_spec(l,
        crate::tokens::comparison_op_text(k), rr, params) || !(exists|idx: int| assigns_at(body, seq![l, rr], idx)) || (
    crate::tokens::comparison_op_text(k) == "<="@ && steps_by_at_most_one(body, l, "+"@)) || (
    crate::tokens::comparison_op_text(k) == ">="@ && steps_by_at_most_one(body, l, "-"@)))
}

/// A contract states the invariant with the loop's set-up applied, or it
/// is trivially true.
pub open spec fn invariant_established_spec(inv: Seq<char>, prefix: Seq<Seq<char>>, contracts: Seq<Vec<char>>, params: Seq<Param>) -> bool {
    (exists|k: int| 0 <= k < contracts.len() && equivalent_spec(#[trigger] contracts[k]@, canonical_spec(initialized_spec(
        inv, prefix, params)))) || trivially_true_spec(canonical_spec(initialized_spec(inv, prefix, params)), params)
}

pub fn verify_loop_spec(
    spec: &LoopSpec,
    condition: &[char],
    loop_body: &[Vec<char>],
    prefix: &[Vec<char>],
    function: &[char],
    semantics: Option<&TrustFunctionSemantics>,
    contracts: &Vec<Vec<char>>,
    params: &[Param],
    options: VerificationOptions,
) -> (r: Result<Vec<Vec<char>>, VerificationError>)
    ensures
        spec.decreases is None ==> (r matches Err(VerificationError::LoopMissingDecreases { function: f }) && f@
            == function@),
        r matches Err(e) ==> e.subject_spec() == function@,
        spec.decreases is Some && has_token(views(loop_body@), "break"@) ==> (r matches Err(
            VerificationError::UnsupportedLoopControl { function: f, keyword: k }) && k@ == "break"@),
        spec.decreases is Some && !has_token(views(loop_body@), "break"@) && has_token(views(loop_body@), "continue"@) ==> (
            r matches Err(VerificationError::UnsupportedLoopControl { function: f, keyword: k }) && k@ == "continue"@),
        r matches Ok(v) ==> spec.decreases is Some && (spec.invariant matches Some(i) ==> views(v@) == seq![
            canonical_spec(i@)]) && (spec.invariant is None ==> v@.len() == 0),
        r matches Ok(v) ==> v@.len() <= 1,
        r is Ok ==> measure_nonnegative_spec(spec.decreases->0@, crate::discharge::opt_view(spec.invariant), params@),
        r is Ok && semantics is None ==> token_measure_spec(spec.decreases->0@, views(loop_body@)),
        r is Ok && !(options.solver is Z3) ==> (spec.invariant matches Some(inv) ==> ((exists|k: int| 0 <= k
            < contracts@.len() && equivalent_spec(#[trigger] contracts@[k]@, canonical_spec(initialized_spec(inv@,
            views(prefix@), params@)))) || trivially_true_spec(canonical_spec(initialized_spec(inv@, views(prefix@),
            params@)), params@))),
        r is Ok && semantics is None ==> (spec.invariant matches Some(inv) ==> invariant_kept_spec(inv@, views(loop_body@),
            params@)),
        r matches Err(e) ==> loop_error(e),
        semantics is None ==> (r matches Err(e) ==> !(e is SemanticExtractionIncomplete)),
        r matches Err(VerificationError::LoopInvariantNotPreserved { invariant: i, .. }) ==> spec.invariant matches Some(
            inv) && i@ == inv@ && !unsigned_invariant_spec(inv@, params@),
        r matches Err(VerificationError::LoopDecreasesNotDecreasing { measure: m, .. }) ==> spec.decreases matches Some(d)
            && m@ == d@ && (!measure_nonnegative_spec(d@, crate::discharge::opt_view(spec.invariant), params@)
            || !token_measure_spec(d@, views(loop_body@))),
        r matches Err(VerificationError::LoopInvariantNotEstablished { invariant: i, .. }) ==> spec.invariant matches Some(
            inv) && i@ == inv@ && (!(options.solver is Z3) ==> !invariant_established_spec(inv@, views(prefix@), contracts@,
            params@)),
        (spec.decreases matches Some(d) && semantics is None && !(options.solver is Z3) && !has_token(views(loop_body@),
            "break"@) && !has_token(views(loop_body@), "continue"@) && (spec.invariant matches Some(inv)
            ==> unsigned_invariant_spec(inv@, params@) && invariant_established_spec(inv@, views(prefix@), contracts@, params@))
            && measure_nonnegative_spec(d@, crate::discharge::opt_view(spec.invariant), params@) && token_measure_spec(d@,
            views(loop_body@))) ==> r is Ok,
{
    let measure = match &spec.decreases {
        Some(m) => m,
        None => return Err(VerificationError::LoopMissingDecreases { function: err_text(function) }),
    };
    if let Some(keyword) = loop_control_keyword(loop_body) {
        return Err(VerificationError::UnsupportedLoopControl { function: err_text(function), keyword: err_text(&chars_of(keyword)) });
    }
    let mut invariants: Vec<Vec<char>> = Vec::new();
    if let Some(inv) = &spec.invariant {
        match loop_invariant_preserved(inv, condition, loop_body, semantics, params) {
            LoopProof::Proved => {},
            LoopProof::Unproved => {
                return Err(VerificationError::LoopInvariantNotPreserved { function: err_text(function), invariant: err_text(inv) });
            },
            LoopProof::SemanticExtractionIncomplete => {
                return Err(extraction_error(function, "loop invariant", inv));
            },
        }
        invariants.push(canonical_condition(inv));
    }
    if !loop_measure_nonnegative(measure, &spec.invariant, params) {
        return Err(VerificationError::LoopDecreasesNotDecreasing { function: err_text(function), measure: err_text(measure) });
    }
    match loop_measure_decreases(measure, condition, loop_body, semantics) {
        LoopProof::Proved => {},
        LoopProof::Unproved => {
            return Err(VerificationError::LoopDecreasesNotDecreasing { function: err_text(function), measure: err_text(measure) });
        },
        LoopProof::SemanticExtractionIncomplete => {
            return Err(extraction_error(function, "loop decreases", measure));
        },
    }
    if let Some(inv) = &spec.invariant {
        if !loop_invariant_established(inv, prefix, contracts, params, options) {
            return Err(VerificationError::LoopInvariantNotEstablished { function: err_text(function), invariant: err_text(inv) });
        }
    }
    Ok(invariants)
}

/// The compiler reports a branch on the condition with an arm whose guard
/// negates it and is `fact` once canonical.
pub open spec fn exit_fact_reported(s: TrustFunctionSemantics, condition: Seq<char>, fact: Seq<char>) -> bool {
    exists|b: int, a: int| 0 <= b < s.branches@.len() && equivalent_spec(s.branches@[b].condition@, condition) && 0 <= a
        < s.branches@[b].arms@.len() && negates_spec(condition, #[trigger] s.branches@[b].arms@[a].guard@) && fact
        == canonical_spec(s.branches@[b].arms@[a].guard@)
}

/// The conditions the compiler reports for the loop's exit: the guards of
/// the arms of a branch on the loop condition that negate it.
/// Arm `a` of branch `b` is on the loop condition and its guard negates
/// it.
pub open spec fn exit_fact_due(s: TrustFunctionSemantics, condition: Seq<char>, b: int, a: int) -> bool {
    0 <= b < s.branches@.len() && equivalent_spec(s.branches@[b].condition@, condition) && 0 <= a
        < s.branches@[b].arms@.len() && negates_spec(condition, s.branches@[b].arms@[a].guard@)
}

proof fn lemma_contains_kept(before: Seq<Seq<char>>, after: Seq<Seq<char>>, v: Seq<char>, x: Seq<char>)
    requires
        before.contains(x),
        before.contains(v) ==> after == before,
        !before.contains(v) ==> after == before.push(v),
    ensures
        after.contains(x),
{
    let i = choose|i: int| 0 <= i < before.len() && before[i] == x;
    if !before.contains(v) {
        assert(after[i] == x);
    }
}

pub fn semantic_loop_exit_facts(semantics: Option<&TrustFunctionSemantics>, condition: &[char]) -> (r: Vec<Vec<char>>)
    ensures
        semantics is None ==> r@.len() == 0,
        semantics matches Some(s) ==> forall|k: int| 0 <= k < r@.len() ==> exit_fact_reported(*s, condition@, #[trigger] r@[k]@),
        semantics matches Some(s) ==> forall|b: int, a: int| #[trigger] exit_fact_due(*s, condition@, b, a) ==> views(r@).contains(
            canonical_spec(s.branches@[b].arms@[a].guard@)),
{
    let mut facts: Vec<Vec<char>> = Vec::new();
    let s = match semantics {
        Some(s) => s,
        None => return facts,
    };
    let mut b: usize = 0;
    while b < s.branches.len()
        invariant
            semantics == Some(s),
            forall|k: int| 0 <= k < facts@.len() ==> exit_fact_reported(*s, condition@, #[trigger] facts@[k]@),
            b <= s.branches@.len(),
            forall|bb: int, aa: int| bb < b && #[trigger] exit_fact_due(*s, condition@, bb, aa) ==> views(facts@).contains(
                canonical_spec(s.branches@[bb].arms@[aa].guard@)),
        decreases s.branches.len() - b,
    {
        let branch = &s.branches[b];
        if conditions_equivalent(&chars_of_string(&branch.condition), condition) {
            let mut a: usize = 0;
            while a < branch.arms.len()
                invariant
                    b < s.branches@.len(),
                    *branch == s.branches@[b as int],
                    equivalent_spec(branch.condition@, condition@),
                    forall|k: int| 0 <= k < facts@.len() ==> exit_fact_reported(*s, condition@, #[trigger] facts@[k]@),
                    a <= branch.arms@.len(),
                    forall|bb: int, aa: int| (bb < b || (bb == b && aa < a)) && #[trigger] exit_fact_due(*s, condition@, bb, aa)
                        ==> views(facts@).contains(canonical_spec(s.branches@[bb].arms@[aa].guard@)),
                decreases branch.arms.len() - a,
            {
                let guard = chars_of_string(&branch.arms[a].guard);
                if condition_negates(condition, &guard) {
                    let c = canonical_condition(&guard);
                    assert(exit_fact_reported(*s, condition@, c@)) by {
                        assert(s.branches@[b as int].arms@[a as int].guard@ == guard@);
                    }
                    let ghost before = facts@;
                    let ghost cv = c@;
                    push_unique(&mut facts, c);
                    assert forall|k: int| 0 <= k < facts@.len() implies exit_fact_reported(*s, condition@, #[trigger] facts@[k]@) by {
                        assert(views(facts@)[k] == facts@[k]@);
                        assert(views(before).len() == before.len());
                        if k < before.len() {
                            assert(views(before)[k] == before[k]@);
                            assert(facts@[k]@ == before[k]@);
                            assert(exit_fact_reported(*s, condition@, before[k]@));
                        } else {
                            assert(views(facts@).len() == facts@.len());
                            if views(before).contains(cv) {
                                assert(views(facts@) == views(before));
                            } else {
                                assert(views(facts@) == views(before).push(cv));
                                assert(views(facts@)[k] == cv);
                            }
                        }
                    }
                    assert forall|bb: int, aa: int| (bb < b || (bb == b && aa < a + 1)) && #[trigger] exit_fact_due(*s, condition@,
                        bb, aa) implies views(facts@).contains(canonical_spec(s.branches@[bb].arms@[aa].guard@)) by {
                        if bb == b && aa == a {
                            assert(s.branches@[b as int].arms@[a as int].guard@ == guard@);
                            if views(before).contains(cv) {
                            } else {
                                assert(views(facts@)[before.len() as int] == cv);
                            }
                        } else {
                            lemma_contains_kept(views(before), views(facts@), cv, canonical_spec(
                                s.branches@[bb].arms@[aa].guard@));
                        }
                    }
                } else {
                    assert(!negates_spec(condition@, s.branches@[b as int].arms@[a as int].guard@));
                }
                a += 1;
            }
        } else {
            assert(!equivalent_spec(s.branches@[b as int].condition@, condition@));
        }
        b += 1;
    }
    facts
}

/// What holds once a loop has exited: its condition, negated.
pub fn loop_exit_fact(condition: &[char]) -> (r: Option<Vec<char>>)
    ensures
        r is Some == negated_spec(condition@) is Some,
        r matches Some(t) ==> negated_spec(condition@) == Some(t@),
{
    negated_condition(condition)
}

/// `v` with each of `xs` added in turn unless already present.
pub open spec fn with_all_unique(v: Seq<Seq<char>>, xs: Seq<Seq<char>>) -> Seq<Seq<char>>
    decreases xs.len(),
{
    if xs.len() == 0 {
        v
    } else {
        crate::obligations::with_unique(with_all_unique(v, xs.drop_last()), xs.last())
    }
}

proof fn lemma_with_all_unique_push(v: Seq<Seq<char>>, xs: Seq<Seq<char>>, x: Seq<char>)
    ensures
        with_all_unique(v, xs.push(x)) == crate::obligations::with_unique(with_all_unique(v, xs), x),
{
    assert(xs.push(x).drop_last() =~= xs);
}

/// What one loop lets the code after it assume: its invariants, its
/// negated condition when no compiler facts are available, and the exit
/// facts the compiler reports, each canonical.
pub open spec fn fact_texts(f: LoopFact, semantic_available: bool) -> Seq<Seq<char>> {
    views(f.invariants@).map_values(|c: Seq<char>| canonical_spec(c)) + (if !semantic_available && negated_spec(
        f.condition@) is Some {
        seq![negated_spec(f.condition@)->0]
    } else {
        seq![]
    }) + views(f.semantic_exit_facts@).map_values(|c: Seq<char>| canonical_spec(c))
}

/// The facts of the loops, in order, each once.
pub open spec fn postcondition_facts_spec(facts: Seq<LoopFact>, semantic_available: bool) -> Seq<Seq<char>>
    decreases facts.len(),
{
    if facts.len() == 0 {
        seq![]
    } else {
        with_all_unique(postcondition_facts_spec(facts.drop_last(), semantic_available), fact_texts(facts.last(), semantic_available))
    }
}

/// The facts the loops give the code after them: each invariant, each
/// exit fact the compiler reports, and the negated loop condition when no
/// compiler facts are available; each once, in that order per loop.
pub fn loop_postcondition_facts(facts: &Vec<LoopFact>, semantic_available: bool) -> (r: Vec<Vec<char>>)
    ensures
        views(r@) == postcondition_facts_spec(facts@, semantic_available),
{
    let mut out: Vec<Vec<char>> = Vec::new();
    let mut i: usize = 0;
    while i < facts.len()
        invariant
            i <= facts@.len(),
            views(out@) == postcondition_facts_spec(facts@.subrange(0, i as int), semantic_available),
        decreases facts.len() - i,
    {
        let fact = &facts[i];
        let ghost prev = views(out@);
        let ghost inv_c = views(fact.invariants@).map_values(|c: Seq<char>| canonical_spec(c));
        let ghost neg = if !semantic_available && negated_spec(fact.condition@) is Some {
            seq![negated_spec(fact.condition@)->0]
        } else {
            seq![]
        };
        let ghost exits_c = views(fact.semantic_exit_facts@).map_values(|c: Seq<char>| canonical_spec(c));
        let mut j: usize = 0;
        while j < fact.invariants.len()
            invariant
                j <= fact.invariants@.len(),
                inv_c == views(fact.invariants@).map_values(|c: Seq<char>| canonical_spec(c)),
                views(out@) == with_all_unique(prev, inv_c.take(j as int)),
            decreases fact.invariants.len() - j,
        {
            proof {
                assert(inv_c.take(j + 1) =~= inv_c.take(j as int).push(inv_c[j as int]));
                lemma_with_all_unique_push(prev, inv_c.take(j as int), inv_c[j as int]);
            }
            push_unique(&mut out, canonical_condition(&fact.invariants[j]));
            j += 1;
        }
        assert(inv_c.take(inv_c.len() as int) =~= inv_c);
        if !semantic_available {
            if let Some(exit_fact) = loop_exit_fact(&fact.condition) {
                proof {
                    assert(inv_c + neg =~= inv_c.push(exit_fact@));
                    lemma_with_all_unique_push(prev, inv_c, exit_fact@);
                }
                push_unique(&mut out, exit_fact);
            } else {
                assert(inv_c + neg =~= inv_c);
            }
        } else {
            assert(inv_c + neg =~= inv_c);
        }
        let ghost mid = inv_c + neg;
        let mut j: usize = 0;
        while j < fact.semantic_exit_facts.len()
            invariant
                j <= fact.semantic_exit_facts@.len(),
                exits_c == views(fact.semantic_exit_facts@).map_values(|c: Seq<char>| canonical_spec(c)),
                views(out@) == with_all_unique(prev, mid + exits_c.take(j as int)),
            decreases fact.semantic_exit_facts.len() - j,
        {
            proof {
                assert(mid + exits_c.take(j + 1) =~= (mid + exits_c.take(j as int)).push(exits_c[j as int]));
                lemma_with_all_unique_push(prev, mid + exits_c.take(j as int), exits_c[j as int]);
            }
            push_unique(&mut out, canonical_condition(&fact.semantic_exit_facts[j]));
            j += 1;
        }
        proof {
            assert(exits_c.take(exits_c.len() as int) =~= exits_c);
            assert(fact_texts(facts@[i as int], semantic_available) == mid + exits_c);
            assert(facts@.subrange(0, i + 1).drop_last() =~= facts@.subrange(0, i as int));
        }
        i += 1;
    }
    assert(facts@.subrange(0, facts@.len() as int) =~= facts@);
    out
}

/// A loop whose exit the tokens can describe but for which the compiler
/// reported no exit fact; `None` when no compiler facts are given.
#[verifier::loop_isolation(false)]
pub fn semantic_loop_exit_extraction_gap(facts: &Vec<LoopFact>, semantics: Option<&TrustFunctionSemantics>) -> (r: Option<Vec<char>>)
    ensures
        semantics is None ==> r is None,
        semantics is Some ==> (r is None <==> forall|i: int| 0 <= i < facts@.len() ==> !(negated_spec(
            (#[trigger] facts@[i]).condition@) is Some && facts@[i].semantic_exit_facts@.len() == 0)),
        r matches Some(c) ==> exists|i: int| 0 <= i < facts@.len() && c@ == (#[trigger] facts@[i]).condition@ && negated_spec(
            facts@[i].condition@) is Some && facts@[i].semantic_exit_facts@.len() == 0,
{
    if semantics.is_none() {
        return None;
    }
    let mut i: usize = 0;
    while i < facts.len()
        invariant
            i <= facts@.len(),
            forall|j: int| 0 <= j < i ==> !(negated_spec((#[trigger] facts@[j]).condition@) is Some
                && facts@[j].semantic_exit_facts@.len() == 0),
        decreases facts.len() - i,
    {
        if loop_exit_fact(&facts[i].condition).is_some() && facts[i].semantic_exit_facts.len() == 0 {
            let c = copy(&facts[i].condition);
            assert(c@ == facts@[i as int].condition@);
            return Some(c);
        }
        i += 1;
    }
    None
}

/// `while x > 0` over the returned variable `x` shows a postcondition
/// `x == 0`: the expected value must be `0`.
#[verifier::loop_isolation(false)]
/// `while x > 0` at token `i`.
pub open spec fn while_positive_at(t: Seq<Seq<char>>, x: Seq<char>, i: int) -> bool {
    0 <= i && i + 4 <= t.len() && t[i] == "while"@ && t[i + 1] == x && t[i + 2] == ">"@ && t[i + 3] == "0"@
}

pub fn loop_exit_proves_value(body: &[char], return_expression: &[char], expected: &[char]) -> (r: bool)
    ensures
        r ==> expected@ == "0"@,
        r == (expected@ == "0"@ && exists|i: int| #[trigger] while_positive_at(tokens_spec(body@), return_expression@, i)),
{
    if !is_lit(expected, "0") {
        return false;
    }
    let t = tokens(body);
    let mut i: usize = 0;
    while i < t.len() && t.len() - i >= 4
        invariant
            expected@ == "0"@,
            views(t@) == tokens_spec(body@),
            forall|j: int| 0 <= j < i ==> !#[trigger] while_positive_at(views(t@), return_expression@, j),
        decreases t.len() - i,
    {
        if tok_is(&t, i, "while") && tok_eq(&t, i + 1, return_expression) && tok_is(&t, i + 2, ">") && tok_is(&t, i + 3, "0") {
            assert(while_positive_at(views(t@), return_expression@, i as int));
            return true;
        }
        assert(views(t@)[i as int] == t@[i as int]@ && views(t@)[i + 1] == t@[i + 1]@ && views(t@)[i + 2] == t@[i + 2]@
            && views(t@)[i + 3] == t@[i + 3]@);
        i += 1;
    }
    assert forall|j: int| !#[trigger] while_positive_at(views(t@), return_expression@, j) by {}
    false
}

/// The position of the first `while` token, when no `loop_spec` token
/// comes before it.
pub open spec fn unspecified_first_loop(t: Seq<Seq<char>>, w: int) -> bool {
    &&& 0 <= w < t.len()
    &&& t[w] == "while"@
    &&& forall|j: int| 0 <= j < w ==> #[trigger] t[j] != "while"@ && t[j] != "loop_spec"@
}

/// Checks every `while` loop of the body: each must be preceded by exactly
/// one `loop_spec!`, and a `loop_spec!` must be followed by a loop. Returns
/// what each loop lets the rest of the body assume.
pub fn verify_loops(
    body: &[char],
    function: &[char],
    semantics: Option<&TrustFunctionSemantics>,
    contracts: &Vec<Vec<char>>,
    params: &[Param],
    options: VerificationOptions,
) -> (r: Result<Vec<LoopFact>, VerificationError>)
    ensures
        r matches Err(e) ==> e.subject_spec() == function@,
        !has_token(tokens_spec(body@), "while"@) && !has_token(tokens_spec(body@), "loop_spec"@) ==> (r matches Ok(
            f) && f@.len() == 0),
        forall|w: int| unspecified_first_loop(tokens_spec(body@), w) ==> (r matches Err(
            VerificationError::LoopMissingSpec { function: f }) && f@ == function@),
        r matches Ok(f) ==> forall|k: int| 0 <= k < f@.len() ==> (#[trigger] f@[k]).invariants@.len() <= 1,
        r matches Err(e) ==> loop_error(e),
        semantics is None ==> (r matches Err(e) ==> !(e is SemanticExtractionIncomplete)),
        r matches Ok(f) ==> f@.len() == loop_positions(tokens_spec(body@), 0).len() && forall|k: int| 0 <= k < f@.len()
            ==> loop_fact_for(#[trigger] f@[k], tokens_spec(body@), params@, semantics is None, loop_positions(tokens_spec(
            body@), 0)[k]),
{
    let t = tokens(body);
    let ghost tv = views(t@);
    let mut facts: Vec<LoopFact> = Vec::new();
    let mut pending: Option<LoopSpec> = None;
    let ghost mut pso: int = 0;
    let ghost mut psc: int = 0;
    let ghost mut ws: Seq<int> = seq![];
    let mut idx: usize = 0;
    assert(ws + loop_positions(tv, 0) =~= loop_positions(tv, 0));
    while idx < t.len()
        invariant
            tv == views(t@),
            tv == tokens_spec(body@),
            idx <= t.len(),
            forall|k: int| 0 <= k < facts@.len() ==> (#[trigger] facts@[k]).invariants@.len() <= 1,
            !has_token(tv, "while"@) && !has_token(tv, "loop_spec"@) ==> facts@.len() == 0 && pending is None,
            forall|w: int| unspecified_first_loop(tv, w) ==> idx <= w && facts@.len() == 0 && pending is None
                && forall|j: int| 0 <= j < idx ==> tv[j] != "loop_spec"@,
            pending matches Some(ps) ==> psc < idx && block_states(tv, pso, psc, crate::discharge::opt_view(ps.invariant),
                crate::discharge::opt_view(ps.decreases)),
            facts@.len() == ws.len(),
            loop_positions(tv, 0) == ws + loop_positions(tv, idx as int),
            forall|k: int| 0 <= k < facts@.len() ==> loop_fact_for(#[trigger] facts@[k], tv, params@, semantics is None, ws[k]),
        decreases t.len() - idx,
    {
        if let Some(open_idx) = loop_spec_open_idx(&t, idx) {
            proof {
                assert(tv[open_idx - 2] == "loop_spec"@);
                assert(has_token(tv, "loop_spec"@));
                assert forall|w: int| unspecified_first_loop(tv, w) implies false by {
                    if w <= open_idx {
                        assert(tv[w] != "while"@);
                    } else {
                        assert(tv[open_idx - 2] != "loop_spec"@);
                    }
                }
            }
            match matching_token_group(&t, open_idx, '{', '}') {
                Some(close_idx) => {
                    if pending.is_some() {
                        return Err(VerificationError::LoopAmbiguousSpec { function: err_text(function) });
                    }
                    let block = token_range(&t, open_idx + 1, close_idx);
                    let ps = parse_loop_spec(&block);
                    proof {
                        pso = open_idx as int;
                        psc = close_idx as int;
                        assert(crate::segments::loop_spec_open_spec(tv, idx as int) == Some(open_idx as int));
                        assert(views(block@) == tv.subrange(pso + 1, psc));
                        assert(loop_positions(tv, idx as int) == loop_positions(tv, close_idx + 1));
                    }
                    pending = Some(ps);
                    idx = close_idx + 1;
                },
                None => {
                    assert(loop_positions(tv, idx as int) == loop_positions(tv, idx + 1));
                    idx += 1;
                },
            }
            continue;
        }
        if !tok_is(&t, idx, "while") {
            assert(loop_positions(tv, idx as int) == loop_positions(tv, idx + 1));
            idx += 1;
            continue;
        }
        proof {
            assert(tv[idx as int] == "while"@);
            assert(has_token(tv, "while"@));
        }
        let spec = match pending {
            Some(spec) => spec,
            None => return Err(VerificationError::LoopMissingSpec { function: err_text(function) }),
        };
        let ghost so = pso;
        let ghost sc = psc;
        assert(sc < idx && block_states(tv, so, sc, crate::discharge::opt_view(spec.invariant), crate::discharge::opt_view(
            spec.decreases)));
        pending = None;
        let mut body_open = idx + 1;
        while body_open < t.len() && !tok_char(&t, body_open, '{')
            invariant
                idx < body_open <= t.len(),
                tv == views(t@),
                crate::frontend::first_brace_from(tv, idx + 1) == crate::frontend::first_brace_from(tv, body_open as int),
            decreases t.len() - body_open,
        {
            body_open += 1;
        }
        if body_open >= t.len() {
            assert(loop_positions(tv, idx as int) == loop_positions(tv, idx + 1));
            idx += 1;
            continue;
        }
        assert(crate::frontend::first_brace_from(tv, body_open as int) == Some(body_open as int));
        let body_close = match matching_token_group(&t, body_open, '{', '}') {
            Some(c) => c,
            None => {
                assert(loop_positions(tv, idx as int) == loop_positions(tv, idx + 1));
                idx += 1;
                continue;
            },
        };
        assert(loop_positions(tv, idx as int) == seq![idx as int] + loop_positions(tv, body_close + 1));
        let condition = token_expression(&token_range(&t, idx + 1, body_open));
        let loop_body = token_range(&t, body_open + 1, body_close);
        let prefix = token_range(&t, 0, idx);
        let invariants = match verify_loop_spec(&spec, &condition, &loop_body, &prefix, function, semantics, contracts, params, options) {
            Ok(v) => v,
            Err(e) => return Err(e),
        };
        let semantic_exit_facts = semantic_loop_exit_facts(semantics, &condition);
        let ghost before = facts@;
        let fact = LoopFact { condition, invariants, semantic_exit_facts };
        proof {
            assert(crate::frontend::first_brace_from(tv, body_open as int) == Some(body_open as int));
            let m = spec.decreases->0@;
            let inv = crate::discharge::opt_view(spec.invariant);
            assert(views(loop_body@) == tv.subrange(body_open + 1, body_close as int));
            assert(0 <= idx < tv.len() && tv[idx as int] == "while"@);
            assert(sc < idx);
            assert(block_states(tv, so, sc, inv, Some(m)));
            assert(crate::tokens::token_group_close(tv, '{', '}', body_open as int, 0) == Some(body_close as int));
            assert(fact.condition@ == crate::tokens::joined(tv.subrange(idx + 1, body_open as int)));
            assert(views(fact.invariants@) == (match inv {
                Some(i) => seq![canonical_spec(i)],
                None => seq![],
            }));
            assert(measure_nonnegative_spec(m, inv, params@));
            assert(semantics is None ==> token_measure_spec(m, tv.subrange(body_open + 1, body_close as int)));
            assert(loop_fact_at(fact, tv, params@, semantics is None, idx as int, body_open as int, body_close as int, so, sc,
                inv, m));
        }
        facts.push(fact);
        let ghost ws_before = ws;
        proof {
            ws = ws.push(idx as int);
            assert(ws_before + (seq![idx as int] + loop_positions(tv, body_close + 1)) =~= ws + loop_positions(tv, body_close + 1));
        }
        assert forall|k: int| 0 <= k < facts@.len() implies (#[trigger] facts@[k]).invariants@.len() <= 1 && loop_fact_for(
            facts@[k], tv, params@, semantics is None, ws[k]) by {
            if k < before.len() {
                assert(facts@[k] == before[k]);
            }
        }
        idx = body_close + 1;
    }
    if pending.is_some() {
        return Err(VerificationError::LoopMissingSpec { function: err_text(function) });
    }
    assert(ws + loop_positions(tv, idx as int) =~= ws);
    Ok(facts)
}

} // verus!
