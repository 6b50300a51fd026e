//! Deciding obligations from the contracts: by the literal forms the
//! built-in matcher knows, and with Z3 when the options select it.

use crate::arith::{
    any_contract_is, constant_with_type, contract_is, contracts_prove_not_min,
    contracts_prove_not_negative_one, integer_constant_value, is_supported_integer,
    is_unsigned_integer, join3, max_value, min_bound_with_type, min_value, param_type,
    AddObligation, DivOverflowObligation, MulObligation, NegObligation, SubObligation,
};
use crate::solver::{self, Param, ProofResult, SolverBackend, VerificationOptions};
use crate::text::{append, append_lit, chars_of, clone_texts, decimal_i128, parse_i128, same, slice_of, views};
use crate::arith::{constant_with_type_spec, int_type_spec, max_spec, min_bound_with_type_spec, min_spec, param_type_spec};
use crate::text::{signed_decimal_spec, strip_ws};
use crate::tokens::{canonical_spec, comparison_op_text, comparison_parts, flipped_inequality, normalize, split_parts, texts_concat};
use vstd::prelude::*;

verus! {

/// The contracts followed by the obligation's own assumptions.
pub fn contracts_with_assumptions(contracts: &Vec<Vec<char>>, assumptions: &Vec<Vec<char>>) -> (r: Vec<Vec<char>>)
    ensures
        views(r@) == views(contracts@) + views(assumptions@),
{
    texts_concat(contracts, assumptions)
}

/// The parameters whose type is a checked integer type.
/// The parameters of checked integer types, in order.
pub open spec fn int_params_spec(ps: Seq<Param>) -> Seq<(Seq<char>, Seq<char>)>
    decreases ps.len(),
{
    if ps.len() == 0 {
        seq![]
    } else {
        let before = int_params_spec(ps.drop_last());
        if crate::arith::int_type_spec(ps.last().ty@) {
            before.push((ps.last().name@, ps.last().ty@))
        } else {
            before
        }
    }
}

pub fn integer_params(params: &[Param]) -> (r: Vec<Param>)
    ensures
        forall|k: int| 0 <= k < r@.len() ==> crate::arith::int_type_spec(#[trigger] r@[k].ty@),
        crate::types::param_pairs(r@) == int_params_spec(params@),
{
    let mut out: Vec<Param> = Vec::new();
    let mut i: usize = 0;
    while i < params.len()
        invariant
            forall|k: int| 0 <= k < out@.len() ==> crate::arith::int_type_spec(#[trigger] out@[k].ty@),
            i <= params@.len(),
            crate::types::param_pairs(out@) == int_params_spec(params@.subrange(0, i as int)),
        decreases params.len() - i,
    {
        proof {
            assert(params@.subrange(0, i + 1).drop_last() =~= params@.subrange(0, i as int));
        }
        let ghost before = out@;
        if is_supported_integer(&params[i].ty) {
            let ty = slice_of(&params[i].ty, 0, params[i].ty.len());
            assert(ty@ =~= params@[i as int].ty@);
            let name = slice_of(&params[i].name, 0, params[i].name.len());
            assert(name@ =~= params@[i as int].name@);
            out.push(Param { name, ty });
            assert(crate::types::param_pairs(out@) =~= crate::types::param_pairs(before).push((params@[i as int].name@,
                params@[i as int].ty@)));
        }
        i += 1;
    }
    assert(params@.subrange(0, params@.len() as int) =~= params@);
    out
}

/// The text parses as a predicate that the contracts imply for every
/// assignment within the integer parameters' ranges, as long as different
/// names get different Z3 symbols.
pub open spec fn z3_valid_text(text: Seq<char>, cs: Seq<Seq<char>>, params: Seq<Param>, w: Option<u32>) -> bool {
    solver::predicate_spec(text, w) matches Some(c) && (solver::pair_question_distinct(cs, c, int_params_spec(params), w)
        ==> solver::pair_question_valid(cs, c, int_params_spec(params), w))
}

/// A question the prover takes to Z3: the text parses, names only integer
/// parameters, and its conclusion's constants are handed over directly.
pub open spec fn z3_in_scope(text: Seq<char>, cs: Seq<Seq<char>>, params: Seq<Param>, w: Option<u32>) -> bool {
    solver::predicate_spec(text, w) matches Some(c) && !solver::question_names_unknown(cs, c, solver::pair_names(
        int_params_spec(params)), w) && solver::buildable(c.left) && solver::buildable(c.right)
}

/// Z3's answer to "contracts imply conclusion": `None` when the options
/// do not select Z3 or the question is outside what it is asked.
pub fn z3_proves_conclusion(conclusion: &[char], contracts: &Vec<Vec<char>>, params: &[Param], options: VerificationOptions) -> (r: Option<bool>)
    ensures
        !(options.solver matches SolverBackend::Z3) ==> r is None,
        options.solver is Z3 && z3_in_scope(conclusion@, views(contracts@), params@, options.target_pointer_width) ==> r is Some,
        r is Some ==> options.solver is Z3 && solver::predicate_spec(conclusion@, options.target_pointer_width) is Some
            && !solver::question_names_unknown(views(contracts@), solver::predicate_spec(conclusion@,
            options.target_pointer_width)->0, solver::pair_names(int_params_spec(params@)), options.target_pointer_width),
        r == Some(true) ==> z3_valid_text(conclusion@, views(contracts@), params@, options.target_pointer_width),
{
    if !matches!(options.solver, SolverBackend::Z3) {
        return None;
    }
    let p = integer_params(params);
    proof {
        solver::lemma_param_pairs(p@, options.target_pointer_width);
    }
    match solver::prove_integer_predicate_chars(contracts, conclusion, &p, options.target_pointer_width, options.timeout_ms) {
        ProofResult::Proved => Some(true),
        ProofResult::Unproved => Some(false),
        ProofResult::Unsupported => None,
    }
}

fn z3_says_yes(conclusion: &[char], contracts: &Vec<Vec<char>>, params: &[Param], options: VerificationOptions) -> (r: bool)
    ensures
        !(options.solver matches SolverBackend::Z3) ==> !r,
        r ==> z3_valid_text(conclusion@, views(contracts@), params@, options.target_pointer_width),
{
    match z3_proves_conclusion(conclusion, contracts, params, options) {
        Some(b) => b,
        None => false,
    }
}

/// An unsigned integer parameter of this name.
pub open spec fn unsigned_param(name: Seq<char>, params: Seq<Param>) -> bool {
    param_type_spec(name, params) matches Some(t) && (t == "u32"@ || t == "u64"@ || t == "usize"@)
}

/// `contract` is `v < n` or `n > v` with `n` an unsigned parameter.
pub open spec fn bounds_below_unsigned_spec(v: Seq<char>, contract: Seq<char>, params: Seq<Param>) -> bool {
    match split_parts(canonical_spec(contract)) {
        Some((l, k, r)) => (comparison_op_text(k) == "<"@ && l == v && unsigned_param(r, params)) || (
        comparison_op_text(k) == ">"@ && r == v && unsigned_param(l, params)),
        None => false,
    }
}

/// Whether `contract` bounds `variable` strictly below an unsigned
/// parameter (`v<n` or `n>v`).
pub fn contract_bounds_variable_below_unsigned(variable: &[char], contract: &[char], params: &[Param]) -> (r: bool)
    ensures
        r == bounds_below_unsigned_spec(variable@, contract@, params@),
{
    proof {
        reveal_strlit("<");
        reveal_strlit(">");
        assert("<"@ != ">"@) by { assert("<"@[0] != ">"@[0]); }
    }
    let (left, op, right) = match comparison_parts(contract) {
        Some(p) => p,
        None => return false,
    };
    if crate::text::is_lit(&op, "<") {
        same(&left, variable) && match param_type(&right, params) {
            Some(t) => is_unsigned_integer(&t),
            None => false,
        }
    } else if crate::text::is_lit(&op, ">") {
        same(&right, variable) && match param_type(&left, params) {
            Some(t) => is_unsigned_integer(&t),
            None => false,
        }
    } else {
        false
    }
}

/// The text of an optional type.
pub open spec fn opt_view(t: Option<Vec<char>>) -> Option<Seq<char>> {
    match t {
        Some(v) => Some(v@),
        None => None,
    }
}

/// What the built-in matcher accepts for `v + c` of type `ty`: `c` is `0`;
/// or a contract is `v<T::MAX` (when `c` is `1`), bounds `v` below an
/// unsigned parameter (when `c` is `1` and `T` unsigned), or is `v<=b` with
/// `b = T::MAX - c` written typed or in decimal.
pub open spec fn addition_builtin_spec(v: Seq<char>, ty: Option<Seq<char>>, constant: Option<i128>, contracts: Seq<Seq<char>>, params: Seq<Param>, w: Option<u32>) -> bool {
    match constant {
        None => false,
        Some(c) => if c == 0 {
            true
        } else {
            match ty {
                None => false,
                Some(t) => match max_spec(t, w) {
                    None => false,
                    Some(m) => {
                        let b = m - c;
                        if b < i128::MIN || b > i128::MAX {
                            false
                        } else {
                            ||| c == 1 && contracts.contains(v + "<"@ + t + "::MAX"@)
                            ||| c == 1 && (t == "u32"@ || t == "u64"@ || t == "usize"@) && exists|k: int| 0 <= k < contracts.len() && bounds_below_unsigned_spec(v, #[trigger] contracts[k], params)
                            ||| contracts.contains(v + "<="@ + constant_with_type_spec(b, t))
                            ||| contracts.contains(v + "<="@ + signed_decimal_spec(b))
                        }
                    },
                },
            }
        },
    }
}

/// Z3 showed `v + c` within the maximum of `ty`: every assignment within
/// the integer parameters' ranges that satisfies the contracts has
/// `v <= max - c`, as long as different names get different Z3 symbols.
pub open spec fn addition_z3_valid(v: Seq<char>, ty: Option<Seq<char>>, constant: Option<i128>, cs: Seq<Seq<char>>, params: Seq<Param>, w: Option<u32>) -> bool {
    constant matches Some(c) && ty matches Some(t) && solver::max_spec(t, w) matches Some(m) && (solver::pair_question_distinct(cs,
        solver::addition_conclusion(v, m - c), int_params_spec(params), w) ==> solver::pair_question_valid(cs,
        solver::addition_conclusion(v, m - c), int_params_spec(params), w))
}

/// Whether `variable + constant` is known not to overflow.
pub fn addition_obligation_proved(ob: &AddObligation, contracts: &Vec<Vec<char>>, params: &[Param], options: VerificationOptions) -> (r: bool)
    ensures
        ob.constant is None ==> !r,
        ob.constant == Some(0i128) ==> r,
        !(options.solver is Z3) ==> r == addition_builtin_spec(ob.variable@, opt_view(ob.ty), ob.constant, views(contracts@) + views(ob.assumptions@), params@, options.target_pointer_width),
        r ==> addition_builtin_spec(ob.variable@, opt_view(ob.ty), ob.constant, views(contracts@) + views(ob.assumptions@),
            params@, options.target_pointer_width) || (options.solver is Z3 && addition_z3_valid(ob.variable@, opt_view(ob.ty),
            ob.constant, views(contracts@) + views(ob.assumptions@), params@, options.target_pointer_width)),
        options.solver is Z3 && (ob.constant matches Some(c) && opt_view(ob.ty) matches Some(t) && solver::max_spec(t,
            options.target_pointer_width) matches Some(m) && c >= 0 && solver::question_names_unknown(views(contracts@) + views(
            ob.assumptions@), solver::addition_conclusion(ob.variable@, m - c), solver::pair_names(int_params_spec(params@)),
            options.target_pointer_width)) ==> r == addition_builtin_spec(ob.variable@, opt_view(ob.ty), ob.constant, views(
            contracts@) + views(ob.assumptions@), params@, options.target_pointer_width),
{
    let contracts = contracts_with_assumptions(contracts, &ob.assumptions);
    let constant = match ob.constant {
        Some(c) => c,
        None => return false,
    };
    if constant == 0 {
        return true;
    }
    let ty = match &ob.ty {
        Some(t) => t,
        None => return false,
    };
    let max = match max_value(ty, options.target_pointer_width) {
        Some(m) => m,
        None => return false,
    };
    let required_bound = match max.checked_sub(constant) {
        Some(b) => b,
        None => return false,
    };
    let mut lt_exact = slice_of(&ob.variable, 0, ob.variable.len());
    append_lit(&mut lt_exact, "<");
    append(&mut lt_exact, ty);
    append_lit(&mut lt_exact, "::MAX");
    assert(lt_exact@ =~= ob.variable@ + "<"@ + ty@ + "::MAX"@);
    let le_required = join3(&ob.variable, "<=", &constant_with_type(required_bound, ty));
    let le_unqualified = join3(&ob.variable, "<=", &decimal_i128(required_bound));
    let ghost all = views(contracts@);
    if matches!(options.solver, SolverBackend::Z3) {
        let p = integer_params(params);
        proof {
            solver::lemma_param_pairs(p@, options.target_pointer_width);
        }
        let answer = solver::prove_addition_overflow_safety_chars(&ob.variable, ty, constant, &contracts, &p, options.target_pointer_width, options.timeout_ms);
        match answer {
            ProofResult::Proved => {
                proof {
                    let cs = views(contracts@);
                    let c = solver::addition_conclusion(ob.variable@, solver::max_spec(ty@, options.target_pointer_width)->0 - constant);
                    assert(solver::question_distinct(cs, c, p@, options.target_pointer_width) ==> solver::question_valid(cs, c, p@,
                        options.target_pointer_width));
                    assert(solver::question_distinct(cs, c, p@, options.target_pointer_width) == solver::pair_question_distinct(cs,
                        c, int_params_spec(params@), options.target_pointer_width));
                    assert(solver::question_valid(cs, c, p@, options.target_pointer_width) == solver::pair_question_valid(cs, c,
                        int_params_spec(params@), options.target_pointer_width));
                    assert(opt_view(ob.ty) == Some(ty@));
                    assert(ob.constant == Some(constant));
                    assert(addition_z3_valid(ob.variable@, opt_view(ob.ty), ob.constant, cs, params@,
                        options.target_pointer_width));
                }
                return true;
            },
            ProofResult::Unproved => return false,
            ProofResult::Unsupported => {},
        }
    }
    if constant == 1 && contract_is(&contracts, &lt_exact) {
        return true;
    }
    let mut bounded = false;
    if constant == 1 && is_unsigned_integer(ty) {
        let mut i: usize = 0;
        while i < contracts.len() && !bounded
            invariant
                i <= contracts@.len(),
                !bounded ==> forall|k: int| 0 <= k < i ==> !bounds_below_unsigned_spec(ob.variable@, #[trigger] views(contracts@)[k], params@),
                bounded ==> exists|k: int| 0 <= k < contracts@.len() && bounds_below_unsigned_spec(ob.variable@, #[trigger] views(contracts@)[k], params@),
            decreases contracts.len() - i + if bounded { 0int } else { 1int },
        {
            if contract_bounds_variable_below_unsigned(&ob.variable, &contracts[i], params) {
                assert(bounds_below_unsigned_spec(ob.variable@, views(contracts@)[i as int], params@));
                bounded = true;
            } else {
                i += 1;
            }
        }
    }
    if bounded {
        return true;
    }
    proof {
        let cs = views(contracts@);
        assert(!(constant == 1 && cs.contains(ob.variable@ + "<"@ + ty@ + "::MAX"@)));
        if constant == 1 && (ty@ == "u32"@ || ty@ == "u64"@ || ty@ == "usize"@) {
            assert(!exists|k: int| 0 <= k < cs.len() && bounds_below_unsigned_spec(ob.variable@, #[trigger] cs[k], params@));
        }
    }
    contract_is(&contracts, &le_required) || contract_is(&contracts, &le_unqualified)
}

/// What the built-in matcher accepts for `v - c` of type `ty`: `c` is `0`;
/// or a contract is `v>T::MIN` (when `c` is `1`), `v>0` (when `c` is `1`
/// and `T` is `usize`), or `v>=b` with `b = T::MIN + c` written typed or in
/// decimal. For `v - rhs`: `v>0` when `rhs` is `1`, or both `v>=rhs` and
/// `rhs>=0`.
pub open spec fn subtraction_builtin_spec(v: Seq<char>, ty: Option<Seq<char>>, constant: Option<i128>, rhs: Option<Seq<char>>, cs: Seq<Seq<char>>) -> bool {
    match constant {
        Some(c) => if c == 0 {
            true
        } else {
            match ty {
                None => false,
                Some(t) => match min_spec(t) {
                    None => false,
                    Some(m) => {
                        let b = m + c;
                        if b < i128::MIN || b > i128::MAX {
                            false
                        } else {
                            ||| c == 1 && cs.contains(v + ">"@ + t + "::MIN"@)
                            ||| t == "usize"@ && c == 1 && cs.contains(strip_ws(v + ">"@ + "0"@))
                            ||| cs.contains(v + ">="@ + min_bound_with_type_spec(b, t))
                            ||| cs.contains(v + ">="@ + signed_decimal_spec(b))
                        }
                    },
                },
            }
        },
        None => match rhs {
            None => false,
            Some(rh) => (rh == "1"@ && cs.contains(strip_ws(v + ">"@ + "0"@))) || (cs.contains(v + ">="@ + rh)
                && cs.contains(rh + ">="@ + "0"@)),
        },
    }
}

/// Z3 showed `v - c` within the minimum of `ty` (`v >= min + c`), or for
/// `v - rhs` both `v >= rhs` and `rhs >= 0`.
pub open spec fn subtraction_z3_valid(v: Seq<char>, ty: Option<Seq<char>>, constant: Option<i128>, rhs: Option<Seq<char>>, cs: Seq<Seq<char>>, params: Seq<Param>, w: Option<u32>) -> bool {
    match constant {
        Some(c) => ty matches Some(t) && min_spec(t) matches Some(m) && z3_valid_text(v + ">="@ + signed_decimal_spec(m + c),
            cs, params, w),
        None => rhs matches Some(rh) && z3_valid_text(v + ">="@ + rh, cs, params, w) && z3_valid_text(rh + ">="@ + "0"@, cs,
            params, w),
    }
}

/// Whether `variable - constant` (or `variable - rhs`) is known not to
/// overflow.
pub fn subtraction_obligation_proved(ob: &SubObligation, contracts: &Vec<Vec<char>>, params: &[Param], options: VerificationOptions) -> (r: bool)
    ensures
        ob.constant == Some(0i128) ==> r,
        !(options.solver is Z3) ==> r == subtraction_builtin_spec(ob.variable@, opt_view(ob.ty), ob.constant, opt_view(ob.rhs), views(contracts@) + views(ob.assumptions@)),
        r ==> subtraction_builtin_spec(ob.variable@, opt_view(ob.ty), ob.constant, opt_view(ob.rhs), views(contracts@) + views(
            ob.assumptions@)) || (options.solver is Z3 && subtraction_z3_valid(ob.variable@, opt_view(ob.ty), ob.constant,
            opt_view(ob.rhs), views(contracts@) + views(ob.assumptions@), params@, options.target_pointer_width)),
        subtraction_builtin_spec(ob.variable@, opt_view(ob.ty), ob.constant, opt_view(ob.rhs), views(contracts@) + views(
            ob.assumptions@)) ==> r,
{
    let contracts = contracts_with_assumptions(contracts, &ob.assumptions);
    if let Some(constant) = ob.constant {
        if constant == 0 {
            return true;
        }
        let ty = match &ob.ty {
            Some(t) => t,
            None => return false,
        };
        let min = match min_value(ty) {
            Some(m) => m,
            None => return false,
        };
        let required_bound = match min.checked_add(constant) {
            Some(b) => b,
            None => return false,
        };
        let mut gt_min = slice_of(&ob.variable, 0, ob.variable.len());
        append_lit(&mut gt_min, ">");
        append(&mut gt_min, ty);
        append_lit(&mut gt_min, "::MIN");
        assert(gt_min@ =~= ob.variable@ + ">"@ + ty@ + "::MIN"@);
        let ge_required = join3(&ob.variable, ">=", &min_bound_with_type(required_bound, ty));
        let ge_unqualified = join3(&ob.variable, ">=", &decimal_i128(required_bound));
        if z3_says_yes(&ge_unqualified, &contracts, params, options) {
            return true;
        }
        if constant == 1 && contract_is(&contracts, &gt_min) {
            return true;
        }
        if crate::text::is_lit(ty, "usize") && constant == 1 {
            let pos = normalize(&join3(&ob.variable, ">", &chars_of("0")));
            if contract_is(&contracts, &pos) {
                return true;
            }
        }
        return contract_is(&contracts, &ge_required) || contract_is(&contracts, &ge_unqualified);
    }
    let rhs = match &ob.rhs {
        Some(r) => r,
        None => return false,
    };
    let ge_rhs = join3(&ob.variable, ">=", rhs);
    let rhs_nonnegative = join3(rhs, ">=", &chars_of("0"));
    if crate::text::is_lit(rhs, "1") {
        let pos = normalize(&join3(&ob.variable, ">", &chars_of("0")));
        if contract_is(&contracts, &pos) {
            return true;
        }
    }
    if z3_says_yes(&ge_rhs, &contracts, params, options) && z3_says_yes(&rhs_nonnegative, &contracts, params, options) {
        return true;
    }
    contract_is(&contracts, &ge_rhs) && contract_is(&contracts, &rhs_nonnegative)
}

/// What the built-in matcher accepts for `-v` of type `ty`: a contract
/// `v>T::MIN`, or `v>=b` with `b = T::MIN + 1` written typed or in decimal.
pub open spec fn negation_builtin_spec(v: Seq<char>, ty: Seq<char>, cs: Seq<Seq<char>>) -> bool {
    match min_spec(ty) {
        None => false,
        Some(m) => cs.contains(v + ">"@ + ty + "::MIN"@) || cs.contains(v + ">="@ + min_bound_with_type_spec(m + 1, ty))
            || cs.contains(v + ">="@ + signed_decimal_spec(m + 1)),
    }
}

/// Whether `-variable` is known not to overflow.
pub fn negation_obligation_proved(ob: &NegObligation, contracts: &Vec<Vec<char>>, params: &[Param], options: VerificationOptions) -> (r: bool)
    ensures
        !(options.solver is Z3) ==> r == negation_builtin_spec(ob.variable@, ob.ty@, views(contracts@) + views(ob.assumptions@)),
        r ==> negation_builtin_spec(ob.variable@, ob.ty@, views(contracts@) + views(ob.assumptions@)) || (options.solver is Z3
            && (min_spec(ob.ty@) matches Some(m) && z3_valid_text(ob.variable@ + ">="@ + signed_decimal_spec(m + 1), views(
            contracts@) + views(ob.assumptions@), params@, options.target_pointer_width))),
{
    let contracts = contracts_with_assumptions(contracts, &ob.assumptions);
    let min = match min_value(&ob.ty) {
        Some(m) => m,
        None => return false,
    };
    let required_bound = min + 1;
    let mut gt_min = slice_of(&ob.variable, 0, ob.variable.len());
    append_lit(&mut gt_min, ">");
    append(&mut gt_min, &ob.ty);
    append_lit(&mut gt_min, "::MIN");
    assert(gt_min@ =~= ob.variable@ + ">"@ + ob.ty@ + "::MIN"@);
    let ge_required = join3(&ob.variable, ">=", &min_bound_with_type(required_bound, &ob.ty));
    let ge_unqualified = join3(&ob.variable, ">=", &decimal_i128(required_bound));
    if z3_says_yes(&ge_unqualified, &contracts, params, options) {
        return true;
    }
    contract_is(&contracts, &gt_min) || contract_is(&contracts, &ge_required) || contract_is(&contracts, &ge_unqualified)
}

/// What the built-in matcher accepts for `v * c` of type `ty`: `c` is `0`
/// or `1`; or contracts bound `v` above by `T::MAX/c` (symbolic or
/// decimal) and, for a signed type, below by `T::MIN/c`.
pub open spec fn multiplication_builtin_spec(v: Seq<char>, ty: Option<Seq<char>>, constant: Option<i128>, cs: Seq<Seq<char>>, w: Option<u32>) -> bool {
    match constant {
        None => false,
        Some(c) => if c == 0 || c == 1 {
            true
        } else {
            match ty {
                None => false,
                Some(t) => match max_spec(t, w) {
                    None => false,
                    Some(m) => {
                        let upper = cs.contains(v + "<="@ + t + "::MAX/"@ + signed_decimal_spec(c as int)) || cs.contains(
                            v + "<="@ + signed_decimal_spec(solver::trunc_div(m, c as int)));
                        if t == "u32"@ || t == "u64"@ || t == "usize"@ {
                            upper
                        } else {
                            match min_spec(t) {
                                None => false,
                                Some(mn) => upper && (cs.contains(v + ">="@ + t + "::MIN/"@ + signed_decimal_spec(c as int))
                                    || cs.contains(v + ">="@ + signed_decimal_spec(solver::trunc_div(mn, c as int)))),
                            }
                        }
                    },
                },
            }
        },
    }
}

/// Z3 showed `v * c` within the type: every assignment within the integer
/// parameters' ranges that satisfies the contracts has `v <= MAX / c` and,
/// for a signed type, `v >= MIN / c` (each as long as different names get
/// different Z3 symbols).
pub open spec fn multiplication_z3_valid(v: Seq<char>, ty: Option<Seq<char>>, constant: Option<i128>, cs: Seq<Seq<char>>, params: Seq<Param>, w: Option<u32>) -> bool {
    match (constant, ty) {
        (Some(c), Some(t)) => match max_spec(t, w) {
            Some(m) => {
                &&& c != 0
                &&& z3_valid_text(v + "<="@ + signed_decimal_spec(solver::trunc_div(m, c as int)), cs, params, w)
                &&& (t == "u32"@ || t == "u64"@ || t == "usize"@ || match min_spec(t) {
                    Some(mn) => z3_valid_text(v + ">="@ + signed_decimal_spec(solver::trunc_div(mn, c as int)), cs, params, w),
                    None => false,
                })
            },
            None => false,
        },
        _ => false,
    }
}

/// Whether `variable * constant` is known not to overflow.
pub fn multiplication_obligation_proved(ob: &MulObligation, contracts: &Vec<Vec<char>>, params: &[Param], options: VerificationOptions) -> (r: bool)
    ensures
        ob.constant is None ==> !r,
        ob.constant == Some(0i128) || ob.constant == Some(1i128) ==> r,
        !(options.solver is Z3) ==> r == multiplication_builtin_spec(ob.variable@, opt_view(ob.ty), ob.constant, views(contracts@) + views(ob.assumptions@), options.target_pointer_width),
        r ==> multiplication_builtin_spec(ob.variable@, opt_view(ob.ty), ob.constant, views(contracts@) + views(ob.assumptions@),
            options.target_pointer_width) || (options.solver is Z3 && multiplication_z3_valid(ob.variable@, opt_view(ob.ty),
            ob.constant, views(contracts@) + views(ob.assumptions@), params@, options.target_pointer_width)),
{
    let contracts = contracts_with_assumptions(contracts, &ob.assumptions);
    let constant = match ob.constant {
        Some(c) => c,
        None => return false,
    };
    if constant == 0 || constant == 1 {
        return true;
    }
    let ty = match &ob.ty {
        Some(t) => t,
        None => return false,
    };
    let max = match max_value(ty, options.target_pointer_width) {
        Some(m) => m,
        None => return false,
    };
    let mut upper_symbolic = slice_of(&ob.variable, 0, ob.variable.len());
    append_lit(&mut upper_symbolic, "<=");
    append(&mut upper_symbolic, ty);
    append_lit(&mut upper_symbolic, "::MAX/");
    append(&mut upper_symbolic, &decimal_i128(constant));
    assert(upper_symbolic@ =~= ob.variable@ + "<="@ + ty@ + "::MAX/"@ + signed_decimal_spec(constant as int));
    let upper_numeric = join3(&ob.variable, "<=", &decimal_i128(trunc_div(max, constant)));
    let upper_proved = contract_is(&contracts, &upper_symbolic) || contract_is(&contracts, &upper_numeric);
    let z3_upper = z3_says_yes(&upper_numeric, &contracts, params, options);
    if is_unsigned_integer(ty) {
        return z3_upper || upper_proved;
    }
    let min = match min_value(ty) {
        Some(m) => m,
        None => return false,
    };
    let mut lower_symbolic = slice_of(&ob.variable, 0, ob.variable.len());
    append_lit(&mut lower_symbolic, ">=");
    append(&mut lower_symbolic, ty);
    append_lit(&mut lower_symbolic, "::MIN/");
    append(&mut lower_symbolic, &decimal_i128(constant));
    assert(lower_symbolic@ =~= ob.variable@ + ">="@ + ty@ + "::MIN/"@ + signed_decimal_spec(constant as int));
    let lower_numeric = join3(&ob.variable, ">=", &decimal_i128(trunc_div(min, constant)));
    let lower_proved = contract_is(&contracts, &lower_symbolic) || contract_is(&contracts, &lower_numeric);
    let z3_lower = z3_says_yes(&lower_numeric, &contracts, params, options);
    (z3_upper && z3_lower) || (upper_proved && lower_proved)
}

/// Rust's `/` on values whose quotient cannot overflow.
fn trunc_div(a: i128, b: i128) -> (r: i128)
    requires
        b != 0,
        a > i128::MIN,
    ensures
        r as int == solver::trunc_div(a as int, b as int),
{
    match a.checked_div(b) {
        Some(q) => q,
        None => 0,
    }
}

/// What the built-in matcher accepts for `l / r` of type `ty`: `l` is a
/// constant other than `T::MIN`, `r` a constant other than `-1`, or a
/// contract states `l` is not the minimum or `r` is not `-1`.
pub open spec fn division_overflow_builtin_spec(l: Seq<char>, r: Seq<char>, ty: Seq<char>, cs: Seq<Seq<char>>, w: Option<u32>) -> bool {
    match min_spec(ty) {
        None => false,
        Some(m) => {
            ||| (crate::arith::int_constant_spec(l, Some(ty), w) matches Some(v) && v != m)
            ||| (crate::arith::int_constant_spec(r, Some(ty), w) matches Some(v) && v != -1)
            ||| exists|i: int| 0 <= i < cs.len() && crate::arith::not_min_forms(l, ty, m).contains(#[trigger] cs[i])
            ||| exists|i: int| 0 <= i < cs.len() && crate::arith::not_negative_one_forms(r).contains(#[trigger] cs[i])
        },
    }
}

/// Whether the signed division or remainder cannot be `MIN / -1`.
pub fn signed_division_overflow_obligation_proved(ob: &DivOverflowObligation, contracts: &Vec<Vec<char>>, params: &[Param], options: VerificationOptions) -> (r: bool)
    ensures
        !(options.solver is Z3) ==> r == division_overflow_builtin_spec(ob.left@, ob.right@, ob.ty@, views(contracts@) + views(ob.assumptions@), options.target_pointer_width),
        r ==> division_overflow_builtin_spec(ob.left@, ob.right@, ob.ty@, views(contracts@) + views(ob.assumptions@),
            options.target_pointer_width) || (options.solver is Z3 && (z3_valid_text(ob.left@ + "!="@ + ob.ty@ + "::MIN"@, views(
            contracts@) + views(ob.assumptions@), params@, options.target_pointer_width) || z3_valid_text(ob.right@ + "!="@
            + "-1"@, views(contracts@) + views(ob.assumptions@), params@, options.target_pointer_width))),
{
    let contracts = contracts_with_assumptions(contracts, &ob.assumptions);
    let min = match min_value(&ob.ty) {
        Some(m) => m,
        None => return false,
    };
    let tyo = Some(slice_of(&ob.ty, 0, ob.ty.len()));
    assert(ob.ty@.subrange(0, ob.ty@.len() as int) =~= ob.ty@);
    let ghost cs = views(contracts@);
    proof {
        assert forall|i: int| 0 <= i < contracts@.len() implies #[trigger] cs[i] == contracts@[i]@ by {}
    }
    if let Some(v) = integer_constant_value(&ob.left, &tyo, options.target_pointer_width) {
        if v != min {
            return true;
        }
    }
    if let Some(v) = integer_constant_value(&ob.right, &tyo, options.target_pointer_width) {
        if v != -1 {
            return true;
        }
    }
    let mut left_ne_min = slice_of(&ob.left, 0, ob.left.len());
    append_lit(&mut left_ne_min, "!=");
    append(&mut left_ne_min, &ob.ty);
    append_lit(&mut left_ne_min, "::MIN");
    assert(left_ne_min@ =~= ob.left@ + "!="@ + ob.ty@ + "::MIN"@);
    let right_ne_neg_one = join3(&ob.right, "!=", &chars_of("-1"));
    assert(right_ne_neg_one@ =~= ob.right@ + "!="@ + "-1"@);
    if z3_says_yes(&left_ne_min, &contracts, params, options) || z3_says_yes(&right_ne_neg_one, &contracts, params, options) {
        return true;
    }
    let a = contracts_prove_not_min(&ob.left, &ob.ty, min, &contracts);
    let b = contracts_prove_not_negative_one(&ob.right, &contracts);
    proof {
        let f1 = crate::arith::not_min_forms(ob.left@, ob.ty@, min as int);
        let f2 = crate::arith::not_negative_one_forms(ob.right@);
        if a {
            let i = choose|i: int| 0 <= i < contracts@.len() && f1.contains(#[trigger] contracts@[i]@);
            assert(f1.contains(cs[i]));
        } else {
            assert forall|i: int| 0 <= i < cs.len() implies !f1.contains(#[trigger] cs[i]) by {
                assert(cs[i] == contracts@[i]@);
            }
        }
        if b {
            let i = choose|i: int| 0 <= i < contracts@.len() && f2.contains(#[trigger] contracts@[i]@);
            assert(f2.contains(cs[i]));
        } else {
            assert forall|i: int| 0 <= i < cs.len() implies !f2.contains(#[trigger] cs[i]) by {
                assert(cs[i] == contracts@[i]@);
            }
        }
    }
    a || b
}

/// Whether the denominator is known to be nonzero.
pub fn denominator_nonzero(denominator: &[char], contracts: &Vec<Vec<char>>, params: &[Param], options: VerificationOptions) -> (r: bool)
    ensures
        (crate::text::parse_i128_spec(denominator@) matches Some(v) && v != 0) ==> r,
        !(options.solver is Z3) ==> r == ((crate::text::parse_i128_spec(denominator@) matches Some(v) && v != 0) || views(
            contracts@).contains(denominator@ + "!="@ + "0"@) || views(contracts@).contains("0"@ + "!="@ + denominator@)
            || views(contracts@).contains(denominator@ + ">"@ + "0"@) || views(contracts@).contains(denominator@ + "<"@
            + "0"@)),
        r ==> (crate::text::parse_i128_spec(denominator@) matches Some(v) && v != 0) || views(contracts@).contains(denominator@
            + "!="@ + "0"@) || views(contracts@).contains("0"@ + "!="@ + denominator@) || views(contracts@).contains(denominator@
            + ">"@ + "0"@) || views(contracts@).contains(denominator@ + "<"@ + "0"@) || (options.solver is Z3 && z3_valid_text(
            denominator@ + "!="@ + "0"@, views(contracts@), params@, options.target_pointer_width)),
{
    if let Some(v) = parse_i128(denominator) {
        if v != 0 {
            return true;
        }
    }
    let z = chars_of("0");
    let ne_zero = join3(denominator, "!=", &z);
    let zero_ne = join3(&z, "!=", denominator);
    let gt_zero = join3(denominator, ">", &z);
    let lt_zero = join3(denominator, "<", &z);
    if z3_says_yes(&ne_zero, contracts, params, options) {
        return true;
    }
    contract_is(contracts, &ne_zero) || contract_is(contracts, &zero_ne) || contract_is(contracts, &gt_zero) || contract_is(contracts, &lt_zero)
}

/// Whether a contract states `index < base.len()` or `base.len() > index`.
pub fn slice_index_obligation_proved(base: &[char], index: &[char], assumptions: &Vec<Vec<char>>, contracts: &Vec<Vec<char>>) -> (r: bool)
    ensures
        r == ((views(contracts@) + views(assumptions@)).contains(index@ + "<"@ + base@ + ".len()"@) || (views(contracts@)
            + views(assumptions@)).contains(base@ + ".len()"@ + ">"@ + index@)),
{
    let contracts = contracts_with_assumptions(contracts, assumptions);
    let mut len_call = slice_of(base, 0, base.len());
    append_lit(&mut len_call, ".len()");
    assert(len_call@ =~= base@ + ".len()"@);
    assert(index@ + "<"@ + len_call@ =~= index@ + "<"@ + base@ + ".len()"@);
    assert(len_call@ + ">"@ + index@ =~= base@ + ".len()"@ + ">"@ + index@);
    let index_lt_len = join3(index, "<", &len_call);
    let len_gt_index = join3(&len_call, ">", index);
    contract_is(&contracts, &index_lt_len) || contract_is(&contracts, &len_gt_index)
}

/// Whether a callee's instantiated precondition follows: stated as is, or
/// as the flipped inequality, or shown by Z3.
pub fn callee_precondition_proved(condition: &[char], contracts: &Vec<Vec<char>>, params: &[Param], options: VerificationOptions) -> (r: bool)
    ensures
        views(contracts@).contains(condition@) ==> r,
        !(options.solver is Z3) ==> r == (views(contracts@).contains(condition@) || (crate::tokens::flipped_spec(condition@) matches Some(f) && views(contracts@).contains(f))),
        r ==> views(contracts@).contains(condition@) || (crate::tokens::flipped_spec(condition@) matches Some(f) && views(
            contracts@).contains(f)) || (options.solver is Z3 && z3_valid_text(condition@, views(contracts@), params@,
            options.target_pointer_width)),
{
    if contract_is(contracts, condition) {
        return true;
    }
    if let Some(flipped) = flipped_inequality(condition) {
        if contract_is(contracts, &flipped) {
            return true;
        }
    }
    z3_says_yes(condition, contracts, params, options)
}

} // verus!
