//! The arithmetic obligations a function carries: from the compiler's
//! facts when they are given, else from the body's tokens (each
//! expression once), and the check that the facts cover every operation
//! the tokens show.

use crate::arith::{
    addition_obligations, division_obligations, integer_constant_value, is_signed_integer,
    min_value, multiplication_obligations, negation_obligations, param_type, remainder_obligations,
    signed_division_overflow_obligation, signed_division_overflow_obligations,
    subtraction_obligations, supported_operation_type, typed_constant_binary_is_safe,
    expression_needs_integer_proof, AddObligation, DenominatorObligation, DivOverflowObligation,
    MulObligation, NegObligation, SubObligation,
};
use crate::arith::{int_constant_spec, op_type_spec, param_type_spec, typed_constant_safe_spec};
use crate::discharge::opt_view;
use crate::tokens::ident_spec;
use crate::semantics::{SemanticArithmeticKind, SemanticArithmeticOperation, TrustFunctionSemantics};
use crate::solver::{Param, VerificationOptions};
use crate::text::{chars_of_string, contains_char, same, slice_of, texts_contain, views};
use crate::tokens::{normalize, push_unique, reversed_condition};
use vstd::prelude::*;

verus! {

pub fn kind_is(a: SemanticArithmeticKind, b: SemanticArithmeticKind) -> (r: bool)
    ensures
        r == (a == b),
{
    match (a, b) {
        (SemanticArithmeticKind::Add, SemanticArithmeticKind::Add) => true,
        (SemanticArithmeticKind::Sub, SemanticArithmeticKind::Sub) => true,
        (SemanticArithmeticKind::Mul, SemanticArithmeticKind::Mul) => true,
        (SemanticArithmeticKind::Neg, SemanticArithmeticKind::Neg) => true,
        (SemanticArithmeticKind::Div, SemanticArithmeticKind::Div) => true,
        (SemanticArithmeticKind::Rem, SemanticArithmeticKind::Rem) => true,
        _ => false,
    }
}

/// `x` added at the end unless already present.
pub open spec fn with_unique(v: Seq<Seq<char>>, x: Seq<char>) -> Seq<Seq<char>> {
    if v.contains(x) {
        v
    } else {
        v.push(x)
    }
}

/// Each guard without whitespace, then its reversal when it has one; each once.
pub open spec fn guard_assumptions_spec(g: Seq<String>) -> Seq<Seq<char>>
    decreases g.len(),
{
    if g.len() == 0 {
        seq![]
    } else {
        let before = guard_assumptions_spec(g.drop_last());
        let with_guard = with_unique(before, crate::text::strip_ws(g.last()@));
        match crate::tokens::reversed_spec(g.last()@) {
            Some(rev) => with_unique(with_guard, crate::text::strip_ws(rev)),
            None => with_guard,
        }
    }
}

/// The normalized guards of an operation, each with its reversal.
pub fn semantic_guard_assumptions(guards: &Vec<String>) -> (r: Vec<Vec<char>>)
    ensures
        views(r@) == guard_assumptions_spec(guards@),
{
    let mut assumptions: Vec<Vec<char>> = Vec::new();
    let mut i: usize = 0;
    while i < guards.len()
        invariant
            i <= guards@.len(),
            views(assumptions@) == guard_assumptions_spec(guards@.subrange(0, i as int)),
        decreases guards.len() - i,
    {
        let ghost sub = guards@.subrange(0, i + 1);
        assert(sub.drop_last() =~= guards@.subrange(0, i as int));
        let g = chars_of_string(&guards[i]);
        push_unique(&mut assumptions, normalize(&g));
        if let Some(rev) = reversed_condition(&g) {
            push_unique(&mut assumptions, normalize(&rev));
        }
        i += 1;
    }
    assert(guards@.subrange(0, guards@.len() as int) =~= guards@);
    assumptions
}

fn copy(v: &[char]) -> (r: Vec<char>)
    ensures
        r@ == v@,
{
    let r = slice_of(v, 0, v.len());
    assert(v@.subrange(0, v@.len() as int) =~= v@);
    r
}

/// The first type given.
pub open spec fn or_type_spec(a: Option<Seq<char>>, b: Option<Seq<char>>) -> Option<Seq<char>> {
    match a {
        Some(t) => Some(t),
        None => b,
    }
}

/// An optional constant as an integer.
pub open spec fn opt_int(c: Option<i128>) -> Option<int> {
    match c {
        Some(v) => Some(v as int),
        None => None,
    }
}

fn or_type(a: Option<Vec<char>>, b: &Option<Vec<char>>) -> (r: Option<Vec<char>>)
    ensures
        opt_view(r) == or_type_spec(opt_view(a), opt_view(*b)),
{
    match a {
        Some(t) => Some(t),
        None => match b {
            Some(t) => Some(copy(t)),
            None => None,
        },
    }
}

/// What a reported addition must check, as (operand, its type, the
/// constant it is added to): nothing when both operands are constants
/// whose sum fits; a parameter (or the operation's type) with a constant;
/// else the left operand alone, when either side is an integer parameter,
/// both are identifiers, or the compiler gave the operation a type.
pub open spec fn semantic_add_shape(left: Seq<char>, right: Seq<char>, params: Seq<Param>, op_ty: Option<Seq<char>>, w: Option<u32>)
    -> Option<(Seq<char>, Option<Seq<char>>, Option<int>)>
{
    let left_ty = or_type_spec(param_type_spec(left, params), op_ty);
    let right_ty = or_type_spec(param_type_spec(right, params), op_ty);
    if typed_constant_safe_spec(left, right, op_ty, '+', w) {
        None
    } else if left_ty is Some && int_constant_spec(right, left_ty, w) is Some {
        Some((left, left_ty, int_constant_spec(right, left_ty, w)))
    } else if int_constant_spec(left, right_ty, w) is Some && right_ty is Some {
        Some((right, right_ty, int_constant_spec(left, right_ty, w)))
    } else if param_type_spec(left, params) is Some || param_type_spec(right, params) is Some || (ident_spec(left)
        && ident_spec(right)) || op_ty is Some {
        Some((left, or_type_spec(or_type_spec(param_type_spec(left, params), param_type_spec(right, params)), op_ty), None))
    } else {
        None
    }
}

/// The obligation of a typed addition the compiler reports, unless both
/// operands are constants whose sum fits.
pub fn semantic_addition_obligation(left: &[char], right: &[char], expression: &[char], params: &[Param], operation_ty: &Option<String>, w: Option<u32>) -> (r: Option<AddObligation>)
    ensures
        r is Some == semantic_add_shape(left@, right@, params@, op_type_spec(*operation_ty), w) is Some,
        r matches Some(o) ==> semantic_add_shape(left@, right@, params@, op_type_spec(*operation_ty), w) == Some((o.variable@,
            opt_view(o.ty), opt_int(o.constant))) && o.expression@ == expression@ && o.assumptions@.len() == 0,
{
    let op_ty = supported_operation_type(operation_ty);
    if typed_constant_binary_is_safe(left, right, &op_ty, '+', w) {
        return None;
    }
    let left_ty = or_type(param_type(left, params), &op_ty);
    let right_ty = or_type(param_type(right, params), &op_ty);
    if let Some(ty) = &left_ty {
        if let Some(c) = integer_constant_value(right, &left_ty, w) {
            return Some(AddObligation { variable: copy(left), ty: Some(copy(ty)), constant: Some(c), expression: copy(expression), assumptions: Vec::new() });
        }
    }
    if let Some(c) = integer_constant_value(left, &right_ty, w) {
        if let Some(ty) = &right_ty {
            return Some(AddObligation { variable: copy(right), ty: Some(copy(ty)), constant: Some(c), expression: copy(expression), assumptions: Vec::new() });
        }
    }
    if expression_needs_integer_proof(left, right, params) || op_ty.is_some() {
        let ty = or_type(or_type(param_type(left, params), &param_type(right, params)), &op_ty);
        return Some(AddObligation { variable: copy(left), ty, constant: None, expression: copy(expression), assumptions: Vec::new() });
    }
    None
}

/// What a reported subtraction must check, as (operand, its type, the
/// constant subtracted, the right operand when not a constant): nothing
/// when both operands are constants whose difference fits, or when a
/// typed left operand loses a constant that is not positive; a typed left
/// operand with a positive constant; else the whole difference, when
/// either side is an integer parameter, both are identifiers, or the
/// compiler gave the operation a type.
pub open spec fn semantic_sub_shape(left: Seq<char>, right: Seq<char>, params: Seq<Param>, op_ty: Option<Seq<char>>, w: Option<u32>)
    -> Option<(Seq<char>, Option<Seq<char>>, Option<int>, Option<Seq<char>>)>
{
    let left_ty = or_type_spec(param_type_spec(left, params), op_ty);
    if typed_constant_safe_spec(left, right, op_ty, '-', w) {
        None
    } else if left_ty is Some && int_constant_spec(right, left_ty, w) is Some {
        if int_constant_spec(right, left_ty, w)->0 > 0 {
            Some((left, left_ty, int_constant_spec(right, left_ty, w), None))
        } else {
            None
        }
    } else if param_type_spec(left, params) is Some || param_type_spec(right, params) is Some || (ident_spec(left)
        && ident_spec(right)) || op_ty is Some {
        Some((left, left_ty, None, Some(right)))
    } else {
        None
    }
}

/// The obligation of a typed subtraction the compiler reports.
pub fn semantic_subtraction_obligation(left: &[char], right: &[char], expression: &[char], params: &[Param], operation_ty: &Option<String>, w: Option<u32>) -> (r: Option<SubObligation>)
    ensures
        r is Some == semantic_sub_shape(left@, right@, params@, op_type_spec(*operation_ty), w) is Some,
        r matches Some(o) ==> semantic_sub_shape(left@, right@, params@, op_type_spec(*operation_ty), w) == Some((o.variable@,
            opt_view(o.ty), opt_int(o.constant), opt_view(o.rhs))) && o.expression@ == expression@ && o.assumptions@.len() == 0,
{
    let op_ty = supported_operation_type(operation_ty);
    if typed_constant_binary_is_safe(left, right, &op_ty, '-', w) {
        return None;
    }
    let left_ty = or_type(param_type(left, params), &op_ty);
    let constant = match &left_ty {
        Some(_) => integer_constant_value(right, &left_ty, w),
        None => None,
    };
    match (&left_ty, constant) {
        (Some(ty), Some(c)) => {
            if c > 0 {
                return Some(SubObligation { variable: copy(left), ty: Some(copy(ty)), constant: Some(c), rhs: None, expression: copy(expression), assumptions: Vec::new() });
            }
        },
        _ => {
            if expression_needs_integer_proof(left, right, params) || op_ty.is_some() {
                let ty = or_type(param_type(left, params), &op_ty);
                return Some(SubObligation { variable: copy(left), ty, constant: None, rhs: Some(copy(right)), expression: copy(expression), assumptions: Vec::new() });
            }
        },
    }
    None
}

/// What a reported multiplication must check, as (operand, its type, the
/// constant factor): nothing when both operands are constants whose
/// product fits, or when a typed operand is multiplied by a constant no
/// greater than 1; a typed operand with a constant above 1; else the left
/// operand alone, when either side is an integer parameter, both are
/// identifiers, or the compiler gave the operation a type.
pub open spec fn semantic_mul_shape(left: Seq<char>, right: Seq<char>, params: Seq<Param>, op_ty: Option<Seq<char>>, w: Option<u32>)
    -> Option<(Seq<char>, Option<Seq<char>>, Option<int>)>
{
    let left_ty = or_type_spec(param_type_spec(left, params), op_ty);
    let right_ty = or_type_spec(param_type_spec(right, params), op_ty);
    if typed_constant_safe_spec(left, right, op_ty, '*', w) {
        None
    } else if left_ty is Some && int_constant_spec(right, left_ty, w) is Some {
        if int_constant_spec(right, left_ty, w)->0 > 1 {
            Some((left, left_ty, int_constant_spec(right, left_ty, w)))
        } else {
            None
        }
    } else if int_constant_spec(left, right_ty, w) is Some && right_ty is Some {
        if int_constant_spec(left, right_ty, w)->0 > 1 {
            Some((right, right_ty, int_constant_spec(left, right_ty, w)))
        } else {
            None
        }
    } else if param_type_spec(left, params) is Some || param_type_spec(right, params) is Some || (ident_spec(left)
        && ident_spec(right)) || op_ty is Some {
        Some((left, or_type_spec(or_type_spec(param_type_spec(left, params), param_type_spec(right, params)), op_ty), None))
    } else {
        None
    }
}

/// The obligation of a typed multiplication the compiler reports.
pub fn semantic_multiplication_obligation(left: &[char], right: &[char], expression: &[char], params: &[Param], operation_ty: &Option<String>, w: Option<u32>) -> (r: Option<MulObligation>)
    ensures
        r is Some == semantic_mul_shape(left@, right@, params@, op_type_spec(*operation_ty), w) is Some,
        r matches Some(o) ==> semantic_mul_shape(left@, right@, params@, op_type_spec(*operation_ty), w) == Some((o.variable@,
            opt_view(o.ty), opt_int(o.constant))) && o.expression@ == expression@ && o.assumptions@.len() == 0,
{
    let op_ty = supported_operation_type(operation_ty);
    if typed_constant_binary_is_safe(left, right, &op_ty, '*', w) {
        return None;
    }
    let left_ty = or_type(param_type(left, params), &op_ty);
    let right_ty = or_type(param_type(right, params), &op_ty);
    let left_const = match &left_ty {
        Some(_) => integer_constant_value(right, &left_ty, w),
        None => None,
    };
    if let (Some(ty), Some(c)) = (&left_ty, left_const) {
        if c > 1 {
            return Some(MulObligation { variable: copy(left), ty: Some(copy(ty)), constant: Some(c), expression: copy(expression), assumptions: Vec::new() });
        }
        return None;
    }
    let right_const = integer_constant_value(left, &right_ty, w);
    if let (Some(c), Some(ty)) = (right_const, &right_ty) {
        if c > 1 {
            return Some(MulObligation { variable: copy(right), ty: Some(copy(ty)), constant: Some(c), expression: copy(expression), assumptions: Vec::new() });
        }
        return None;
    }
    if expression_needs_integer_proof(left, right, params) || op_ty.is_some() {
        let ty = or_type(or_type(param_type(left, params), &param_type(right, params)), &op_ty);
        return Some(MulObligation { variable: copy(left), ty, constant: None, expression: copy(expression), assumptions: Vec::new() });
    }
    None
}

/// What an addition obligation says: operand, type, constant, expression
/// and assumptions.
pub open spec fn add_view(o: AddObligation) -> (Seq<char>, Option<Seq<char>>, Option<int>, Seq<char>, Seq<Seq<char>>) {
    (o.variable@, opt_view(o.ty), opt_int(o.constant), o.expression@, views(o.assumptions@))
}

pub open spec fn add_views(r: Seq<AddObligation>) -> Seq<(Seq<char>, Option<Seq<char>>, Option<int>, Seq<char>, Seq<Seq<char>>)> {
    Seq::new(r.len(), |k: int| add_view(r[k]))
}

/// The addition obligations of the reported operations, in order: one for
/// each addition whose shape needs a check, under its guards.
pub open spec fn semantic_add_list(ops: Seq<SemanticArithmeticOperation>, params: Seq<Param>, w: Option<u32>) -> Seq<(Seq<char>, Option<Seq<char>>, Option<int>, Seq<char>, Seq<Seq<char>>)>
    decreases ops.len(),
{
    if ops.len() == 0 {
        seq![]
    } else {
        let before = semantic_add_list(ops.drop_last(), params, w);
        let op = ops.last();
        if op.kind == SemanticArithmeticKind::Add && op.right is Some {
            match semantic_add_shape(op.left@, op.right->0@, params, op_type_spec(op.ty), w) {
                Some((v, t, c)) => before.push((v, t, c, op.expression@, guard_assumptions_spec(op.guards@))),
                None => before,
            }
        } else {
            before
        }
    }
}

/// What a subtraction obligation says.
pub open spec fn sub_view(o: SubObligation) -> (Seq<char>, Option<Seq<char>>, Option<int>, Option<Seq<char>>, Seq<char>, Seq<Seq<char>>) {
    (o.variable@, opt_view(o.ty), opt_int(o.constant), opt_view(o.rhs), o.expression@, views(o.assumptions@))
}

pub open spec fn sub_views(r: Seq<SubObligation>) -> Seq<(Seq<char>, Option<Seq<char>>, Option<int>, Option<Seq<char>>, Seq<char>, Seq<Seq<char>>)> {
    Seq::new(r.len(), |k: int| sub_view(r[k]))
}

/// The subtraction obligations of the reported operations, in order.
pub open spec fn semantic_sub_list(ops: Seq<SemanticArithmeticOperation>, params: Seq<Param>, w: Option<u32>) -> Seq<(Seq<char>, Option<Seq<char>>, Option<int>, Option<Seq<char>>, Seq<char>, Seq<Seq<char>>)>
    decreases ops.len(),
{
    if ops.len() == 0 {
        seq![]
    } else {
        let before = semantic_sub_list(ops.drop_last(), params, w);
        let op = ops.last();
        if op.kind == SemanticArithmeticKind::Sub && op.right is Some {
            match semantic_sub_shape(op.left@, op.right->0@, params, op_type_spec(op.ty), w) {
                Some((v, t, c, rhs)) => before.push((v, t, c, rhs, op.expression@, guard_assumptions_spec(op.guards@))),
                None => before,
            }
        } else {
            before
        }
    }
}

/// What a multiplication obligation says.
pub open spec fn mul_view(o: MulObligation) -> (Seq<char>, Option<Seq<char>>, Option<int>, Seq<char>, Seq<Seq<char>>) {
    (o.variable@, opt_view(o.ty), opt_int(o.constant), o.expression@, views(o.assumptions@))
}

pub open spec fn mul_views(r: Seq<MulObligation>) -> Seq<(Seq<char>, Option<Seq<char>>, Option<int>, Seq<char>, Seq<Seq<char>>)> {
    Seq::new(r.len(), |k: int| mul_view(r[k]))
}

/// The multiplication obligations of the reported operations, in order.
pub open spec fn semantic_mul_list(ops: Seq<SemanticArithmeticOperation>, params: Seq<Param>, w: Option<u32>) -> Seq<(Seq<char>, Option<Seq<char>>, Option<int>, Seq<char>, Seq<Seq<char>>)>
    decreases ops.len(),
{
    if ops.len() == 0 {
        seq![]
    } else {
        let before = semantic_mul_list(ops.drop_last(), params, w);
        let op = ops.last();
        if op.kind == SemanticArithmeticKind::Mul && op.right is Some {
            match semantic_mul_shape(op.left@, op.right->0@, params, op_type_spec(op.ty), w) {
                Some((v, t, c)) => before.push((v, t, c, op.expression@, guard_assumptions_spec(op.guards@))),
                None => before,
            }
        } else {
            before
        }
    }
}

/// What a denominator obligation says.
pub open spec fn den_view(o: DenominatorObligation) -> (Seq<char>, Seq<char>, Seq<Seq<char>>) {
    (o.denominator@, o.expression@, views(o.assumptions@))
}

pub open spec fn den_views(r: Seq<DenominatorObligation>) -> Seq<(Seq<char>, Seq<char>, Seq<Seq<char>>)> {
    Seq::new(r.len(), |k: int| den_view(r[k]))
}

/// The denominators of the reported operations of one kind that have a
/// right operand, in order.
pub open spec fn semantic_den_list(ops: Seq<SemanticArithmeticOperation>, kind: SemanticArithmeticKind) -> Seq<(Seq<char>, Seq<char>, Seq<Seq<char>>)>
    decreases ops.len(),
{
    if ops.len() == 0 {
        seq![]
    } else {
        let before = semantic_den_list(ops.drop_last(), kind);
        let op = ops.last();
        if op.kind == kind && op.right is Some {
            before.push((op.right->0@, op.expression@, guard_assumptions_spec(op.guards@)))
        } else {
            before
        }
    }
}

/// What a negation obligation says.
pub open spec fn neg_view(o: NegObligation) -> (Seq<char>, Seq<char>, Seq<char>, Seq<Seq<char>>) {
    (o.variable@, o.ty@, o.expression@, views(o.assumptions@))
}

pub open spec fn neg_views(r: Seq<NegObligation>) -> Seq<(Seq<char>, Seq<char>, Seq<char>, Seq<Seq<char>>)> {
    Seq::new(r.len(), |k: int| neg_view(r[k]))
}

/// The signed type a reported negation of `l` needs a check at: the
/// parameter's type or the compiler's, when signed, unless `l` is a
/// constant other than the type's minimum.
pub open spec fn neg_check_type(l: Seq<char>, params: Seq<Param>, op_ty: Option<Seq<char>>, w: Option<u32>) -> Option<Seq<char>> {
    match or_type_spec(param_type_spec(l, params), op_ty) {
        Some(t) => if crate::arith::signed_spec(t) && !(int_constant_spec(l, Some(t), w) matches Some(v) && (
        crate::arith::min_spec(t) is None || crate::arith::min_spec(t) != Some(v))) {
            Some(t)
        } else {
            None
        },
        None => None,
    }
}

/// The negation obligations of the reported operations, in order.
pub open spec fn semantic_neg_list(ops: Seq<SemanticArithmeticOperation>, params: Seq<Param>, w: Option<u32>) -> Seq<(Seq<char>, Seq<char>, Seq<char>, Seq<Seq<char>>)>
    decreases ops.len(),
{
    if ops.len() == 0 {
        seq![]
    } else {
        let before = semantic_neg_list(ops.drop_last(), params, w);
        let op = ops.last();
        if op.kind == SemanticArithmeticKind::Neg {
            match neg_check_type(op.left@, params, op_type_spec(op.ty), w) {
                Some(t) => before.push((op.left@, t, op.expression@, guard_assumptions_spec(op.guards@))),
                None => before,
            }
        } else {
            before
        }
    }
}

/// What a division overflow obligation says.
pub open spec fn div_view(o: DivOverflowObligation) -> (Seq<char>, Seq<char>, Seq<char>, Seq<char>, Seq<Seq<char>>) {
    (o.left@, o.right@, o.ty@, o.expression@, views(o.assumptions@))
}

pub open spec fn div_views(r: Seq<DivOverflowObligation>) -> Seq<(Seq<char>, Seq<char>, Seq<char>, Seq<char>, Seq<Seq<char>>)> {
    Seq::new(r.len(), |k: int| div_view(r[k]))
}

/// The compiler's type of an operation, as text.
pub open spec fn str_opt_view(t: Option<String>) -> Option<Seq<char>> {
    match t {
        Some(s) => Some(s@),
        None => None,
    }
}

/// The signed division (or remainder) overflow obligations of the
/// reported operations of one kind, in order.
pub open spec fn semantic_div_list(ops: Seq<SemanticArithmeticOperation>, params: Seq<Param>, kind: SemanticArithmeticKind, w: Option<u32>) -> Seq<(Seq<char>, Seq<char>, Seq<char>, Seq<char>, Seq<Seq<char>>)>
    decreases ops.len(),
{
    if ops.len() == 0 {
        seq![]
    } else {
        let before = semantic_div_list(ops.drop_last(), params, kind, w);
        let op = ops.last();
        if op.kind == kind && op.right is Some {
            match crate::arith::div_overflow_type(op.left@, op.right->0@, params, str_opt_view(op.ty), w) {
                Some(t) => before.push((op.left@, op.right->0@, t, op.expression@, guard_assumptions_spec(op.guards@))),
                None => before,
            }
        } else {
            before
        }
    }
}

pub fn semantic_addition_obligations(semantics: Option<&TrustFunctionSemantics>, params: &[Param], w: Option<u32>) -> (r: Vec<AddObligation>)
    ensures
        semantics is None ==> r@.len() == 0,
        semantics matches Some(s) ==> add_views(r@) == semantic_add_list(s.arithmetic_operations@, params@, w),
{
    let mut out: Vec<AddObligation> = Vec::new();
    if let Some(s) = semantics {
        let ops = &s.arithmetic_operations;
        let mut i: usize = 0;
        while i < ops.len()
            invariant
                i <= ops@.len(),
                *ops == s.arithmetic_operations,
                add_views(out@) == semantic_add_list(ops@.subrange(0, i as int), params@, w),
            decreases ops.len() - i,
        {
            proof {
                assert(ops@.subrange(0, i + 1).drop_last() =~= ops@.subrange(0, i as int));
            }
            let ghost before = out@;
            let op = &ops[i];
            if kind_is(op.kind, SemanticArithmeticKind::Add) {
                if let Some(right) = &op.right {
                    let l = chars_of_string(&op.left);
                    let r = chars_of_string(right);
                    let e = chars_of_string(&op.expression);
                    if let Some(mut ob) = semantic_addition_obligation(&l, &r, &e, params, &op.ty, w) {
                        ob.assumptions = semantic_guard_assumptions(&op.guards);
                        out.push(ob);
                        assert(add_views(out@) =~= add_views(before).push(add_view(out@.last())));
                    }
                }
            }
            i += 1;
        }
        assert(ops@.subrange(0, ops@.len() as int) =~= ops@);
    }
    out
}

pub fn semantic_subtraction_obligations(semantics: Option<&TrustFunctionSemantics>, params: &[Param], w: Option<u32>) -> (r: Vec<SubObligation>)
    ensures
        semantics is None ==> r@.len() == 0,
        semantics matches Some(s) ==> sub_views(r@) == semantic_sub_list(s.arithmetic_operations@, params@, w),
{
    let mut out: Vec<SubObligation> = Vec::new();
    if let Some(s) = semantics {
        let ops = &s.arithmetic_operations;
        let mut i: usize = 0;
        while i < ops.len()
            invariant
                i <= ops@.len(),
                *ops == s.arithmetic_operations,
                sub_views(out@) == semantic_sub_list(ops@.subrange(0, i as int), params@, w),
            decreases ops.len() - i,
        {
            proof {
                assert(ops@.subrange(0, i + 1).drop_last() =~= ops@.subrange(0, i as int));
            }
            let ghost before = out@;
            let op = &ops[i];
            if kind_is(op.kind, SemanticArithmeticKind::Sub) {
                if let Some(right) = &op.right {
                    let l = chars_of_string(&op.left);
                    let r = chars_of_string(right);
                    let e = chars_of_string(&op.expression);
                    if let Some(mut ob) = semantic_subtraction_obligation(&l, &r, &e, params, &op.ty, w) {
                        ob.assumptions = semantic_guard_assumptions(&op.guards);
                        out.push(ob);
                        assert(sub_views(out@) =~= sub_views(before).push(sub_view(out@.last())));
                    }
                }
            }
            i += 1;
        }
        assert(ops@.subrange(0, ops@.len() as int) =~= ops@);
    }
    out
}

pub fn semantic_multiplication_obligations(semantics: Option<&TrustFunctionSemantics>, params: &[Param], w: Option<u32>) -> (r: Vec<MulObligation>)
    ensures
        semantics is None ==> r@.len() == 0,
        semantics matches Some(s) ==> mul_views(r@) == semantic_mul_list(s.arithmetic_operations@, params@, w),
{
    let mut out: Vec<MulObligation> = Vec::new();
    if let Some(s) = semantics {
        let ops = &s.arithmetic_operations;
        let mut i: usize = 0;
        while i < ops.len()
            invariant
                i <= ops@.len(),
                *ops == s.arithmetic_operations,
                mul_views(out@) == semantic_mul_list(ops@.subrange(0, i as int), params@, w),
            decreases ops.len() - i,
        {
            proof {
                assert(ops@.subrange(0, i + 1).drop_last() =~= ops@.subrange(0, i as int));
            }
            let ghost before = out@;
            let op = &ops[i];
            if kind_is(op.kind, SemanticArithmeticKind::Mul) {
                if let Some(right) = &op.right {
                    let l = chars_of_string(&op.left);
                    let r = chars_of_string(right);
                    let e = chars_of_string(&op.expression);
                    if let Some(mut ob) = semantic_multiplication_obligation(&l, &r, &e, params, &op.ty, w) {
                        ob.assumptions = semantic_guard_assumptions(&op.guards);
                        out.push(ob);
                        assert(mul_views(out@) =~= mul_views(before).push(mul_view(out@.last())));
                    }
                }
            }
            i += 1;
        }
        assert(ops@.subrange(0, ops@.len() as int) =~= ops@);
    }
    out
}

/// Negations the compiler reports on a signed operand that might be the
/// type's minimum.
pub fn semantic_negation_obligations(semantics: Option<&TrustFunctionSemantics>, params: &[Param], w: Option<u32>) -> (r: Vec<NegObligation>)
    ensures
        semantics is None ==> r@.len() == 0,
        semantics matches Some(s) ==> neg_views(r@) == semantic_neg_list(s.arithmetic_operations@, params@, w),
{
    let mut out: Vec<NegObligation> = Vec::new();
    if let Some(s) = semantics {
        let ops = &s.arithmetic_operations;
        let mut i: usize = 0;
        while i < ops.len()
            invariant
                i <= ops@.len(),
                *ops == s.arithmetic_operations,
                neg_views(out@) == semantic_neg_list(ops@.subrange(0, i as int), params@, w),
            decreases ops.len() - i,
        {
            proof {
                assert(ops@.subrange(0, i + 1).drop_last() =~= ops@.subrange(0, i as int));
            }
            let ghost before = out@;
            let op = &ops[i];
            if kind_is(op.kind, SemanticArithmeticKind::Neg) {
                let l = chars_of_string(&op.left);
                let ty = or_type(param_type(&l, params), &supported_operation_type(&op.ty));
                if let Some(ty) = ty {
                    if is_signed_integer(&ty) {
                        let tyo = Some(copy(&ty));
                        let excluded = match integer_constant_value(&l, &tyo, w) {
                            Some(v) => match min_value(&ty) {
                                Some(m) => m != v,
                                None => true,
                            },
                            None => false,
                        };
                        if !excluded {
                            out.push(NegObligation {
                                variable: l,
                                ty,
                                expression: chars_of_string(&op.expression),
                                assumptions: semantic_guard_assumptions(&op.guards),
                            });
                        assert(neg_views(out@) =~= neg_views(before).push(neg_view(out@.last())));
                        }
                    }
                }
            }
            i += 1;
        }
        assert(ops@.subrange(0, ops@.len() as int) =~= ops@);
    }
    out
}

/// Divisions or remainders (`kind`) the compiler reports, each with its
/// denominator.
pub fn semantic_denominator_obligations(semantics: Option<&TrustFunctionSemantics>, kind: SemanticArithmeticKind) -> (r: Vec<DenominatorObligation>)
    ensures
        semantics is None ==> r@.len() == 0,
        semantics matches Some(s) ==> den_views(r@) == semantic_den_list(s.arithmetic_operations@, kind),
{
    let mut out: Vec<DenominatorObligation> = Vec::new();
    if let Some(s) = semantics {
        let ops = &s.arithmetic_operations;
        let mut i: usize = 0;
        while i < ops.len()
            invariant
                i <= ops@.len(),
                *ops == s.arithmetic_operations,
                den_views(out@) == semantic_den_list(ops@.subrange(0, i as int), kind),
            decreases ops.len() - i,
        {
            proof {
                assert(ops@.subrange(0, i + 1).drop_last() =~= ops@.subrange(0, i as int));
            }
            let ghost before = out@;
            let op = &ops[i];
            if kind_is(op.kind, kind) {
                if let Some(d) = &op.right {
                    out.push(DenominatorObligation {
                        denominator: chars_of_string(d),
                        expression: chars_of_string(&op.expression),
                        assumptions: semantic_guard_assumptions(&op.guards),
                    });
                        assert(den_views(out@) =~= den_views(before).push(den_view(out@.last())));
                }
            }
            i += 1;
        }
        assert(ops@.subrange(0, ops@.len() as int) =~= ops@);
    }
    out
}

pub fn semantic_signed_division_overflow_obligations(semantics: Option<&TrustFunctionSemantics>, params: &[Param], kind: SemanticArithmeticKind, w: Option<u32>) -> (r: Vec<DivOverflowObligation>)
    ensures
        semantics is None ==> r@.len() == 0,
        semantics matches Some(s) ==> div_views(r@) == semantic_div_list(s.arithmetic_operations@, params@, kind, w),
{
    let mut out: Vec<DivOverflowObligation> = Vec::new();
    if let Some(s) = semantics {
        let ops = &s.arithmetic_operations;
        let mut i: usize = 0;
        while i < ops.len()
            invariant
                i <= ops@.len(),
                *ops == s.arithmetic_operations,
                div_views(out@) == semantic_div_list(ops@.subrange(0, i as int), params@, kind, w),
            decreases ops.len() - i,
        {
            proof {
                assert(ops@.subrange(0, i + 1).drop_last() =~= ops@.subrange(0, i as int));
            }
            let ghost before = out@;
            let op = &ops[i];
            if kind_is(op.kind, kind) {
                if let Some(right) = &op.right {
                    let l = chars_of_string(&op.left);
                    let r = chars_of_string(right);
                    let e = chars_of_string(&op.expression);
                    let op_ty = match &op.ty {
                        Some(t) => Some(chars_of_string(t)),
                        None => None,
                    };
                    if let Some(mut ob) = signed_division_overflow_obligation(&l, &r, &e, params, &op_ty, w) {
                        ob.assumptions = semantic_guard_assumptions(&op.guards);
                        out.push(ob);
                        assert(div_views(out@) =~= div_views(before).push(div_view(out@.last())));
                    }
                }
            }
            i += 1;
        }
        assert(ops@.subrange(0, ops@.len() as int) =~= ops@);
    }
    out
}

/// Whether the text holds a brace.
pub fn has_brace(e: &[char]) -> (r: bool)
    ensures
        r == (e@.contains('{') || e@.contains('}')),
{
    contains_char(e, '{') || contains_char(e, '}')
}

/// Whether some compiler-reported expression is `e` up to whitespace.
pub open spec fn covered(semantic: Seq<Seq<char>>, e: Seq<char>) -> bool {
    exists|k: int| 0 <= k < semantic.len() && crate::text::strip_ws(#[trigger] semantic[k]) == crate::text::strip_ws(e)
}

/// A token expression needs covering when it holds no brace.
pub open spec fn needs_cover(semantic: Seq<Seq<char>>, e: Seq<char>) -> bool {
    !e.contains('{') && !e.contains('}') && !covered(semantic, e)
}

/// The texts of the additions the compiler reports.
pub open spec fn semantic_add_texts(s: TrustFunctionSemantics, params: Seq<Param>, w: Option<u32>) -> Seq<Seq<char>> {
    Seq::new(semantic_add_list(s.arithmetic_operations@, params, w).len(), |k: int| semantic_add_list(s.arithmetic_operations@,
        params, w)[k].3)
}

/// The texts of the subtractions the compiler reports.
pub open spec fn semantic_sub_texts(s: TrustFunctionSemantics, params: Seq<Param>, w: Option<u32>) -> Seq<Seq<char>> {
    Seq::new(semantic_sub_list(s.arithmetic_operations@, params, w).len(), |k: int| semantic_sub_list(s.arithmetic_operations@,
        params, w)[k].4)
}

/// The texts of the multiplications the compiler reports.
pub open spec fn semantic_mul_texts(s: TrustFunctionSemantics, params: Seq<Param>, w: Option<u32>) -> Seq<Seq<char>> {
    Seq::new(semantic_mul_list(s.arithmetic_operations@, params, w).len(), |k: int| semantic_mul_list(s.arithmetic_operations@,
        params, w)[k].3)
}

/// The first token expression without braces that no compiler-reported
/// expression matches (after whitespace removal).
pub fn semantic_obligation_gap(semantic: &Vec<Vec<char>>, fallback: &Vec<Vec<char>>) -> (r: Option<Vec<char>>)
    ensures
        r matches Some(e) ==> exists|j: int| 0 <= j < fallback@.len() && (#[trigger] fallback@[j])@ == e@ && needs_cover(
            views(semantic@), e@) && forall|i: int| 0 <= i < j ==> !needs_cover(views(semantic@), #[trigger] fallback@[i]@),
        r is None ==> forall|j: int| 0 <= j < fallback@.len() ==> !needs_cover(views(semantic@), #[trigger] fallback@[j]@),
{
    let mut normalized: Vec<Vec<char>> = Vec::new();
    let mut i: usize = 0;
    while i < semantic.len()
        invariant
            i <= semantic@.len(),
            normalized@.len() == i,
            forall|k: int| 0 <= k < i ==> (#[trigger] normalized@[k])@ == crate::text::strip_ws(semantic@[k]@),
        decreases semantic.len() - i,
    {
        normalized.push(normalize(&semantic[i]));
        i += 1;
    }
    let mut j: usize = 0;
    while j < fallback.len()
        invariant
            j <= fallback@.len(),
            normalized@.len() == semantic@.len(),
            forall|k: int| 0 <= k < semantic@.len() ==> (#[trigger] normalized@[k])@ == crate::text::strip_ws(semantic@[k]@),
            forall|i2: int| 0 <= i2 < j ==> !needs_cover(views(semantic@), #[trigger] fallback@[i2]@),
        decreases fallback.len() - j,
    {
        let e = &fallback[j];
        if !has_brace(e) {
            let n = normalize(e);
            if !texts_contain(&normalized, &n) {
                assert(!covered(views(semantic@), e@)) by {
                    if covered(views(semantic@), e@) {
                        let k = choose|k: int| 0 <= k < views(semantic@).len() && crate::text::strip_ws(
                            #[trigger] views(semantic@)[k]) == crate::text::strip_ws(e@);
                        assert(views(normalized@)[k] == n@);
                    }
                }
                return Some(copy(e));
            }
            assert(covered(views(semantic@), e@)) by {
                let k = choose|k: int| 0 <= k < views(normalized@).len() && views(normalized@)[k] == n@;
                assert(views(semantic@)[k] == semantic@[k]@);
            }
        }
        j += 1;
    }
    None
}

pub fn add_expressions(v: &Vec<AddObligation>) -> (r: Vec<Vec<char>>)
    ensures
        r@.len() == v@.len(),
        forall|k: int| 0 <= k < r@.len() ==> r@[k]@ == v@[k].expression@,
{
    let mut r: Vec<Vec<char>> = Vec::new();
    let mut i: usize = 0;
    while i < v.len()
        invariant
            i <= v.len(),
            r@.len() == i,
            forall|k: int| 0 <= k < i ==> r@[k]@ == v@[k].expression@,
        decreases v.len() - i,
    {
        r.push(copy(&v[i].expression));
        i += 1;
    }
    r
}

pub fn sub_expressions(v: &Vec<SubObligation>) -> (r: Vec<Vec<char>>)
    ensures
        r@.len() == v@.len(),
        forall|k: int| 0 <= k < r@.len() ==> r@[k]@ == v@[k].expression@,
{
    let mut r: Vec<Vec<char>> = Vec::new();
    let mut i: usize = 0;
    while i < v.len()
        invariant
            i <= v.len(),
            r@.len() == i,
            forall|k: int| 0 <= k < i ==> r@[k]@ == v@[k].expression@,
        decreases v.len() - i,
    {
        r.push(copy(&v[i].expression));
        i += 1;
    }
    r
}

pub fn neg_expressions(v: &Vec<NegObligation>) -> (r: Vec<Vec<char>>)
    ensures
        r@.len() == v@.len(),
        forall|k: int| 0 <= k < r@.len() ==> r@[k]@ == v@[k].expression@,
{
    let mut r: Vec<Vec<char>> = Vec::new();
    let mut i: usize = 0;
    while i < v.len()
        invariant
            i <= v.len(),
            r@.len() == i,
            forall|k: int| 0 <= k < i ==> r@[k]@ == v@[k].expression@,
        decreases v.len() - i,
    {
        r.push(copy(&v[i].expression));
        i += 1;
    }
    r
}

pub fn mul_expressions(v: &Vec<MulObligation>) -> (r: Vec<Vec<char>>)
    ensures
        r@.len() == v@.len(),
        forall|k: int| 0 <= k < r@.len() ==> r@[k]@ == v@[k].expression@,
{
    let mut r: Vec<Vec<char>> = Vec::new();
    let mut i: usize = 0;
    while i < v.len()
        invariant
            i <= v.len(),
            r@.len() == i,
            forall|k: int| 0 <= k < i ==> r@[k]@ == v@[k].expression@,
        decreases v.len() - i,
    {
        r.push(copy(&v[i].expression));
        i += 1;
    }
    r
}

pub fn den_expressions(v: &Vec<DenominatorObligation>) -> (r: Vec<Vec<char>>)
    ensures
        r@.len() == v@.len(),
        forall|k: int| 0 <= k < r@.len() ==> r@[k]@ == v@[k].expression@,
{
    let mut r: Vec<Vec<char>> = Vec::new();
    let mut i: usize = 0;
    while i < v.len()
        invariant
            i <= v.len(),
            r@.len() == i,
            forall|k: int| 0 <= k < i ==> r@[k]@ == v@[k].expression@,
        decreases v.len() - i,
    {
        r.push(copy(&v[i].expression));
        i += 1;
    }
    r
}

pub fn div_expressions(v: &Vec<DivOverflowObligation>) -> (r: Vec<Vec<char>>)
    ensures
        r@.len() == v@.len(),
        forall|k: int| 0 <= k < r@.len() ==> r@[k]@ == v@[k].expression@,
{
    let mut r: Vec<Vec<char>> = Vec::new();
    let mut i: usize = 0;
    while i < v.len()
        invariant
            i <= v.len(),
            r@.len() == i,
            forall|k: int| 0 <= k < i ==> r@[k]@ == v@[k].expression@,
        decreases v.len() - i,
    {
        r.push(copy(&v[i].expression));
        i += 1;
    }
    r
}

/// Position `a` of `keep` holds an expression equal to the one at `j`,
/// from no later than `j`.
pub open spec fn kept_for(e: Seq<Seq<char>>, keep: Seq<usize>, a: int, j: int) -> bool {
    0 <= a < keep.len() && keep[a] <= j && e[keep[a] as int] == e[j]
}

/// Some position of `keep` is `j`'s expression, from no later than `j`.
pub open spec fn has_first(e: Seq<Seq<char>>, keep: Seq<usize>, j: int) -> bool {
    exists|a: int| #[trigger] kept_for(e, keep, a, j)
}

/// `keep` lists, in increasing order, the first position of each distinct
/// expression among the first `n`.
pub open spec fn firsts(e: Seq<Seq<char>>, keep: Seq<usize>, n: int) -> bool {
    &&& forall|k: int| 0 <= k < keep.len() ==> #[trigger] keep[k] < n
    &&& forall|a: int, b: int| 0 <= a < b < keep.len() ==> #[trigger] keep[a] < #[trigger] keep[b]
    &&& forall|a: int, b: int| 0 <= a < b < keep.len() ==> e[#[trigger] keep[a] as int] != e[#[trigger] keep[b] as int]
    &&& forall|j: int| 0 <= j < n ==> #[trigger] has_first(e, keep, j)
    &&& forall|a: int, j: int| 0 <= a < keep.len() && 0 <= j < keep[a] ==> #[trigger] e[j] != e[#[trigger] keep[a] as int]
}

proof fn lemma_firsts_step(e: Seq<Seq<char>>, keep: Seq<usize>, i: int)
    requires
        0 <= i < e.len(),
        i < usize::MAX,
        firsts(e, keep, i),
    ensures
        (forall|a: int| 0 <= a < keep.len() ==> e[#[trigger] keep[a] as int] != e[i]) ==> firsts(e, keep.push(i as usize), i + 1),
        (exists|a: int| 0 <= a < keep.len() && e[#[trigger] keep[a] as int] == e[i]) ==> firsts(e, keep, i + 1),
{
    let nk = keep.push(i as usize);
    if forall|a: int| 0 <= a < keep.len() ==> e[#[trigger] keep[a] as int] != e[i] {
        assert forall|j: int| 0 <= j < i + 1 implies #[trigger] has_first(e, nk, j) by {
            if j < i {
                assert(has_first(e, keep, j));
                let a = choose|a: int| #[trigger] kept_for(e, keep, a, j);
                assert(kept_for(e, nk, a, j));
            } else {
                assert(kept_for(e, nk, keep.len() as int, j));
            }
        }
        assert forall|a: int, j: int| 0 <= a < nk.len() && 0 <= j < nk[a] implies #[trigger] e[j] != e[#[trigger] nk[a] as int] by {
            if a == keep.len() {
                if e[j] == e[i] {
                    assert(has_first(e, keep, j));
                    let b = choose|b: int| #[trigger] kept_for(e, keep, b, j);
                    assert(e[keep[b] as int] == e[i]);
                }
            } else {
                assert(nk[a] == keep[a]);
            }
        }
        assert forall|a: int, b: int| 0 <= a < b < nk.len() implies e[#[trigger] nk[a] as int] != e[#[trigger] nk[b] as int] by {
            if b == keep.len() {
                assert(nk[a] == keep[a]);
            }
        }
        assert(firsts(e, nk, i + 1));
    }
    if exists|a: int| 0 <= a < keep.len() && e[#[trigger] keep[a] as int] == e[i] {
        let w = choose|a: int| 0 <= a < keep.len() && e[#[trigger] keep[a] as int] == e[i];
        assert forall|j: int| 0 <= j < i + 1 implies #[trigger] has_first(e, keep, j) by {
            if j == i {
                assert(kept_for(e, keep, w, j));
            }
        }
    }
}

/// Positions of the first obligation with each distinct expression, in
/// increasing order.
pub fn first_of_each(exprs: &Vec<Vec<char>>) -> (r: Vec<usize>)
    ensures
        forall|k: int| 0 <= k < r@.len() ==> r@[k] < exprs@.len(),
        firsts(views(exprs@), r@, exprs@.len() as int),
{
    let ghost e = views(exprs@);
    let mut seen: Vec<Vec<char>> = Vec::new();
    let mut keep: Vec<usize> = Vec::new();
    let mut i: usize = 0;
    while i < exprs.len()
        invariant
            i <= exprs.len(),
            e == views(exprs@),
            seen@.len() == keep@.len(),
            forall|k: int| 0 <= k < keep@.len() ==> (#[trigger] seen@[k])@ == e[keep@[k] as int],
            firsts(e, keep@, i as int),
        decreases exprs.len() - i,
    {
        let present = texts_contain(&seen, &exprs[i]);
        proof {
            lemma_firsts_step(e, keep@, i as int);
            if present {
                let a = choose|a: int| 0 <= a < views(seen@).len() && views(seen@)[a] == exprs@[i as int]@;
                assert(e[keep@[a] as int] == e[i as int]);
            } else {
                assert forall|a: int| 0 <= a < keep@.len() implies e[#[trigger] keep@[a] as int] != e[i as int] by {
                    assert(views(seen@)[a] == seen@[a]@);
                }
            }
        }
        if !present {
            seen.push(copy(&exprs[i]));
            keep.push(i);
        }
        i += 1;
    }
    keep
}

/// Additions to prove: the compiler's when given, else the tokens' (each
/// expression once).
pub fn verification_addition_obligations(body: &[char], params: &[Param], semantics: Option<&TrustFunctionSemantics>, options: VerificationOptions) -> (r: Vec<AddObligation>)
    ensures
        semantics matches Some(s) ==> add_views(r@) == semantic_add_list(s.arithmetic_operations@, params@, options.target_pointer_width),
        semantics is None ==> forall|a: int, b: int| 0 <= a < b < r@.len() ==> (#[trigger] r@[a]).expression@
            != (#[trigger] r@[b]).expression@,
        semantics is None && crate::segments::straight_line(body@) && r@.len() > 0 ==> crate::tokens::has_token(crate::segments::executable_view(body@), "+"@),
        semantics is None ==> forall|k: int| 0 <= k < r@.len() ==> crate::arith::add_shape(#[trigger] r@[k], params@),
        semantics is None && crate::segments::straight_line(body@) ==> forall|k: int| 0 <= k < r@.len()
            ==> (#[trigger] r@[k]).assumptions@.len() == 0,
        semantics is None && crate::segments::straight_line(body@) ==> forall|idx: int| #[trigger] crate::arith::param_op_literal_at(
            crate::segments::executable_view(body@), params@, "+"@, idx) ==> crate::arith::add_text_recorded(r@,
            crate::segments::executable_view(body@)[idx] + " + "@ + crate::segments::executable_view(body@)[idx + 2]),
        semantics is None && crate::segments::straight_line(body@) ==> forall|k: int| 0 <= k < r@.len()
            ==> crate::arith::plus_site_text(crate::segments::executable_view(body@), (#[trigger] r@[k]).expression@),
{
    if semantics.is_some() {
        return semantic_addition_obligations(semantics, params, options.target_pointer_width);
    }
    let all = addition_obligations(body, params);
    let exprs = add_expressions(&all);
    let keep = first_of_each(&exprs);
    let r = take_kept_add(&all, &keep);
    assert forall|a: int, b: int| 0 <= a < b < r@.len() implies (#[trigger] r@[a]).expression@ != (#[trigger] r@[b]).expression@ by {
        assert(views(exprs@)[keep@[a] as int] == exprs@[keep@[a] as int]@);
        assert(views(exprs@)[keep@[b] as int] == exprs@[keep@[b] as int]@);
    }
    proof {
        if r@.len() > 0 {
            assert(keep@[0] < all@.len());
        }
        assert forall|k: int| 0 <= k < r@.len() implies crate::arith::add_shape(#[trigger] r@[k], params@) by {
            crate::arith::lemma_add_shape_view(all@[keep@[k] as int], r@[k], params@);
        }
        if crate::segments::straight_line(body@) {
            assert forall|k: int| 0 <= k < r@.len() implies (#[trigger] r@[k]).assumptions@.len() == 0 by {
                assert(add_view(r@[k]) == add_view(all@[keep@[k] as int]));
                assert(views(r@[k].assumptions@).len() == 0);
            }
            let ev = crate::segments::executable_view(body@);
            assert forall|idx: int| #[trigger] crate::arith::param_op_literal_at(ev, params@, "+"@, idx) implies
                crate::arith::add_text_recorded(r@, ev[idx] + " + "@ + ev[idx + 2]) by {
                let e = ev[idx] + " + "@ + ev[idx + 2];
                assert(crate::arith::add_text_recorded(all@, e));
                let j = choose|j: int| 0 <= j < all@.len() && (#[trigger] all@[j]).expression@ == e;
                assert(has_first(views(exprs@), keep@, j));
                let a = choose|a: int| #[trigger] kept_for(views(exprs@), keep@, a, j);
                assert(views(exprs@)[keep@[a] as int] == exprs@[keep@[a] as int]@);
                assert(views(exprs@)[j] == exprs@[j]@);
                assert(r@[a].expression@ == e);
            }
            assert forall|k: int| 0 <= k < r@.len() implies crate::arith::plus_site_text(ev, (#[trigger] r@[k]).expression@) by {
                assert(r@[k].expression@ == all@[keep@[k] as int].expression@);
            }
        }
    }
    r
}

/// The obligations at the kept positions, in order.
fn take_kept_add(all: &Vec<AddObligation>, keep: &Vec<usize>) -> (r: Vec<AddObligation>)
    requires
        forall|k: int| 0 <= k < keep@.len() ==> keep@[k] < all@.len(),
    ensures
        r@.len() == keep@.len(),
        forall|k: int| 0 <= k < r@.len() ==> (#[trigger] r@[k]).expression@ == all@[keep@[k] as int].expression@,
        forall|k: int| 0 <= k < r@.len() ==> add_view(#[trigger] r@[k]) == add_view(all@[keep@[k] as int]),
{
    let mut out: Vec<AddObligation> = Vec::new();
    let mut i: usize = 0;
    while i < keep.len()
        invariant
            forall|k: int| 0 <= k < keep@.len() ==> keep@[k] < all@.len(),
            i <= keep@.len(),
            out@.len() == i,
            forall|k: int| 0 <= k < i ==> (#[trigger] out@[k]).expression@ == all@[keep@[k] as int].expression@,
            forall|k: int| 0 <= k < i ==> add_view(#[trigger] out@[k]) == add_view(all@[keep@[k] as int]),
        decreases keep.len() - i,
    {
        let k = keep[i];
        let ob = &all[k];
        let ghost before = out@;
        out.push(AddObligation { variable: copy(&ob.variable), ty: copy_opt(&ob.ty), constant: ob.constant, expression: copy(&ob.expression), assumptions: crate::text::clone_texts(&ob.assumptions) });
        assert forall|j: int| 0 <= j < i + 1 implies add_view(#[trigger] out@[j]) == add_view(all@[keep@[j] as int]) by {
            if j < i {
                assert(out@[j] == before[j]);
            }
        }
        i += 1;
    }
    out
}

pub fn copy_opt(v: &Option<Vec<char>>) -> (r: Option<Vec<char>>)
    ensures
        opt_view(r) == opt_view(*v),
{
    match v {
        Some(t) => Some(copy(t)),
        None => None,
    }
}

pub fn verification_subtraction_obligations(body: &[char], params: &[Param], semantics: Option<&TrustFunctionSemantics>, options: VerificationOptions) -> (r: Vec<SubObligation>)
    ensures
        semantics matches Some(s) ==> sub_views(r@) == semantic_sub_list(s.arithmetic_operations@, params@, options.target_pointer_width),
        semantics is None ==> forall|a: int, b: int| 0 <= a < b < r@.len() ==> (#[trigger] r@[a]).expression@
            != (#[trigger] r@[b]).expression@,
        semantics is None && crate::segments::straight_line(body@) && r@.len() > 0 ==> crate::tokens::has_token(crate::segments::executable_view(body@), "-"@),
        semantics is None ==> forall|k: int| 0 <= k < r@.len() ==> crate::arith::sub_shape(#[trigger] r@[k], params@),
        semantics is None && crate::segments::straight_line(body@) ==> forall|k: int| 0 <= k < r@.len()
            ==> (#[trigger] r@[k]).assumptions@.len() == 0,
        semantics is None && crate::segments::straight_line(body@) ==> forall|idx: int| #[trigger] crate::arith::sub_site_at(
            crate::segments::executable_view(body@), params@, idx) ==> crate::arith::sub_text_recorded(r@,
            crate::segments::executable_view(body@)[idx] + " - "@ + crate::segments::executable_view(body@)[idx + 2]),
{
    if semantics.is_some() {
        return semantic_subtraction_obligations(semantics, params, options.target_pointer_width);
    }
    let all = subtraction_obligations(body, params);
    let exprs = sub_expressions(&all);
    let keep = first_of_each(&exprs);
    let mut out: Vec<SubObligation> = Vec::new();
    let mut i: usize = 0;
    while i < keep.len()
        invariant
            forall|k: int| 0 <= k < keep@.len() ==> keep@[k] < all@.len(),
            i <= keep@.len(),
            out@.len() == i,
            firsts(views(exprs@), keep@, exprs@.len() as int),
            exprs@.len() == all@.len(),
            forall|k: int| 0 <= k < exprs@.len() ==> (#[trigger] exprs@[k])@ == all@[k].expression@,
            forall|k: int| 0 <= k < i ==> (#[trigger] out@[k]).expression@ == all@[keep@[k] as int].expression@,
            forall|k: int| 0 <= k < i ==> sub_view(#[trigger] out@[k]) == sub_view(all@[keep@[k] as int]),
        decreases keep.len() - i,
    {
        let ob = &all[keep[i]];
        let ghost before = out@;
        out.push(SubObligation { variable: copy(&ob.variable), ty: copy_opt(&ob.ty), constant: ob.constant, rhs: copy_opt(&ob.rhs), expression: copy(&ob.expression), assumptions: crate::text::clone_texts(&ob.assumptions) });
        assert forall|j: int| 0 <= j < i + 1 implies sub_view(#[trigger] out@[j]) == sub_view(all@[keep@[j] as int]) by {
            if j < i {
                assert(out@[j] == before[j]);
            }
        }
        i += 1;
    }
    assert forall|a: int, b: int| 0 <= a < b < out@.len() implies (#[trigger] out@[a]).expression@ != (#[trigger] out@[b]).expression@ by {
        assert(views(exprs@)[keep@[a] as int] == exprs@[keep@[a] as int]@);
        assert(views(exprs@)[keep@[b] as int] == exprs@[keep@[b] as int]@);
    }
    proof {
        if out@.len() > 0 {
            assert(keep@[0] < all@.len());
        }
        assert forall|k: int| 0 <= k < out@.len() implies crate::arith::sub_shape(#[trigger] out@[k], params@) by {
            crate::arith::lemma_sub_shape_view(all@[keep@[k] as int], out@[k], params@);
        }
        if crate::segments::straight_line(body@) {
            assert forall|k: int| 0 <= k < out@.len() implies (#[trigger] out@[k]).assumptions@.len() == 0 by {
                assert(sub_view(out@[k]) == sub_view(all@[keep@[k] as int]));
                assert(views(out@[k].assumptions@).len() == 0);
            }
            let ev = crate::segments::executable_view(body@);
            assert forall|idx: int| #[trigger] crate::arith::sub_site_at(ev, params@, idx) implies crate::arith::sub_text_recorded(
                out@, ev[idx] + " - "@ + ev[idx + 2]) by {
                let e = ev[idx] + " - "@ + ev[idx + 2];
                assert(crate::arith::sub_text_recorded(all@, e));
                let j = choose|j: int| 0 <= j < all@.len() && (#[trigger] all@[j]).expression@ == e;
                assert(has_first(views(exprs@), keep@, j));
                let a = choose|a: int| #[trigger] kept_for(views(exprs@), keep@, a, j);
                assert(views(exprs@)[keep@[a] as int] == exprs@[keep@[a] as int]@);
                assert(views(exprs@)[j] == exprs@[j]@);
                assert(out@[a].expression@ == e);
            }
        }
    }
    out
}

pub fn verification_negation_obligations(body: &[char], params: &[Param], semantics: Option<&TrustFunctionSemantics>, options: VerificationOptions) -> (r: Vec<NegObligation>)
    ensures
        semantics matches Some(s) ==> neg_views(r@) == semantic_neg_list(s.arithmetic_operations@, params@, options.target_pointer_width),
        semantics is None ==> forall|a: int, b: int| 0 <= a < b < r@.len() ==> (#[trigger] r@[a]).expression@
            != (#[trigger] r@[b]).expression@,
        semantics is None && crate::segments::straight_line(body@) && r@.len() > 0 ==> crate::tokens::has_token(crate::segments::executable_view(body@), "-"@),
        semantics is None ==> forall|k: int| 0 <= k < r@.len() ==> (#[trigger] r@[k]).expression@ == seq!['-'] + r@[k].variable@
            && crate::arith::neg_param_typed(r@[k], params@),
        semantics is None && crate::segments::straight_line(body@) ==> forall|k: int| 0 <= k < r@.len()
            ==> (#[trigger] r@[k]).assumptions@.len() == 0,
        semantics is None && crate::segments::straight_line(body@) ==> forall|idx: int, ty: Seq<char>| #[trigger]
            crate::arith::negated_param_at(crate::segments::executable_view(body@), params@, idx, ty) ==> crate::arith::neg_recorded(
            r@, crate::segments::executable_view(body@)[idx + 1], ty),
{
    if semantics.is_some() {
        return semantic_negation_obligations(semantics, params, options.target_pointer_width);
    }
    let all = negation_obligations(body, params);
    let exprs = neg_expressions(&all);
    let keep = first_of_each(&exprs);
    let mut out: Vec<NegObligation> = Vec::new();
    let mut i: usize = 0;
    while i < keep.len()
        invariant
            forall|k: int| 0 <= k < keep@.len() ==> keep@[k] < all@.len(),
            i <= keep@.len(),
            out@.len() == i,
            firsts(views(exprs@), keep@, exprs@.len() as int),
            exprs@.len() == all@.len(),
            forall|k: int| 0 <= k < exprs@.len() ==> (#[trigger] exprs@[k])@ == all@[k].expression@,
            forall|k: int| 0 <= k < i ==> (#[trigger] out@[k]).expression@ == all@[keep@[k] as int].expression@,
            forall|k: int| 0 <= k < i ==> neg_view(#[trigger] out@[k]) == neg_view(all@[keep@[k] as int]),
        decreases keep.len() - i,
    {
        let ob = &all[keep[i]];
        let ghost before = out@;
        out.push(NegObligation { variable: copy(&ob.variable), ty: copy(&ob.ty), expression: copy(&ob.expression), assumptions: crate::text::clone_texts(&ob.assumptions) });
        assert forall|j: int| 0 <= j < i + 1 implies neg_view(#[trigger] out@[j]) == neg_view(all@[keep@[j] as int]) by {
            if j < i {
                assert(out@[j] == before[j]);
            }
        }
        i += 1;
    }
    assert forall|a: int, b: int| 0 <= a < b < out@.len() implies (#[trigger] out@[a]).expression@ != (#[trigger] out@[b]).expression@ by {
        assert(views(exprs@)[keep@[a] as int] == exprs@[keep@[a] as int]@);
        assert(views(exprs@)[keep@[b] as int] == exprs@[keep@[b] as int]@);
    }
    proof {
        if out@.len() > 0 {
            assert(keep@[0] < all@.len());
        }
        assert forall|k: int| 0 <= k < out@.len() implies (#[trigger] out@[k]).expression@ == seq!['-'] + out@[k].variable@
            && crate::arith::neg_param_typed(out@[k], params@) by {
            assert(neg_view(out@[k]) == neg_view(all@[keep@[k] as int]));
        }
        if crate::segments::straight_line(body@) {
            assert forall|k: int| 0 <= k < out@.len() implies (#[trigger] out@[k]).assumptions@.len() == 0 by {
                assert(neg_view(out@[k]) == neg_view(all@[keep@[k] as int]));
                assert(views(out@[k].assumptions@).len() == 0);
            }
            let ev = crate::segments::executable_view(body@);
            assert forall|idx: int, ty: Seq<char>| #[trigger] crate::arith::negated_param_at(ev, params@, idx, ty) implies
                crate::arith::neg_recorded(out@, ev[idx + 1], ty) by {
                let v = ev[idx + 1];
                assert(crate::arith::neg_recorded(all@, v, ty));
                let j = choose|j: int| 0 <= j < all@.len() && (#[trigger] all@[j]).variable@ == v && all@[j].ty@ == ty
                    && all@[j].expression@ == seq!['-'] + v;
                assert(has_first(views(exprs@), keep@, j));
                let a = choose|a: int| #[trigger] kept_for(views(exprs@), keep@, a, j);
                assert(views(exprs@)[keep@[a] as int] == exprs@[keep@[a] as int]@);
                assert(views(exprs@)[j] == exprs@[j]@);
                let o = out@[a];
                assert(neg_view(o) == neg_view(all@[keep@[a] as int]));
                assert(o.expression@ == seq!['-'] + v);
                assert(o.variable@ =~= o.expression@.skip(1));
                assert(v =~= (seq!['-'] + v).skip(1));
                assert(o.variable@ == v);
            }
        }
    }
    out
}

pub fn verification_multiplication_obligations(body: &[char], params: &[Param], semantics: Option<&TrustFunctionSemantics>, options: VerificationOptions) -> (r: Vec<MulObligation>)
    ensures
        semantics matches Some(s) ==> mul_views(r@) == semantic_mul_list(s.arithmetic_operations@, params@, options.target_pointer_width),
        semantics is None ==> forall|a: int, b: int| 0 <= a < b < r@.len() ==> (#[trigger] r@[a]).expression@
            != (#[trigger] r@[b]).expression@,
        semantics is None && crate::segments::straight_line(body@) && r@.len() > 0 ==> crate::tokens::has_token(crate::segments::executable_view(body@), "*"@),
        semantics is None ==> forall|k: int| 0 <= k < r@.len() ==> crate::arith::mul_shape(#[trigger] r@[k], params@),
        semantics is None && crate::segments::straight_line(body@) ==> forall|k: int| 0 <= k < r@.len()
            ==> (#[trigger] r@[k]).assumptions@.len() == 0,
        semantics is None && crate::segments::straight_line(body@) ==> forall|idx: int| #[trigger] crate::arith::param_op_literal_at(
            crate::segments::executable_view(body@), params@, "*"@, idx) && crate::text::parse_i128_spec(
            crate::segments::executable_view(body@)[idx + 2])->0 > 1 ==> crate::arith::mul_text_recorded(r@,
            crate::segments::executable_view(body@)[idx] + " * "@ + crate::segments::executable_view(body@)[idx + 2]),
        semantics is None && crate::segments::straight_line(body@) ==> forall|k: int| 0 <= k < r@.len()
            ==> crate::arith::star_site_text(crate::segments::executable_view(body@), (#[trigger] r@[k]).expression@),
{
    if semantics.is_some() {
        return semantic_multiplication_obligations(semantics, params, options.target_pointer_width);
    }
    let all = multiplication_obligations(body, params);
    let exprs = mul_expressions(&all);
    let keep = first_of_each(&exprs);
    let mut out: Vec<MulObligation> = Vec::new();
    let mut i: usize = 0;
    while i < keep.len()
        invariant
            forall|k: int| 0 <= k < keep@.len() ==> keep@[k] < all@.len(),
            i <= keep@.len(),
            out@.len() == i,
            firsts(views(exprs@), keep@, exprs@.len() as int),
            exprs@.len() == all@.len(),
            forall|k: int| 0 <= k < exprs@.len() ==> (#[trigger] exprs@[k])@ == all@[k].expression@,
            forall|k: int| 0 <= k < i ==> (#[trigger] out@[k]).expression@ == all@[keep@[k] as int].expression@,
            forall|k: int| 0 <= k < i ==> mul_view(#[trigger] out@[k]) == mul_view(all@[keep@[k] as int]),
        decreases keep.len() - i,
    {
        let ob = &all[keep[i]];
        let ghost before = out@;
        out.push(MulObligation { variable: copy(&ob.variable), ty: copy_opt(&ob.ty), constant: ob.constant, expression: copy(&ob.expression), assumptions: crate::text::clone_texts(&ob.assumptions) });
        assert forall|j: int| 0 <= j < i + 1 implies mul_view(#[trigger] out@[j]) == mul_view(all@[keep@[j] as int]) by {
            if j < i {
                assert(out@[j] == before[j]);
            }
        }
        i += 1;
    }
    assert forall|a: int, b: int| 0 <= a < b < out@.len() implies (#[trigger] out@[a]).expression@ != (#[trigger] out@[b]).expression@ by {
        assert(views(exprs@)[keep@[a] as int] == exprs@[keep@[a] as int]@);
        assert(views(exprs@)[keep@[b] as int] == exprs@[keep@[b] as int]@);
    }
    proof {
        if out@.len() > 0 {
            assert(keep@[0] < all@.len());
        }
        assert forall|k: int| 0 <= k < out@.len() implies crate::arith::mul_shape(#[trigger] out@[k], params@) by {
            crate::arith::lemma_mul_shape_view(all@[keep@[k] as int], out@[k], params@);
        }
        if crate::segments::straight_line(body@) {
            assert forall|k: int| 0 <= k < out@.len() implies (#[trigger] out@[k]).assumptions@.len() == 0 by {
                assert(mul_view(out@[k]) == mul_view(all@[keep@[k] as int]));
                assert(views(out@[k].assumptions@).len() == 0);
            }
            let ev = crate::segments::executable_view(body@);
            assert forall|idx: int| #[trigger] crate::arith::param_op_literal_at(ev, params@, "*"@, idx) && crate::text::parse_i128_spec(
                ev[idx + 2])->0 > 1 implies crate::arith::mul_text_recorded(out@, ev[idx] + " * "@ + ev[idx + 2]) by {
                let e = ev[idx] + " * "@ + ev[idx + 2];
                assert(crate::arith::mul_text_recorded(all@, e));
                let j = choose|j: int| 0 <= j < all@.len() && (#[trigger] all@[j]).expression@ == e;
                assert(has_first(views(exprs@), keep@, j));
                let a = choose|a: int| #[trigger] kept_for(views(exprs@), keep@, a, j);
                assert(views(exprs@)[keep@[a] as int] == exprs@[keep@[a] as int]@);
                assert(views(exprs@)[j] == exprs@[j]@);
                assert(out@[a].expression@ == e);
            }
            assert forall|k: int| 0 <= k < out@.len() implies crate::arith::star_site_text(ev, (#[trigger] out@[k]).expression@) by {
                assert(out@[k].expression@ == all@[keep@[k] as int].expression@);
            }
        }
    }
    out
}

/// Obligation `j` is the first with its expression.
pub open spec fn first_den_with_expression(all: Seq<DenominatorObligation>, j: int) -> bool {
    0 <= j < all.len() && forall|i: int| 0 <= i < j ==> (#[trigger] all[i]).expression@ != all[j].expression@
}

/// Some obligation has this text.
pub open spec fn den_text_kept(r: Seq<DenominatorObligation>, e: Seq<char>) -> bool {
    exists|k: int| 0 <= k < r.len() && (#[trigger] r[k]).expression@ == e
}

/// Some kept obligation has the expression of obligation `j`.
pub open spec fn den_expression_kept(r: Seq<DenominatorObligation>, all: Seq<DenominatorObligation>, j: int) -> bool {
    exists|k: int| 0 <= k < r.len() && (#[trigger] r[k]).expression@ == all[j].expression@
}

/// Kept obligation `k` is the first obligation with its expression.
pub open spec fn den_first_copy(r: Seq<DenominatorObligation>, all: Seq<DenominatorObligation>, k: int) -> bool {
    exists|j: int| #[trigger] first_den_with_expression(all, j) && den_view(r[k]) == den_view(all[j])
}

fn dedup_denominators(all: &Vec<DenominatorObligation>) -> (r: Vec<DenominatorObligation>)
    ensures
        forall|a: int, b: int| 0 <= a < b < r@.len() ==> (#[trigger] r@[a]).expression@ != (#[trigger] r@[b]).expression@,
        forall|j: int| 0 <= j < all@.len() ==> #[trigger] den_expression_kept(r@, all@, j),
        forall|k: int| 0 <= k < r@.len() ==> #[trigger] den_first_copy(r@, all@, k),
{
    let exprs = den_expressions(all);
    let keep = first_of_each(&exprs);
    let mut out: Vec<DenominatorObligation> = Vec::new();
    let mut i: usize = 0;
    while i < keep.len()
        invariant
            forall|k: int| 0 <= k < keep@.len() ==> keep@[k] < all@.len(),
            i <= keep@.len(),
            out@.len() == i,
            firsts(views(exprs@), keep@, exprs@.len() as int),
            exprs@.len() == all@.len(),
            forall|k: int| 0 <= k < exprs@.len() ==> (#[trigger] exprs@[k])@ == all@[k].expression@,
            forall|k: int| 0 <= k < i ==> (#[trigger] out@[k]).expression@ == all@[keep@[k] as int].expression@,
            forall|k: int| 0 <= k < i ==> den_view(#[trigger] out@[k]) == den_view(all@[keep@[k] as int]),
        decreases keep.len() - i,
    {
        let ob = &all[keep[i]];
        let ghost before = out@;
        out.push(DenominatorObligation { denominator: copy(&ob.denominator), expression: copy(&ob.expression), assumptions: crate::text::clone_texts(&ob.assumptions) });
        assert(den_view(out@[i as int]) == den_view(all@[keep@[i as int] as int]));
        assert forall|k: int| 0 <= k < i + 1 implies den_view(#[trigger] out@[k]) == den_view(all@[keep@[k] as int]) by {
            if k < i {
                assert(out@[k] == before[k]);
            }
        }
        i += 1;
    }
    assert forall|a: int, b: int| 0 <= a < b < out@.len() implies (#[trigger] out@[a]).expression@ != (#[trigger] out@[b]).expression@ by {
        assert(views(exprs@)[keep@[a] as int] == exprs@[keep@[a] as int]@);
        assert(views(exprs@)[keep@[b] as int] == exprs@[keep@[b] as int]@);
    }
    assert forall|j: int| 0 <= j < all@.len() implies #[trigger] den_expression_kept(out@, all@, j) by {
        assert(has_first(views(exprs@), keep@, j));
        let a = choose|a: int| #[trigger] kept_for(views(exprs@), keep@, a, j);
        assert(views(exprs@)[keep@[a] as int] == exprs@[keep@[a] as int]@);
        assert(views(exprs@)[j] == exprs@[j]@);
        assert(out@[a].expression@ == all@[j].expression@);
    }
    assert forall|k: int| 0 <= k < out@.len() implies #[trigger] den_first_copy(out@, all@, k) by {
        let j = keep@[k] as int;
        assert forall|i2: int| 0 <= i2 < j implies (#[trigger] all@[i2]).expression@ != all@[j].expression@ by {
            assert(views(exprs@)[i2] != views(exprs@)[keep@[k] as int]);
            assert(views(exprs@)[i2] == exprs@[i2]@);
            assert(views(exprs@)[j] == exprs@[j]@);
        }
        assert(first_den_with_expression(all@, j));
    }
    out
}

pub fn verification_division_obligations(body: &[char], params: &[Param], semantics: Option<&TrustFunctionSemantics>) -> (r: Vec<DenominatorObligation>)
    ensures
        semantics matches Some(s) ==> den_views(r@) == semantic_den_list(s.arithmetic_operations@, SemanticArithmeticKind::Div),
        semantics is None ==> forall|a: int, b: int| 0 <= a < b < r@.len() ==> (#[trigger] r@[a]).expression@
            != (#[trigger] r@[b]).expression@,
        semantics is None ==> forall|k: int| 0 <= k < r@.len() ==> #[trigger] crate::arith::den_text_of(r@[k], "/"@),
        semantics is None && crate::segments::straight_line(body@) ==> forall|k: int| 0 <= k < r@.len()
            ==> (#[trigger] r@[k]).assumptions@.len() == 0,
        semantics is None && crate::segments::straight_line(body@) ==> forall|idx: int| #[trigger] crate::arith::value_op_param_at(
            crate::segments::executable_view(body@), params@, "/"@, idx) ==> den_text_kept(r@, crate::segments::executable_view(
            body@)[idx] + " "@ + "/"@ + " "@ + crate::segments::executable_view(body@)[idx + 2]),
        semantics is None && crate::segments::straight_line(body@) && r@.len() > 0 ==> crate::tokens::has_token(crate::segments::executable_view(body@), "/"@),
{
    if semantics.is_some() {
        return semantic_denominator_obligations(semantics, SemanticArithmeticKind::Div);
    }
    let all = division_obligations(body, params);
    let r = dedup_denominators(&all);
    proof {
        assert forall|k: int| 0 <= k < r@.len() implies #[trigger] crate::arith::den_text_of(r@[k], "/"@)
            && (crate::segments::straight_line(body@) ==> r@[k].assumptions@.len() == 0) by {
            assert(den_first_copy(r@, all@, k));
            let j = choose|j: int| #[trigger] first_den_with_expression(all@, j) && den_view(r@[k]) == den_view(all@[j]);
            assert(crate::arith::den_text_of(all@[j], "/"@));
            assert(views(r@[k].assumptions@).len() == views(all@[j].assumptions@).len());
            if crate::segments::straight_line(body@) {
                assert(all@[j].assumptions@.len() == 0);
                assert(views(all@[j].assumptions@).len() == 0);
                assert(r@[k].assumptions@.len() == views(r@[k].assumptions@).len());
            }
        }
        if crate::segments::straight_line(body@) {
            assert forall|k: int| 0 <= k < r@.len() implies (#[trigger] r@[k]).assumptions@.len() == 0 by {
                assert(crate::arith::den_text_of(r@[k], "/"@));
            }
            let ev = crate::segments::executable_view(body@);
            assert forall|idx: int| #[trigger] crate::arith::value_op_param_at(ev, params@, "/"@, idx) implies den_text_kept(r@,
                ev[idx] + " "@ + "/"@ + " "@ + ev[idx + 2]) by {
                assert(crate::arith::den_site_recorded(all@, ev, "/"@, idx));
                let j = choose|j: int| 0 <= j < all@.len() && (#[trigger] all@[j]).expression@ == ev[idx] + " "@ + "/"@ + " "@
                    + ev[idx + 2];
                assert(den_expression_kept(r@, all@, j));
            }
        }
    }
    proof {
        if r@.len() > 0 {
            assert(den_first_copy(r@, all@, 0));
        }
    }
    r
}

pub fn verification_remainder_obligations(body: &[char], params: &[Param], semantics: Option<&TrustFunctionSemantics>) -> (r: Vec<DenominatorObligation>)
    ensures
        semantics matches Some(s) ==> den_views(r@) == semantic_den_list(s.arithmetic_operations@, SemanticArithmeticKind::Rem),
        semantics is None ==> forall|a: int, b: int| 0 <= a < b < r@.len() ==> (#[trigger] r@[a]).expression@
            != (#[trigger] r@[b]).expression@,
        semantics is None ==> forall|k: int| 0 <= k < r@.len() ==> #[trigger] crate::arith::den_text_of(r@[k], "%"@),
        semantics is None && crate::segments::straight_line(body@) ==> forall|k: int| 0 <= k < r@.len()
            ==> (#[trigger] r@[k]).assumptions@.len() == 0,
        semantics is None && crate::segments::straight_line(body@) ==> forall|idx: int| #[trigger] crate::arith::value_op_param_at(
            crate::segments::executable_view(body@), params@, "%"@, idx) ==> den_text_kept(r@, crate::segments::executable_view(
            body@)[idx] + " "@ + "%"@ + " "@ + crate::segments::executable_view(body@)[idx + 2]),
        semantics is None && crate::segments::straight_line(body@) && r@.len() > 0 ==> crate::tokens::has_token(crate::segments::executable_view(body@), "%"@),
{
    if semantics.is_some() {
        return semantic_denominator_obligations(semantics, SemanticArithmeticKind::Rem);
    }
    let all = remainder_obligations(body, params);
    let r = dedup_denominators(&all);
    proof {
        assert forall|k: int| 0 <= k < r@.len() implies #[trigger] crate::arith::den_text_of(r@[k], "%"@)
            && (crate::segments::straight_line(body@) ==> r@[k].assumptions@.len() == 0) by {
            assert(den_first_copy(r@, all@, k));
            let j = choose|j: int| #[trigger] first_den_with_expression(all@, j) && den_view(r@[k]) == den_view(all@[j]);
            assert(crate::arith::den_text_of(all@[j], "%"@));
            assert(views(r@[k].assumptions@).len() == views(all@[j].assumptions@).len());
            if crate::segments::straight_line(body@) {
                assert(all@[j].assumptions@.len() == 0);
                assert(views(all@[j].assumptions@).len() == 0);
                assert(r@[k].assumptions@.len() == views(r@[k].assumptions@).len());
            }
        }
        if crate::segments::straight_line(body@) {
            assert forall|k: int| 0 <= k < r@.len() implies (#[trigger] r@[k]).assumptions@.len() == 0 by {
                assert(crate::arith::den_text_of(r@[k], "%"@));
            }
            let ev = crate::segments::executable_view(body@);
            assert forall|idx: int| #[trigger] crate::arith::value_op_param_at(ev, params@, "%"@, idx) implies den_text_kept(r@,
                ev[idx] + " "@ + "%"@ + " "@ + ev[idx + 2]) by {
                assert(crate::arith::den_site_recorded(all@, ev, "%"@, idx));
                let j = choose|j: int| 0 <= j < all@.len() && (#[trigger] all@[j]).expression@ == ev[idx] + " "@ + "%"@ + " "@
                    + ev[idx + 2];
                assert(den_expression_kept(r@, all@, j));
            }
        }
    }
    proof {
        if r@.len() > 0 {
            assert(den_first_copy(r@, all@, 0));
        }
    }
    r
}

/// Some obligation has this text.
pub open spec fn division_text_kept(r: Seq<DivOverflowObligation>, e: Seq<char>) -> bool {
    exists|k: int| 0 <= k < r.len() && (#[trigger] r[k]).expression@ == e
}

pub fn verification_signed_division_overflow_obligations(body: &[char], params: &[Param], semantics: Option<&TrustFunctionSemantics>, kind: SemanticArithmeticKind, op: &str, w: Option<u32>) -> (r: Vec<DivOverflowObligation>)
    ensures
        semantics matches Some(s) ==> div_views(r@) == semantic_div_list(s.arithmetic_operations@, params@, kind, w),
        semantics is None ==> forall|a: int, b: int| 0 <= a < b < r@.len() ==> (#[trigger] r@[a]).expression@
            != (#[trigger] r@[b]).expression@,
        semantics is None ==> forall|k: int| 0 <= k < r@.len() ==> #[trigger] crate::arith::division_text_of(r@[k], op@),
        semantics is None && crate::segments::straight_line(body@) ==> forall|k: int| 0 <= k < r@.len()
            ==> (#[trigger] r@[k]).assumptions@.len() == 0,
        semantics is None && crate::segments::straight_line(body@) ==> forall|i: int| #[trigger] crate::arith::div_overflow_site(
            crate::segments::executable_view(body@), params@, op@, w, i) ==> division_text_kept(r@,
            crate::arith::div_site_text(crate::segments::executable_view(body@), op@, i)),
        semantics is None && crate::segments::straight_line(body@) && r@.len() > 0 ==> crate::tokens::has_token(crate::segments::executable_view(body@), op@),
        semantics is None ==> forall|k: int| 0 <= k < r@.len() ==> ((#[trigger] r@[k]).ty@ == "i32"@ || r@[k].ty@ == "i64"@),
{
    if semantics.is_some() {
        return semantic_signed_division_overflow_obligations(semantics, params, kind, w);
    }
    let all = signed_division_overflow_obligations(body, params, op, w);
    let exprs = div_expressions(&all);
    let keep = first_of_each(&exprs);
    let mut out: Vec<DivOverflowObligation> = Vec::new();
    let mut i: usize = 0;
    while i < keep.len()
        invariant
            forall|k: int| 0 <= k < keep@.len() ==> keep@[k] < all@.len(),
            i <= keep@.len(),
            out@.len() == i,
            firsts(views(exprs@), keep@, exprs@.len() as int),
            exprs@.len() == all@.len(),
            forall|k: int| 0 <= k < exprs@.len() ==> (#[trigger] exprs@[k])@ == all@[k].expression@,
            forall|k: int| 0 <= k < i ==> (#[trigger] out@[k]).expression@ == all@[keep@[k] as int].expression@,
            forall|k: int| 0 <= k < i ==> div_view(#[trigger] out@[k]) == div_view(all@[keep@[k] as int]),
        decreases keep.len() - i,
    {
        let ob = &all[keep[i]];
        let ghost before = out@;
        out.push(DivOverflowObligation { left: copy(&ob.left), right: copy(&ob.right), ty: copy(&ob.ty), expression: copy(&ob.expression), assumptions: crate::text::clone_texts(&ob.assumptions) });
        assert forall|k: int| 0 <= k < i + 1 implies div_view(#[trigger] out@[k]) == div_view(all@[keep@[k] as int]) by {
            if k < i {
                assert(out@[k] == before[k]);
            }
        }
        i += 1;
    }
    assert forall|a: int, b: int| 0 <= a < b < out@.len() implies (#[trigger] out@[a]).expression@ != (#[trigger] out@[b]).expression@ by {
        assert(views(exprs@)[keep@[a] as int] == exprs@[keep@[a] as int]@);
        assert(views(exprs@)[keep@[b] as int] == exprs@[keep@[b] as int]@);
    }
    assert forall|k: int| 0 <= k < out@.len() implies #[trigger] crate::arith::division_text_of(out@[k], op@) && (out@[k].ty@
        == "i32"@ || out@[k].ty@ == "i64"@) by {
        assert(div_view(out@[k]) == div_view(all@[keep@[k] as int]));
        assert(crate::arith::division_text_of(all@[keep@[k] as int], op@));
    }
    proof {
        if crate::segments::straight_line(body@) {
            assert forall|k: int| 0 <= k < out@.len() implies (#[trigger] out@[k]).assumptions@.len() == 0 by {
                assert(div_view(out@[k]) == div_view(all@[keep@[k] as int]));
                assert(all@[keep@[k] as int].assumptions@.len() == 0);
                assert(views(out@[k].assumptions@).len() == 0);
            }
            let ev = crate::segments::executable_view(body@);
            assert forall|i2: int| #[trigger] crate::arith::div_overflow_site(ev, params@, op@, w, i2) implies division_text_kept(
                out@, crate::arith::div_site_text(ev, op@, i2)) by {
                let e = crate::arith::div_site_text(ev, op@, i2);
                assert(crate::arith::div_site_recorded(all@, ev, op@, i2));
                let j = choose|j: int| 0 <= j < all@.len() && (#[trigger] all@[j]).left@ == crate::arith::operand_before_view(ev,
                    i2)->0 && all@[j].right@ == crate::arith::operand_after_view(ev, i2 + 1)->0 && all@[j].expression@ == e;
                assert(has_first(views(exprs@), keep@, j));
                let a = choose|a: int| #[trigger] kept_for(views(exprs@), keep@, a, j);
                assert(views(exprs@)[keep@[a] as int] == exprs@[keep@[a] as int]@);
                assert(views(exprs@)[j] == exprs@[j]@);
                assert(out@[a].expression@ == e);
            }
        }
    }
    proof {
        if out@.len() > 0 {
            assert(keep@[0] < all@.len());
        }
    }
    out
}

pub fn verification_division_overflow_obligations(body: &[char], params: &[Param], semantics: Option<&TrustFunctionSemantics>, options: VerificationOptions) -> (r: Vec<DivOverflowObligation>)
    ensures
        semantics matches Some(s) ==> div_views(r@) == semantic_div_list(s.arithmetic_operations@, params@, SemanticArithmeticKind::Div, options.target_pointer_width),
        semantics is None ==> forall|a: int, b: int| 0 <= a < b < r@.len() ==> (#[trigger] r@[a]).expression@
            != (#[trigger] r@[b]).expression@,
        semantics is None ==> forall|k: int| 0 <= k < r@.len() ==> #[trigger] crate::arith::division_text_of(r@[k], "/"@),
        semantics is None && crate::segments::straight_line(body@) ==> forall|k: int| 0 <= k < r@.len()
            ==> (#[trigger] r@[k]).assumptions@.len() == 0,
        semantics is None && crate::segments::straight_line(body@) ==> forall|i: int| #[trigger] crate::arith::div_overflow_site(
            crate::segments::executable_view(body@), params@, "/"@, options.target_pointer_width, i) ==> division_text_kept(r@,
            crate::arith::div_site_text(crate::segments::executable_view(body@), "/"@, i)),
        semantics is None && crate::segments::straight_line(body@) && r@.len() > 0 ==> crate::tokens::has_token(crate::segments::executable_view(body@), "/"@),
        semantics is None ==> forall|k: int| 0 <= k < r@.len() ==> ((#[trigger] r@[k]).ty@ == "i32"@ || r@[k].ty@ == "i64"@),
{
    verification_signed_division_overflow_obligations(body, params, semantics, SemanticArithmeticKind::Div, "/", options.target_pointer_width)
}

pub fn verification_remainder_overflow_obligations(body: &[char], params: &[Param], semantics: Option<&TrustFunctionSemantics>, options: VerificationOptions) -> (r: Vec<DivOverflowObligation>)
    ensures
        semantics matches Some(s) ==> div_views(r@) == semantic_div_list(s.arithmetic_operations@, params@, SemanticArithmeticKind::Rem, options.target_pointer_width),
        semantics is None ==> forall|a: int, b: int| 0 <= a < b < r@.len() ==> (#[trigger] r@[a]).expression@
            != (#[trigger] r@[b]).expression@,
        semantics is None ==> forall|k: int| 0 <= k < r@.len() ==> #[trigger] crate::arith::division_text_of(r@[k], "%"@),
        semantics is None && crate::segments::straight_line(body@) ==> forall|k: int| 0 <= k < r@.len()
            ==> (#[trigger] r@[k]).assumptions@.len() == 0,
        semantics is None && crate::segments::straight_line(body@) ==> forall|i: int| #[trigger] crate::arith::div_overflow_site(
            crate::segments::executable_view(body@), params@, "%"@, options.target_pointer_width, i) ==> division_text_kept(r@,
            crate::arith::div_site_text(crate::segments::executable_view(body@), "%"@, i)),
        semantics is None && crate::segments::straight_line(body@) && r@.len() > 0 ==> crate::tokens::has_token(crate::segments::executable_view(body@), "%"@),
        semantics is None ==> forall|k: int| 0 <= k < r@.len() ==> ((#[trigger] r@[k]).ty@ == "i32"@ || r@[k].ty@ == "i64"@),
{
    verification_signed_division_overflow_obligations(body, params, semantics, SemanticArithmeticKind::Rem, "%", options.target_pointer_width)
}

/// In a straight-line body, a signed division `l / r` (or remainder
/// `l % r`, as `op` says) at `i` that can overflow and whose text holds no
/// brace.
pub open spec fn uncovered_division_site(body: Seq<char>, params: Seq<Param>, w: Option<u32>, op: Seq<char>, i: int) -> bool {
    let ev = crate::segments::executable_view(body);
    &&& crate::segments::straight_line(body)
    &&& crate::arith::div_overflow_site(ev, params, op, w, i)
    &&& needs_cover(seq![], crate::arith::operand_before_view(ev, i)->0 + " "@ + op + " "@ + crate::arith::operand_after_view(
        ev, i + 1)->0)
}

/// An arithmetic operation the tokens show that the compiler's facts do
/// not cover; `None` when no facts are given.
pub fn semantic_arithmetic_extraction_gap(body: &[char], params: &[Param], semantics: Option<&TrustFunctionSemantics>, options: VerificationOptions) -> (r: Option<Vec<char>>)
    ensures
        semantics is None ==> r is None,
        (semantics matches Some(s) && semantic_div_list(s.arithmetic_operations@, params@, SemanticArithmeticKind::Div,
            options.target_pointer_width).len() == 0) ==> forall|i: int| #[trigger] uncovered_division_site(body@, params@,
            options.target_pointer_width, "/"@, i) ==> r is Some,
        (semantics matches Some(s) && semantic_div_list(s.arithmetic_operations@, params@, SemanticArithmeticKind::Rem,
            options.target_pointer_width).len() == 0) ==> forall|i: int| #[trigger] uncovered_division_site(body@, params@,
            options.target_pointer_width, "%"@, i) ==> r is Some,
        (semantics is Some && crate::segments::straight_line(body@) && !crate::tokens::has_token(crate::segments::executable_view(
            body@), "+"@) && !crate::tokens::has_token(crate::segments::executable_view(body@), "-"@)
            && !crate::tokens::has_token(crate::segments::executable_view(body@), "*"@) && !crate::tokens::has_token(
            crate::segments::executable_view(body@), "/"@) && !crate::tokens::has_token(crate::segments::executable_view(body@),
            "%"@)) ==> r is None,
        semantics matches Some(s) ==> crate::segments::straight_line(body@) ==> forall|i: int| #[trigger]
            crate::arith::param_op_literal_at(crate::segments::executable_view(body@), params@, "+"@, i) && needs_cover(
            semantic_add_texts(*s, params@, options.target_pointer_width), crate::segments::executable_view(body@)[i] + " + "@
            + crate::segments::executable_view(body@)[i + 2]) ==> r is Some,
        semantics matches Some(s) ==> crate::segments::straight_line(body@) ==> forall|i: int| #[trigger]
            crate::arith::sub_site_at(crate::segments::executable_view(body@), params@, i) && needs_cover(semantic_sub_texts(*s,
            params@, options.target_pointer_width), crate::segments::executable_view(body@)[i] + " - "@
            + crate::segments::executable_view(body@)[i + 2]) ==> r is Some,
        semantics matches Some(s) ==> crate::segments::straight_line(body@) ==> forall|i: int| #[trigger]
            crate::arith::param_op_literal_at(crate::segments::executable_view(body@), params@, "*"@, i)
            && crate::text::parse_i128_spec(crate::segments::executable_view(body@)[i + 2])->0 > 1 && needs_cover(
            semantic_mul_texts(*s, params@, options.target_pointer_width), crate::segments::executable_view(body@)[i] + " * "@
            + crate::segments::executable_view(body@)[i + 2]) ==> r is Some,
{
    if semantics.is_none() {
        return None;
    }
    let w = options.target_pointer_width;
    let sem_adds = semantic_addition_obligations(semantics, params, w);
    let sem_add_texts = add_expressions(&sem_adds);
    let tok_adds = crate::arith::addition_obligations(body, params);
    let tok_add_texts = add_expressions(&tok_adds);
    let add_gap = semantic_obligation_gap(&sem_add_texts, &tok_add_texts);
    proof {
        let s = semantics->0;
        assert(views(sem_add_texts@) =~= semantic_add_texts(*s, params@, w)) by {
            assert forall|k: int| 0 <= k < sem_add_texts@.len() implies views(sem_add_texts@)[k] == semantic_add_texts(*s, params@, w)[k] by {
                assert(add_views(sem_adds@)[k] == add_view(sem_adds@[k]));
            }
        }
        if add_gap is None && crate::segments::straight_line(body@) {
            let ev = crate::segments::executable_view(body@);
            assert forall|i: int| #[trigger] crate::arith::param_op_literal_at(ev, params@, "+"@, i) implies !needs_cover(
                semantic_add_texts(*s, params@, w), ev[i] + " + "@ + ev[i + 2]) by {
                let e = ev[i] + " + "@ + ev[i + 2];
                assert(crate::arith::add_text_recorded(tok_adds@, e));
                let k = choose|k: int| 0 <= k < tok_adds@.len() && (#[trigger] tok_adds@[k]).expression@ == e;
                assert(tok_add_texts@[k]@ == e);
            }
        }
    }
    if let Some(g) = add_gap {
        return Some(g);
    }
    let sem_subs = semantic_subtraction_obligations(semantics, params, w);
    let sem_sub_texts = sub_expressions(&sem_subs);
    let tok_subs = subtraction_obligations(body, params);
    let tok_sub_texts = sub_expressions(&tok_subs);
    let sub_gap = semantic_obligation_gap(&sem_sub_texts, &tok_sub_texts);
    proof {
        let s = semantics->0;
        assert(views(sem_sub_texts@) =~= semantic_sub_texts(*s, params@, w)) by {
            assert forall|k: int| 0 <= k < sem_sub_texts@.len() implies views(sem_sub_texts@)[k] == semantic_sub_texts(*s, params@, w)[k] by {
                assert(sub_views(sem_subs@)[k] == sub_view(sem_subs@[k]));
            }
        }
        if sub_gap is None && crate::segments::straight_line(body@) {
            let ev = crate::segments::executable_view(body@);
            assert forall|i: int| #[trigger] crate::arith::sub_site_at(ev, params@, i) implies !needs_cover(
                semantic_sub_texts(*s, params@, w), ev[i] + " - "@ + ev[i + 2]) by {
                let e = ev[i] + " - "@ + ev[i + 2];
                assert(crate::arith::sub_text_recorded(tok_subs@, e));
                let k = choose|k: int| 0 <= k < tok_subs@.len() && (#[trigger] tok_subs@[k]).expression@ == e;
                assert(tok_sub_texts@[k]@ == e);
            }
        }
    }
    if let Some(g) = sub_gap {
        return Some(g);
    }
    if let Some(g) = semantic_obligation_gap(&neg_expressions(&semantic_negation_obligations(semantics, params, w)), &neg_expressions(&negation_obligations(body, params))) {
        return Some(g);
    }
    let sem_muls = semantic_multiplication_obligations(semantics, params, w);
    let sem_mul_texts = mul_expressions(&sem_muls);
    let tok_muls = multiplication_obligations(body, params);
    let tok_mul_texts = mul_expressions(&tok_muls);
    let mul_gap = semantic_obligation_gap(&sem_mul_texts, &tok_mul_texts);
    proof {
        let s = semantics->0;
        assert(views(sem_mul_texts@) =~= semantic_mul_texts(*s, params@, w)) by {
            assert forall|k: int| 0 <= k < sem_mul_texts@.len() implies views(sem_mul_texts@)[k] == semantic_mul_texts(*s, params@, w)[k] by {
                assert(mul_views(sem_muls@)[k] == mul_view(sem_muls@[k]));
            }
        }
        if mul_gap is None && crate::segments::straight_line(body@) {
            let ev = crate::segments::executable_view(body@);
            assert forall|i: int| #[trigger] crate::arith::param_op_literal_at(ev, params@, "*"@, i)
                && crate::text::parse_i128_spec(ev[i + 2])->0 > 1 implies !needs_cover(
                semantic_mul_texts(*s, params@, w), ev[i] + " * "@ + ev[i + 2]) by {
                let e = ev[i] + " * "@ + ev[i + 2];
                assert(crate::arith::mul_text_recorded(tok_muls@, e));
                let k = choose|k: int| 0 <= k < tok_muls@.len() && (#[trigger] tok_muls@[k]).expression@ == e;
                assert(tok_mul_texts@[k]@ == e);
            }
        }
    }
    if let Some(g) = mul_gap {
        return Some(g);
    }
    if let Some(g) = semantic_obligation_gap(&den_expressions(&semantic_denominator_obligations(semantics, SemanticArithmeticKind::Div)), &den_expressions(&division_obligations(body, params))) {
        return Some(g);
    }
    if let Some(g) = semantic_obligation_gap(&den_expressions(&semantic_denominator_obligations(semantics, SemanticArithmeticKind::Rem)), &den_expressions(&remainder_obligations(body, params))) {
        return Some(g);
    }
    let sem_divs = semantic_signed_division_overflow_obligations(semantics, params, SemanticArithmeticKind::Div, w);
    let sem_div_texts = div_expressions(&sem_divs);
    let tok_divs = signed_division_overflow_obligations(body, params, "/", w);
    let tok_div_texts = div_expressions(&tok_divs);
    if let Some(g) = semantic_obligation_gap(&sem_div_texts, &tok_div_texts) {
        return Some(g);
    }
    proof {
        reveal_strlit("/");
        let s = semantics->0;
        if semantic_div_list(s.arithmetic_operations@, params@, SemanticArithmeticKind::Div, w).len() == 0 {
            assert(div_views(sem_divs@).len() == 0);
            assert(views(sem_div_texts@) =~= seq![]);
            assert forall|i: int| #[trigger] uncovered_division_site(body@, params@, w, "/"@, i) implies false by {
                let ev = crate::segments::executable_view(body@);
                assert(crate::arith::div_site_recorded(tok_divs@, ev, "/"@, i));
                let e = crate::arith::operand_before_view(ev, i)->0 + " "@ + "/"@ + " "@ + crate::arith::operand_after_view(ev,
                    i + 1)->0;
                let k = choose|k: int| 0 <= k < tok_divs@.len() && (#[trigger] tok_divs@[k]).left@
                    == crate::arith::operand_before_view(ev, i)->0 && tok_divs@[k].right@ == crate::arith::operand_after_view(ev,
                    i + 1)->0 && tok_divs@[k].expression@ == e;
                assert(tok_div_texts@[k]@ == e);
                assert(!needs_cover(views(sem_div_texts@), tok_div_texts@[k]@));
            }
        }
    }
    let sem_rems = semantic_signed_division_overflow_obligations(semantics, params, SemanticArithmeticKind::Rem, w);
    let sem_rem_texts = div_expressions(&sem_rems);
    let tok_rems = signed_division_overflow_obligations(body, params, "%", w);
    let tok_rem_texts = div_expressions(&tok_rems);
    let gap = semantic_obligation_gap(&sem_rem_texts, &tok_rem_texts);
    proof {
        reveal_strlit("%");
        let s = semantics->0;
        if gap is None && semantic_div_list(s.arithmetic_operations@, params@, SemanticArithmeticKind::Rem, w).len() == 0 {
            assert(div_views(sem_rems@).len() == 0);
            assert(views(sem_rem_texts@) =~= seq![]);
            assert forall|i: int| #[trigger] uncovered_division_site(body@, params@, w, "%"@, i) implies false by {
                let ev = crate::segments::executable_view(body@);
                assert(crate::arith::div_site_recorded(tok_rems@, ev, "%"@, i));
                let e = crate::arith::operand_before_view(ev, i)->0 + " "@ + "%"@ + " "@ + crate::arith::operand_after_view(ev,
                    i + 1)->0;
                let k = choose|k: int| 0 <= k < tok_rems@.len() && (#[trigger] tok_rems@[k]).left@
                    == crate::arith::operand_before_view(ev, i)->0 && tok_rems@[k].right@ == crate::arith::operand_after_view(ev,
                    i + 1)->0 && tok_rems@[k].expression@ == e;
                assert(tok_rem_texts@[k]@ == e);
                assert(!needs_cover(views(sem_rem_texts@), tok_rem_texts@[k]@));
            }
        }
    }
    gap
}

} // verus!
