//! Facts the compiler front end extracts about a Trust function, and the
//! errors the verifier reports.

use crate::text::{append, append_lit, chars_of, string_of};
use vstd::prelude::*;

verus! {

/// Marker for types whose fields Trust may reason about.
pub trait TrustModel {}

#[derive(Debug, Clone, PartialEq, Eq, Hash)]
pub struct TrustFunctionSemantics {
    pub rust_function_path: String,
    pub params: Vec<SemanticParam>,
    pub return_type: String,
    pub local_types: Vec<String>,
    pub contract_bindings: Vec<SemanticContractBinding>,
    pub return_expression: Option<String>,
    pub arithmetic_operations: Vec<SemanticArithmeticOperation>,
    pub slice_indexes: Vec<SemanticSliceIndex>,
    pub calls: Vec<SemanticCall>,
    pub field_accesses: Vec<SemanticFieldAccess>,
    pub matches: Vec<SemanticMatch>,
    pub branches: Vec<SemanticBranch>,
}

#[derive(Debug, Clone, PartialEq, Eq, Hash)]
pub struct SemanticParam {
    pub name: String,
    pub ty: String,
}

#[derive(Debug, Clone, PartialEq, Eq, Hash)]
pub struct SemanticContractBinding {
    pub expression: String,
    pub name: String,
    pub kind: SemanticContractBindingKind,
    pub ty: String,
}

#[derive(Debug, Clone, Copy, PartialEq, Eq, Hash)]
pub enum SemanticContractBindingKind {
    Param,
    Result,
    Field,
    Local,
}

#[derive(Debug, Clone, PartialEq, Eq, Hash)]
pub struct SemanticArithmeticOperation {
    pub kind: SemanticArithmeticKind,
    pub ty: Option<String>,
    pub target: Option<String>,
    pub left: String,
    pub right: Option<String>,
    pub expression: String,
    pub guards: Vec<String>,
}

#[derive(Debug, Clone, Copy, PartialEq, Eq, Hash)]
pub enum SemanticArithmeticKind {
    Add,
    Sub,
    Mul,
    Neg,
    Div,
    Rem,
}

#[derive(Debug, Clone, PartialEq, Eq, Hash)]
pub struct SemanticSliceIndex {
    pub base: String,
    pub base_type: String,
    pub index: String,
    pub index_type: String,
    pub element_type: String,
    pub expression: String,
    pub guards: Vec<String>,
}

#[derive(Debug, Clone, PartialEq, Eq, Hash)]
pub struct SemanticCall {
    pub callee: String,
    pub args: Vec<String>,
    pub guards: Vec<String>,
    pub trust_callee: Option<SemanticTrustCallee>,
}

#[derive(Debug, Clone, PartialEq, Eq, Hash)]
pub struct SemanticTrustCallee {
    pub rust_function_path: String,
    pub params: Vec<SemanticParam>,
    pub preconditions: Vec<String>,
}

#[derive(Debug, Clone, PartialEq, Eq, Hash)]
pub struct SemanticFieldAccess {
    pub base: String,
    pub field: String,
    pub owner_type: String,
    pub field_type: String,
    pub expression: String,
}

#[derive(Debug, Clone, PartialEq, Eq, Hash)]
pub struct SemanticMatch {
    pub scrutinee: String,
    pub scrutinee_type: String,
    pub arms: Vec<SemanticMatchArm>,
}

#[derive(Debug, Clone, PartialEq, Eq, Hash)]
pub struct SemanticMatchArm {
    pub variant: String,
    pub discriminant: String,
    pub payload: Option<SemanticMatchPayload>,
    pub assumptions: Vec<String>,
    pub return_expression: Option<String>,
}

#[derive(Debug, Clone, PartialEq, Eq, Hash)]
pub struct SemanticMatchPayload {
    pub binding: String,
    pub field_index: usize,
    pub ty: String,
}

#[derive(Debug, Clone, PartialEq, Eq, Hash)]
pub struct SemanticBranch {
    pub condition: String,
    pub arms: Vec<SemanticBranchArm>,
}

#[derive(Debug, Clone, PartialEq, Eq, Hash)]
pub struct SemanticBranchArm {
    pub guard: String,
    pub assumptions: Vec<String>,
    pub return_expression: Option<String>,
}

#[derive(Debug, Clone, PartialEq, Eq)]
pub enum VerificationError {
    IntegerAdditionOverflow { function: String, expression: String },
    IntegerSubtractionOverflow { function: String, expression: String },
    IntegerNegationOverflow { function: String, expression: String },
    IntegerMultiplicationOverflow { function: String, expression: String },
    IntegerDivisionOverflow { function: String, expression: String },
    IntegerRemainderOverflow { function: String, expression: String },
    IntegerDivisionByZero { function: String, expression: String },
    IntegerRemainderByZero { function: String, expression: String },
    SliceIndexOutOfBounds { function: String, expression: String },
    UnsupportedIndex { function: String, expression: String },
    CalleePreconditionUnproved { function: String, callee: String, condition: String },
    MissingTrustModel { function: String, ty: String },
    UnsupportedType { function: String, ty: String },
    LoopMissingSpec { function: String },
    LoopAmbiguousSpec { function: String },
    LoopMissingDecreases { function: String },
    LoopInvariantNotEstablished { function: String, invariant: String },
    LoopInvariantNotPreserved { function: String, invariant: String },
    LoopDecreasesNotDecreasing { function: String, measure: String },
    UnsupportedLoopControl { function: String, keyword: String },
    UnsupportedCall { function: String, callee: String },
    UnsupportedClosure { function: String },
    SemanticExtractionIncomplete { function: String, category: String, expression: String },
    ExplicitPanic { function: String },
    UncheckedUnwrap { function: String },
    PostconditionUnproved { function: String, condition: String },
    ProofObligationUnproved { proof: String, condition: String },
    UnsupportedProofStep { proof: String },
}

/// `prefix` + `name` + `middle` + `value` + `` ` ``: the shape most messages have.
fn two_part(prefix: &str, name: &String, middle: &str, value: &String) -> (s: String)
    ensures
        s@ == prefix@ + name@ + middle@ + value@ + "`"@,
{
    let mut out = chars_of(prefix);
    append(&mut out, &chars_of(name.as_str()));
    append_lit(&mut out, middle);
    append(&mut out, &chars_of(value.as_str()));
    append_lit(&mut out, "`");
    string_of(&out)
}

fn one_part(prefix: &str, name: &String, suffix: &str) -> (s: String)
    ensures
        s@ == prefix@ + name@ + suffix@,
{
    let mut out = chars_of(prefix);
    append(&mut out, &chars_of(name.as_str()));
    append_lit(&mut out, suffix);
    string_of(&out)
}

impl VerificationError {
    /// The message this error is displayed with.
    pub fn message(&self) -> (s: String)
        ensures
            s@ == self.message_spec(),
    {
        match self {
            VerificationError::IntegerAdditionOverflow { function, expression } => two_part(
                "could not prove integer addition cannot overflow in `", function, "`: `", expression),
            VerificationError::IntegerSubtractionOverflow { function, expression } => two_part(
                "could not prove integer subtraction cannot overflow in `", function, "`: `", expression),
            VerificationError::IntegerNegationOverflow { function, expression } => two_part(
                "could not prove integer negation cannot overflow in `", function, "`: `", expression),
            VerificationError::IntegerMultiplicationOverflow { function, expression } => two_part(
                "could not prove integer multiplication cannot overflow in `", function, "`: `", expression),
            VerificationError::IntegerDivisionOverflow { function, expression } => two_part(
                "could not prove integer division cannot overflow in `", function, "`: `", expression),
            VerificationError::IntegerRemainderOverflow { function, expression } => two_part(
                "could not prove integer remainder cannot overflow in `", function, "`: `", expression),
            VerificationError::IntegerDivisionByZero { function, expression } => two_part(
                "could not prove integer division denominator is nonzero in `", function, "`: `", expression),
            VerificationError::IntegerRemainderByZero { function, expression } => two_part(
                "could not prove integer remainder denominator is nonzero in `", function, "`: `", expression),
            VerificationError::SliceIndexOutOfBounds { function, expression } => two_part(
                "could not prove index is in bounds in `", function, "`: `", expression),
            VerificationError::UnsupportedIndex { function, expression } => two_part(
                "unsupported index expression in `", function, "`: `", expression),
            VerificationError::CalleePreconditionUnproved { function, callee, condition } => {
                let mut out = chars_of("could not prove callee precondition in `");
                append(&mut out, &chars_of(function.as_str()));
                append_lit(&mut out, "` for `");
                append(&mut out, &chars_of(callee.as_str()));
                append_lit(&mut out, "`: `");
                append(&mut out, &chars_of(condition.as_str()));
                append_lit(&mut out, "`");
                string_of(&out)
            },
            VerificationError::MissingTrustModel { function: _, ty } => one_part(
                "type ", ty, " must derive TrustModel before Trust may reason about its fields"),
            VerificationError::UnsupportedType { function, ty } => two_part(
                "unsupported type in `", function, "`: `", ty),
            VerificationError::LoopMissingSpec { function } => one_part(
                "loop in `", function, "` requires loop_spec"),
            VerificationError::LoopAmbiguousSpec { function } => one_part(
                "multiple loop_spec blocks before loop in `", function, "`"),
            VerificationError::LoopMissingDecreases { function: _ } => string_of(
                &chars_of("loop in total function requires decreases measure")),
            VerificationError::LoopInvariantNotEstablished { function: _, invariant: _ } => string_of(
                &chars_of("loop invariant may not hold before loop entry")),
            VerificationError::LoopInvariantNotPreserved { function: _, invariant: _ } => string_of(
                &chars_of("loop invariant may not be preserved")),
            VerificationError::LoopDecreasesNotDecreasing { function: _, measure: _ } => string_of(
                &chars_of("loop decreases measure may not strictly decrease")),
            VerificationError::UnsupportedLoopControl { function, keyword } => {
                let mut out = chars_of("`");
                append(&mut out, &chars_of(keyword.as_str()));
                append_lit(&mut out, "` is not supported in loops in `");
                append(&mut out, &chars_of(function.as_str()));
                append_lit(&mut out, "`");
                string_of(&out)
            },
            VerificationError::UnsupportedCall { function, callee } => two_part(
                "unsupported function call in `", function, "`: `", callee),
            VerificationError::UnsupportedClosure { function } => one_part(
                "closures are not supported in `", function, "`"),
            VerificationError::SemanticExtractionIncomplete { function, category, expression } => {
                let mut out = chars_of("rustc semantic extraction did not cover ");
                append(&mut out, &chars_of(category.as_str()));
                append_lit(&mut out, " in `");
                append(&mut out, &chars_of(function.as_str()));
                append_lit(&mut out, "`: `");
                append(&mut out, &chars_of(expression.as_str()));
                append_lit(&mut out, "`");
                string_of(&out)
            },
            VerificationError::ExplicitPanic { function } => one_part(
                "explicit panic is not supported in `", function, "`"),
            VerificationError::UncheckedUnwrap { function: _ } => string_of(
                &chars_of("unchecked unwrap is not supported; prove Some or use match")),
            VerificationError::PostconditionUnproved { function, condition } => two_part(
                "could not prove postcondition in `", function, "`: `", condition),
            VerificationError::ProofObligationUnproved { proof, condition } => two_part(
                "could not prove proof obligation in `", proof, "`: `", condition),
            VerificationError::UnsupportedProofStep { proof } => one_part(
                "unsupported proof step in `", proof, "`"),
        }
    }

    pub open spec fn message_spec(&self) -> Seq<char> {
        match self {
            VerificationError::IntegerAdditionOverflow { function, expression } =>
                "could not prove integer addition cannot overflow in `"@ + function@ + "`: `"@ + expression@ + "`"@,
            VerificationError::IntegerSubtractionOverflow { function, expression } =>
                "could not prove integer subtraction cannot overflow in `"@ + function@ + "`: `"@ + expression@ + "`"@,
            VerificationError::IntegerNegationOverflow { function, expression } =>
                "could not prove integer negation cannot overflow in `"@ + function@ + "`: `"@ + expression@ + "`"@,
            VerificationError::IntegerMultiplicationOverflow { function, expression } =>
                "could not prove integer multiplication cannot overflow in `"@ + function@ + "`: `"@ + expression@ + "`"@,
            VerificationError::IntegerDivisionOverflow { function, expression } =>
                "could not prove integer division cannot overflow in `"@ + function@ + "`: `"@ + expression@ + "`"@,
            VerificationError::IntegerRemainderOverflow { function, expression } =>
                "could not prove integer remainder cannot overflow in `"@ + function@ + "`: `"@ + expression@ + "`"@,
            VerificationError::IntegerDivisionByZero { function, expression } =>
                "could not prove integer division denominator is nonzero in `"@ + function@ + "`: `"@ + expression@ + "`"@,
            VerificationError::IntegerRemainderByZero { function, expression } =>
                "could not prove integer remainder denominator is nonzero in `"@ + function@ + "`: `"@ + expression@ + "`"@,
            VerificationError::SliceIndexOutOfBounds { function, expression } =>
                "could not prove index is in bounds in `"@ + function@ + "`: `"@ + expression@ + "`"@,
            VerificationError::UnsupportedIndex { function, expression } =>
                "unsupported index expression in `"@ + function@ + "`: `"@ + expression@ + "`"@,
            VerificationError::CalleePreconditionUnproved { function, callee, condition } =>
                "could not prove callee precondition in `"@ + function@ + "` for `"@ + callee@ + "`: `"@ + condition@ + "`"@,
            VerificationError::MissingTrustModel { function: _, ty } =>
                "type "@ + ty@ + " must derive TrustModel before Trust may reason about its fields"@,
            VerificationError::UnsupportedType { function, ty } =>
                "unsupported type in `"@ + function@ + "`: `"@ + ty@ + "`"@,
            VerificationError::LoopMissingSpec { function } =>
                "loop in `"@ + function@ + "` requires loop_spec"@,
            VerificationError::LoopAmbiguousSpec { function } =>
                "multiple loop_spec blocks before loop in `"@ + function@ + "`"@,
            VerificationError::LoopMissingDecreases { function: _ } =>
                "loop in total function requires decreases measure"@,
            VerificationError::LoopInvariantNotEstablished { function: _, invariant: _ } =>
                "loop invariant may not hold before loop entry"@,
            VerificationError::LoopInvariantNotPreserved { function: _, invariant: _ } =>
                "loop invariant may not be preserved"@,
            VerificationError::LoopDecreasesNotDecreasing { function: _, measure: _ } =>
                "loop decreases measure may not strictly decrease"@,
            VerificationError::UnsupportedLoopControl { function, keyword } =>
                "`"@ + keyword@ + "` is not supported in loops in `"@ + function@ + "`"@,
            VerificationError::UnsupportedCall { function, callee } =>
                "unsupported function call in `"@ + function@ + "`: `"@ + callee@ + "`"@,
            VerificationError::UnsupportedClosure { function } =>
                "closures are not supported in `"@ + function@ + "`"@,
            VerificationError::SemanticExtractionIncomplete { function, category, expression } =>
                "rustc semantic extraction did not cover "@ + category@ + " in `"@ + function@ + "`: `"@ + expression@ + "`"@,
            VerificationError::ExplicitPanic { function } =>
                "explicit panic is not supported in `"@ + function@ + "`"@,
            VerificationError::UncheckedUnwrap { function: _ } =>
                "unchecked unwrap is not supported; prove Some or use match"@,
            VerificationError::PostconditionUnproved { function, condition } =>
                "could not prove postcondition in `"@ + function@ + "`: `"@ + condition@ + "`"@,
            VerificationError::ProofObligationUnproved { proof, condition } =>
                "could not prove proof obligation in `"@ + proof@ + "`: `"@ + condition@ + "`"@,
            VerificationError::UnsupportedProofStep { proof } =>
                "unsupported proof step in `"@ + proof@ + "`"@,
        }
    }
    /// The item an error is about: the function, or the proof, it rejects.
    pub open spec fn subject_spec(&self) -> Seq<char> {
        match self {
            VerificationError::IntegerAdditionOverflow { function, .. } => function@,
            VerificationError::IntegerSubtractionOverflow { function, .. } => function@,
            VerificationError::IntegerNegationOverflow { function, .. } => function@,
            VerificationError::IntegerMultiplicationOverflow { function, .. } => function@,
            VerificationError::IntegerDivisionOverflow { function, .. } => function@,
            VerificationError::IntegerRemainderOverflow { function, .. } => function@,
            VerificationError::IntegerDivisionByZero { function, .. } => function@,
            VerificationError::IntegerRemainderByZero { function, .. } => function@,
            VerificationError::SliceIndexOutOfBounds { function, .. } => function@,
            VerificationError::UnsupportedIndex { function, .. } => function@,
            VerificationError::CalleePreconditionUnproved { function, .. } => function@,
            VerificationError::MissingTrustModel { function, .. } => function@,
            VerificationError::UnsupportedType { function, .. } => function@,
            VerificationError::LoopMissingSpec { function } => function@,
            VerificationError::LoopAmbiguousSpec { function } => function@,
            VerificationError::LoopMissingDecreases { function } => function@,
            VerificationError::LoopInvariantNotEstablished { function, .. } => function@,
            VerificationError::LoopInvariantNotPreserved { function, .. } => function@,
            VerificationError::LoopDecreasesNotDecreasing { function, .. } => function@,
            VerificationError::UnsupportedLoopControl { function, .. } => function@,
            VerificationError::UnsupportedCall { function, .. } => function@,
            VerificationError::UnsupportedClosure { function } => function@,
            VerificationError::SemanticExtractionIncomplete { function, .. } => function@,
            VerificationError::ExplicitPanic { function } => function@,
            VerificationError::UncheckedUnwrap { function } => function@,
            VerificationError::PostconditionUnproved { function, .. } => function@,
            VerificationError::ProofObligationUnproved { proof, .. } => proof@,
            VerificationError::UnsupportedProofStep { proof } => proof@,
        }
    }
}

} // verus!
