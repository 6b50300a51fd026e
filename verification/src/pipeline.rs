//! The verifier for `trust::total!` functions and `trust::proof!` items:
//! each total function must be free of panics, overflow, out-of-bounds
//! indexing and unmet callee preconditions, its loops must terminate, and
//! its postconditions must follow; each proof must assert what it gives.

use crate::arith::{AddObligation, DivOverflowObligation, DenominatorObligation, MulObligation, NegObligation, SubObligation};
use crate::calls::{
    contains_closure, contains_explicit_panic, contains_semantic_closure, contains_semantic_explicit_panic,
    contains_semantic_unchecked_unwrap, contains_unchecked_unwrap, contains_unsupported_proof_step,
    proof_body_asserts, semantic_call_extraction_gap, unsupported_call, unsupported_semantic_call,
    verification_call_env, verification_call_obligations, CallObligation, TrustFunctionSummary,
};
use crate::discharge::{
    addition_obligation_proved, callee_precondition_proved, contracts_with_assumptions, denominator_nonzero,
    multiplication_obligation_proved, negation_obligation_proved, signed_division_overflow_obligation_proved,
    slice_index_obligation_proved, subtraction_obligation_proved,
};
use crate::index::{
    semantic_field_access_extraction_gap, semantic_slice_index_extraction_gap, unsupported_index_expression,
    verification_field_access_types, verification_slice_index_obligations,
};
use crate::loops::{loop_postcondition_facts, semantic_loop_exit_extraction_gap, verify_loops};
use crate::metadata::{string_views, TrustMetadata};
use crate::obligations::{
    semantic_arithmetic_extraction_gap, verification_addition_obligations, verification_division_obligations,
    verification_division_overflow_obligations, verification_multiplication_obligations,
    verification_negation_obligations, verification_remainder_obligations,
    verification_remainder_overflow_obligations, verification_subtraction_obligations,
};
use crate::postcond::{body, body_spec, postcondition_proved, Contract, PostconditionProof};
use crate::segments::cfg_selected_body;
use crate::semantics::{SemanticArithmeticKind, TrustFunctionSemantics, VerificationError};
use crate::solver::{default_options, Param, VerificationOptions};
use crate::text::{
    trim_spec, chars_of, chars_of_string, is_lit, same, slice_of, starts_with_lit, starts_with_spec, string_of, strip_ws,
    texts_contain, views,
};
use crate::tokens::{has_token, tokens_spec, normalize, remove_int_wrappers, remove_old_wrappers, type_name_tail};
use crate::types::{
    opaque_contract_type, unsupported_function_type, verification_local_types, verification_params,
    verification_return_type, verification_value_params, params_spec, param_pairs, refused_type, return_type_spec,
};
use vstd::prelude::*;

verus! {

fn copy(v: &[char]) -> (r: Vec<char>)
    ensures
        r@ == v@,
{
    let r = slice_of(v, 0, v.len());
    assert(v@.subrange(0, v@.len() as int) =~= v@);
    r
}

fn text(s: &[char]) -> (r: String)
    ensures
        r@ == s@,
{
    string_of(s)
}

/// The contracts, paired with their classes front to back, whose class
/// passes `keep`, each prepared by `prepare`.
pub open spec fn contracts_where(
    originals: Seq<Seq<char>>,
    classes: Seq<Seq<char>>,
    keep: spec_fn(Seq<char>) -> bool,
    prepare: spec_fn(Seq<char>) -> Seq<char>,
    n: int,
) -> Seq<Seq<char>>
    decreases n,
{
    if n <= 0 {
        seq![]
    } else {
        let before = contracts_where(originals, classes, keep, prepare, n - 1);
        if keep(classes[n - 1]) {
            before.push(prepare(originals[n - 1]))
        } else {
            before
        }
    }
}

/// How many contract/class pairs a record has.
pub open spec fn pair_count(m: TrustMetadata) -> int {
    if m.contracts_original@.len() <= m.contract_classes@.len() {
        m.contracts_original@.len() as int
    } else {
        m.contract_classes@.len() as int
    }
}

pub open spec fn is_given_executable(class: Seq<char>) -> bool {
    class == "given executable"@
}

pub open spec fn is_given(class: Seq<char>) -> bool {
    class == "given executable"@ || class == "given ghost"@
}

pub open spec fn is_gives(class: Seq<char>) -> bool {
    class == "gives executable"@ || class == "gives ghost"@
}

pub open spec fn is_gives_prefix(class: Seq<char>) -> bool {
    starts_with_spec(class, "gives"@)
}

/// Which classes a selection keeps (0: executable `given`, 1: any
/// `given`, 2: `gives` of either kind, 3: any class starting `gives`).
fn class_selected(class: &[char], which: u8) -> (r: bool)
    ensures
        which == 0 ==> r == is_given_executable(class@),
        which == 1 ==> r == is_given(class@),
        which == 2 ==> r == is_gives(class@),
        which == 3 ==> r == is_gives_prefix(class@),
{
    if which == 0 {
        is_lit(class, "given executable")
    } else if which == 1 {
        is_lit(class, "given executable") || is_lit(class, "given ghost")
    } else if which == 2 {
        is_lit(class, "gives executable") || is_lit(class, "gives ghost")
    } else {
        starts_with_lit(class, "gives")
    }
}

/// The class test of a selection.
pub open spec fn keep_of(which: u8) -> spec_fn(Seq<char>) -> bool {
    if which == 0 {
        |c: Seq<char>| is_given_executable(c)
    } else if which == 1 {
        |c: Seq<char>| is_given(c)
    } else if which == 2 {
        |c: Seq<char>| is_gives(c)
    } else {
        |c: Seq<char>| is_gives_prefix(c)
    }
}

pub open spec fn prepare_of(normalized: bool) -> spec_fn(Seq<char>) -> Seq<char> {
    if normalized {
        |c: Seq<char>| strip_ws(c)
    } else {
        |c: Seq<char>| c
    }
}

/// The contracts of the record whose class is selected, whitespace
/// removed (`normalized`) or as written.
fn select_contracts(metadata: &TrustMetadata, which: u8, normalized: bool) -> (r: Vec<Vec<char>>)
    requires
        which <= 3,
    ensures
        views(r@) == contracts_where(
            string_views(metadata.contracts_original@),
            string_views(metadata.contract_classes@),
            keep_of(which),
            prepare_of(normalized),
            pair_count(*metadata),
        ),
{
    let ghost originals = string_views(metadata.contracts_original@);
    let ghost classes = string_views(metadata.contract_classes@);
    let mut out: Vec<Vec<char>> = Vec::new();
    let n = if metadata.contracts_original.len() <= metadata.contract_classes.len() {
        metadata.contracts_original.len()
    } else {
        metadata.contract_classes.len()
    };
    let mut i: usize = 0;
    while i < n
        invariant
            i <= n,
            n as int == pair_count(*metadata),
            n <= metadata.contracts_original@.len(),
            n <= metadata.contract_classes@.len(),
            which <= 3,
            originals == string_views(metadata.contracts_original@),
            classes == string_views(metadata.contract_classes@),
            views(out@) == contracts_where(originals, classes, keep_of(which), prepare_of(normalized), i as int),
        decreases n - i,
    {
        let class = chars_of_string(&metadata.contract_classes[i]);
        let ghost before = views(out@);
        assert(class@ == classes[i as int]);
        if class_selected(&class, which) {
            let c = chars_of_string(&metadata.contracts_original[i]);
            assert(c@ == originals[i as int]);
            if normalized {
                out.push(normalize(&c));
            } else {
                out.push(c);
            }
            assert(views(out@) =~= before.push(prepare_of(normalized)(originals[i as int])));
        }
        i += 1;
    }
    out
}

/// The `given executable` contracts, whitespace removed: what the
/// function may assume at run time.
pub fn executable_preconditions(metadata: &TrustMetadata) -> (r: Vec<Vec<char>>)
    ensures
        views(r@) == contracts_where(string_views(metadata.contracts_original@), string_views(metadata.contract_classes@), keep_of(0), prepare_of(true), pair_count(*metadata)),
{
    select_contracts(metadata, 0, true)
}

/// Every `given` contract, executable or ghost, whitespace removed.
pub fn given_preconditions(metadata: &TrustMetadata) -> (r: Vec<Vec<char>>)
    ensures
        views(r@) == contracts_where(string_views(metadata.contracts_original@), string_views(metadata.contract_classes@), keep_of(1), prepare_of(true), pair_count(*metadata)),
{
    select_contracts(metadata, 1, true)
}

/// The contracts a proof must assert: every class starting `gives`, as
/// written.
pub fn proof_obligations(metadata: &TrustMetadata) -> (r: Vec<Vec<char>>)
    ensures
        views(r@) == contracts_where(string_views(metadata.contracts_original@), string_views(metadata.contract_classes@), keep_of(3), prepare_of(false), pair_count(*metadata)),
{
    select_contracts(metadata, 3, false)
}

/// The `gives` contracts of a total function, each as written and with
/// `int(..)`/`old(..)` wrappers and whitespace removed.
pub fn postconditions(metadata: &TrustMetadata) -> (r: Vec<Contract>)
    ensures
        r@.len() == contracts_where(string_views(metadata.contracts_original@), string_views(metadata.contract_classes@), keep_of(2), prepare_of(false), pair_count(*metadata)).len(),
        forall|k: int| 0 <= k < r@.len() ==> (#[trigger] r@[k]).original@ == contracts_where(string_views(metadata.contracts_original@), string_views(metadata.contract_classes@), keep_of(2), prepare_of(false), pair_count(*metadata))[k],
{
    let originals = select_contracts(metadata, 2, false);
    let mut out: Vec<Contract> = Vec::new();
    let mut i: usize = 0;
    while i < originals.len()
        invariant
            i <= originals@.len(),
            out@.len() == i,
            forall|k: int| 0 <= k < i ==> (#[trigger] out@[k]).original@ == originals@[k]@,
        decreases originals.len() - i,
    {
        let c = &originals[i];
        let normalized = normalize(&remove_old_wrappers(&remove_int_wrappers(c)));
        out.push(Contract { original: copy(c), normalized });
        i += 1;
    }
    assert forall|k: int| 0 <= k < out@.len() implies (#[trigger] out@[k]).original@ == views(originals@)[k] by {}
    out
}

/// A `spec` item the macros marked executable.
pub fn is_executable_spec(item: &TrustMetadata) -> (r: bool)
    ensures
        r == (item.item_kind@ == "spec"@ && starts_with_spec(item.item_id@, "spec:executable:"@)),
{
    is_lit(&chars_of_string(&item.item_kind), "spec") && starts_with_lit(&chars_of_string(&item.item_id), "spec:executable:")
}

/// The paths of the `trust_model` records, in order.
pub open spec fn model_paths(m: Seq<TrustMetadata>) -> Seq<Seq<char>>
    decreases m.len(),
{
    if m.len() == 0 {
        seq![]
    } else if m.last().item_kind@ == "trust_model"@ {
        model_paths(m.drop_last()).push(m.last().rust_function_path@)
    } else {
        model_paths(m.drop_last())
    }
}

/// The paths of the `trust_model` records: the types the verifier may
/// reason about.
pub fn model_env(metadata: &[TrustMetadata]) -> (r: Vec<Vec<char>>)
    ensures
        views(r@) == model_paths(metadata@),
{
    let mut out: Vec<Vec<char>> = Vec::new();
    let mut i: usize = 0;
    while i < metadata.len()
        invariant
            i <= metadata@.len(),
            views(out@) == model_paths(metadata@.take(i as int)),
        decreases metadata.len() - i,
    {
        assert(metadata@.take(i + 1).drop_last() =~= metadata@.take(i as int));
        if is_lit(&chars_of_string(&metadata[i].item_kind), "trust_model") {
            let ghost before = views(out@);
            out.push(chars_of_string(&metadata[i].rust_function_path));
            assert(views(out@) =~= before.push(metadata@[i as int].rust_function_path@));
        }
        i += 1;
    }
    assert(metadata@.take(metadata@.len() as int) =~= metadata@);
    out
}

/// The compiler's facts for this record's function, if given.
pub fn semantic_for<'a>(metadata: &TrustMetadata, semantics: &'a [TrustFunctionSemantics]) -> (r: Option<&'a TrustFunctionSemantics>)
    ensures
        r matches Some(s) ==> s.rust_function_path@ == metadata.rust_function_path@ && exists|k: int| 0 <= k < semantics@.len() && semantics@[k] == *s,
        r is None ==> forall|k: int| 0 <= k < semantics@.len() ==> (#[trigger] semantics@[k]).rust_function_path@ != metadata.rust_function_path@,
{
    let path = chars_of_string(&metadata.rust_function_path);
    let mut i: usize = 0;
    while i < semantics.len()
        invariant
            path@ == metadata.rust_function_path@,
            forall|k: int| 0 <= k < i ==> (#[trigger] semantics@[k]).rust_function_path@ != metadata.rust_function_path@,
        decreases semantics.len() - i,
    {
        if same(&chars_of_string(&semantics[i].rust_function_path), &path) {
            return Some(&semantics[i]);
        }
        i += 1;
    }
    None
}

/// A record a call may target: a total function or an executable spec.
pub open spec fn callable_record(item: TrustMetadata) -> bool {
    item.item_kind@ == "total"@ || (item.item_kind@ == "spec"@ && starts_with_spec(item.item_id@, "spec:executable:"@))
}

/// Some callable record has this path.
pub open spec fn callable_named(m: Seq<TrustMetadata>, name: Seq<char>) -> bool {
    exists|j: int| 0 <= j < m.len() && callable_record(#[trigger] m[j]) && m[j].rust_function_path@ == name
}

/// Some total function has this path.
pub open spec fn total_named(m: Seq<TrustMetadata>, name: Seq<char>) -> bool {
    exists|j: int| 0 <= j < m.len() && (#[trigger] m[j]).item_kind@ == "total"@ && m[j].rust_function_path@ == name
}

/// Some summary has this name.
pub open spec fn summary_named(out: Seq<TrustFunctionSummary>, name: Seq<char>) -> bool {
    exists|k: int| 0 <= k < out.len() && (#[trigger] out[k]).name@ == name
}

/// What calls may rely on: each total function and executable spec with
/// its parameters, and, for total functions, its `given` contracts.
pub fn function_env(metadata: &[TrustMetadata], semantics: &[TrustFunctionSemantics]) -> (r: Vec<TrustFunctionSummary>)
    ensures
        forall|k: int| 0 <= k < r@.len() ==> callable_named(metadata@, (#[trigger] r@[k]).name@),
        forall|i: int| 0 <= i < metadata@.len() && callable_record(#[trigger] metadata@[i]) ==> summary_named(r@,
            metadata@[i].rust_function_path@),
        forall|k: int| 0 <= k < r@.len() ==> (#[trigger] r@[k]).preconditions@.len() == 0 || total_named(metadata@,
            r@[k].name@),
{
    let mut out: Vec<TrustFunctionSummary> = Vec::new();
    let mut i: usize = 0;
    while i < metadata.len()
        invariant
            i <= metadata@.len(),
            forall|k: int| 0 <= k < out@.len() ==> callable_named(metadata@.take(i as int), (#[trigger] out@[k]).name@),
            forall|j: int| 0 <= j < i && callable_record(#[trigger] metadata@[j]) ==> summary_named(out@,
                metadata@[j].rust_function_path@),
            forall|k: int| 0 <= k < out@.len() ==> (#[trigger] out@[k]).preconditions@.len() == 0 || total_named(
                metadata@.take(i as int), out@[k].name@),
        decreases metadata.len() - i,
    {
        let item = &metadata[i];
        let ghost before = out@;
        let ghost m1 = metadata@.take(i + 1);
        assert forall|k: int| 0 <= k < before.len() implies callable_named(m1, (#[trigger] before[k]).name@) && (
            before[k].preconditions@.len() == 0 || total_named(m1, before[k].name@)) by {
            assert(callable_named(metadata@.take(i as int), before[k].name@));
            let j = choose|j: int| 0 <= j < metadata@.take(i as int).len() && callable_record(
                #[trigger] metadata@.take(i as int)[j]) && metadata@.take(i as int)[j].rust_function_path@ == before[k].name@;
            assert(m1[j] == metadata@.take(i as int)[j]);
            if before[k].preconditions@.len() != 0 {
                assert(total_named(metadata@.take(i as int), before[k].name@));
                let j2 = choose|j2: int| 0 <= j2 < metadata@.take(i as int).len() && (
                    #[trigger] metadata@.take(i as int)[j2]).item_kind@ == "total"@ && metadata@.take(i as int)[j2].rust_function_path@
                    == before[k].name@;
                assert(m1[j2] == metadata@.take(i as int)[j2]);
            }
        }
        let total = is_lit(&chars_of_string(&item.item_kind), "total");
        if total || is_executable_spec(item) {
            let source = normalize(&chars_of_string(&item.function_source));
            let params = verification_params(&source, semantic_for(item, semantics));
            let preconditions = if total {
                given_preconditions(item)
            } else {
                Vec::new()
            };
            out.push(TrustFunctionSummary { name: chars_of_string(&item.rust_function_path), params, preconditions });
            assert(m1[i as int] == *item);
            assert forall|k: int| 0 <= k < out@.len() implies callable_named(m1, (#[trigger] out@[k]).name@) && (
                out@[k].preconditions@.len() == 0 || total_named(m1, out@[k].name@)) by {
                if k < before.len() {
                    assert(out@[k] == before[k]);
                } else {
                    assert(callable_record(m1[i as int]));
                }
            }
            assert forall|j: int| 0 <= j < i + 1 && callable_record(#[trigger] metadata@[j]) implies summary_named(out@,
                metadata@[j].rust_function_path@) by {
                if j < i {
                    let k = choose|k: int| 0 <= k < before.len() && (#[trigger] before[k]).name@ == metadata@[j].rust_function_path@;
                    assert(out@[k] == before[k]);
                } else {
                    assert(out@[before.len() as int].name@ == metadata@[j].rust_function_path@);
                }
            }
        } else {
            assert(!callable_record(metadata@[i as int]));
        }
        i += 1;
    }
    assert(metadata@.take(metadata@.len() as int) =~= metadata@);
    out
}

/// The tokens hold an `assert` of the text (up to whitespace).
pub open spec fn body_asserts(t: Seq<Seq<char>>, target: Seq<char>) -> bool {
    exists|idx: int, open: int, close: int| #[trigger] crate::calls::asserts_at(t, idx, open, close, target)
}

/// An accepted proof: its body takes only supported steps and asserts each
/// of its `gives` contracts.
pub open spec fn proof_accepted(m: TrustMetadata) -> bool {
    let t = tokens_spec(body_spec(m.function_source@));
    &&& forall|j: int| !#[trigger] crate::calls::unsupported_step_at(t, j)
    &&& forall|k: int| 0 <= k < contracts_where(string_views(m.contracts_original@), string_views(m.contract_classes@),
        keep_of(3), prepare_of(false), pair_count(m)).len() ==> #[trigger] body_asserts(t, contracts_where(
        string_views(m.contracts_original@), string_views(m.contract_classes@), keep_of(3), prepare_of(false), pair_count(m))[k])
}

/// Every `gives` contract has an `assert` of it in the body that no earlier
/// `assert` encloses.
pub open spec fn gives_visibly_asserted(m: TrustMetadata) -> bool {
    let t = tokens_spec(body_spec(m.function_source@));
    let gives = contracts_where(string_views(m.contracts_original@), string_views(m.contract_classes@), keep_of(3),
        prepare_of(false), pair_count(m));
    forall|k: int| 0 <= k < gives.len() ==> #[trigger] asserted_visibly(t, gives[k])
}

/// Some `assert` of the text that no earlier `assert` encloses.
pub open spec fn asserted_visibly(t: Seq<Seq<char>>, target: Seq<char>) -> bool {
    exists|idx: int| #[trigger] crate::calls::visible_assert_of(t, idx, target)
}

/// The `given executable` contracts of an item, whitespace removed.
pub open spec fn given_contracts(m: TrustMetadata) -> Seq<Seq<char>> {
    contracts_where(string_views(m.contracts_original@), string_views(m.contract_classes@), keep_of(1), prepare_of(true),
        pair_count(m))
}

/// A callee's precondition the built-in rules do not find among the
/// contracts, as written or with its comparison flipped.
pub open spec fn callee_condition_unproved(c: Seq<char>, cs: Seq<Seq<char>>) -> bool {
    !cs.contains(c) && !(crate::tokens::flipped_spec(c) matches Some(f) && cs.contains(f))
}

pub open spec fn executable_contracts(m: TrustMetadata) -> Seq<Seq<char>> {
    contracts_where(string_views(m.contracts_original@), string_views(m.contract_classes@), keep_of(0), prepare_of(true),
        pair_count(m))
}

/// A proof item must use only `assert` steps, and must assert each of its
/// `gives` contracts (up to whitespace). Other items pass.
#[verifier::loop_isolation(false)]
pub fn verify_proof(metadata: &TrustMetadata) -> (r: Result<(), VerificationError>)
    ensures
        metadata.item_kind@ != "proof"@ ==> r is Ok,
        r matches Err(e) ==> match e {
            VerificationError::UnsupportedProofStep { proof } => proof@ == metadata.rust_function_path@,
            VerificationError::ProofObligationUnproved { proof, condition } => proof@
                == metadata.rust_function_path@ && contracts_where(string_views(metadata.contracts_original@), string_views(metadata.contract_classes@), keep_of(3), prepare_of(false), pair_count(*metadata)).contains(condition@),
            _ => false,
        },
        metadata.item_kind@ == "proof"@ && r is Ok ==> proof_accepted(*metadata),
        metadata.item_kind@ == "proof"@ ==> ((exists|j: int| crate::calls::unsupported_step_at(tokens_spec(body_spec(
            metadata.function_source@)), j)) <==> r matches Err(VerificationError::UnsupportedProofStep { .. })),
        metadata.item_kind@ == "proof"@ && (forall|j: int| !#[trigger] crate::calls::unsupported_step_at(tokens_spec(body_spec(
            metadata.function_source@)), j)) && gives_visibly_asserted(*metadata) ==> r is Ok,
{
    if !is_lit(&chars_of_string(&metadata.item_kind), "proof") {
        return Ok(());
    }
    let path = chars_of_string(&metadata.rust_function_path);
    let b = body(&chars_of_string(&metadata.function_source));
    if contains_unsupported_proof_step(&b) {
        return Err(VerificationError::UnsupportedProofStep { proof: text(&path) });
    }
    let obligations = proof_obligations(metadata);
    let ghost gives = contracts_where(string_views(metadata.contracts_original@), string_views(metadata.contract_classes@),
        keep_of(3), prepare_of(false), pair_count(*metadata));
    let mut i: usize = 0;
    while i < obligations.len()
        invariant
            path@ == metadata.rust_function_path@,
            b@ == body_spec(metadata.function_source@),
            forall|j: int| !crate::calls::unsupported_step_at(tokens_spec(b@), j),
            views(obligations@) == gives,
            gives == contracts_where(string_views(metadata.contracts_original@), string_views(metadata.contract_classes@), keep_of(3), prepare_of(false), pair_count(*metadata)),
            i <= obligations@.len(),
            forall|k: int| 0 <= k < i ==> #[trigger] body_asserts(tokens_spec(b@), gives[k]),
        decreases obligations.len() - i,
    {
        let asserted = proof_body_asserts(&b, &obligations[i]);
        assert(views(obligations@)[i as int] == obligations@[i as int]@);
        proof {
            if gives_visibly_asserted(*metadata) {
                assert(asserted_visibly(tokens_spec(b@), gives[i as int]));
                let idx = choose|idx: int| #[trigger] crate::calls::visible_assert_of(tokens_spec(b@), idx, gives[i as int]);
                assert(crate::calls::visible_assert_of(tokens_spec(b@), idx, obligations@[i as int]@));
            }
        }
        if !asserted {
            return Err(VerificationError::ProofObligationUnproved { proof: text(&path), condition: text(&obligations[i]) });
        }
        assert(body_asserts(tokens_spec(b@), gives[i as int]));
        i += 1;
    }
    Ok(())
}

fn extraction_gap(function: &[char], category: &str, expression: &[char]) -> (e: VerificationError)
    ensures
        e matches VerificationError::SemanticExtractionIncomplete { function: f, category: c, expression: x }
            && f@ == function@ && c@ == category@ && x@ == expression@,
{
    VerificationError::SemanticExtractionIncomplete {
        function: text(function),
        category: text(&chars_of(category)),
        expression: text(expression),
    }
}

/// A denominator the built-in checks show nonzero: a nonzero literal, or
/// a contract `d != 0`, `0 != d`, `d > 0` or `d < 0`.
pub open spec fn den_builtin_proved(d: Seq<char>, cs: Seq<Seq<char>>) -> bool {
    (crate::text::parse_i128_spec(d) matches Some(v) && v != 0) || cs.contains(d + "!="@ + "0"@) || cs.contains("0"@
        + "!="@ + d) || cs.contains(d + ">"@ + "0"@) || cs.contains(d + "<"@ + "0"@)
}

/// Every listed denominator is shown nonzero under the contracts and its
/// own assumptions.
pub open spec fn dens_proved(l: Seq<(Seq<char>, Seq<char>, Seq<Seq<char>>)>, cs: Seq<Seq<char>>) -> bool {
    forall|k: int| 0 <= k < l.len() ==> den_builtin_proved((#[trigger] l[k]).0, cs + l[k].2)
}

/// Every listed signed division is shown free of `MIN / -1`.
pub open spec fn div_overflows_proved(l: Seq<(Seq<char>, Seq<char>, Seq<char>, Seq<char>, Seq<Seq<char>>)>, cs: Seq<Seq<char>>, w: Option<u32>) -> bool {
    forall|k: int| 0 <= k < l.len() ==> crate::discharge::division_overflow_builtin_spec((#[trigger] l[k]).0, l[k].1,
        l[k].2, cs + l[k].4, w)
}

/// An integer read back as an `i128`.
pub open spec fn back_i128(c: Option<int>) -> Option<i128> {
    match c {
        Some(v) => Some(v as i128),
        None => None,
    }
}

/// Every listed addition is shown free of overflow.
pub open spec fn adds_proved(l: Seq<(Seq<char>, Option<Seq<char>>, Option<int>, Seq<char>, Seq<Seq<char>>)>, cs: Seq<Seq<char>>, params: Seq<Param>, w: Option<u32>) -> bool {
    forall|k: int| 0 <= k < l.len() ==> crate::discharge::addition_builtin_spec((#[trigger] l[k]).0, l[k].1, back_i128(l[k].2),
        cs + l[k].4, params, w)
}

/// Every listed subtraction is shown free of overflow.
pub open spec fn subs_proved(l: Seq<(Seq<char>, Option<Seq<char>>, Option<int>, Option<Seq<char>>, Seq<char>, Seq<Seq<char>>)>, cs: Seq<Seq<char>>) -> bool {
    forall|k: int| 0 <= k < l.len() ==> crate::discharge::subtraction_builtin_spec((#[trigger] l[k]).0, l[k].1, back_i128(
        l[k].2), l[k].3, cs + l[k].5)
}

/// Every listed negation is shown free of overflow.
pub open spec fn negs_proved(l: Seq<(Seq<char>, Seq<char>, Seq<char>, Seq<Seq<char>>)>, cs: Seq<Seq<char>>) -> bool {
    forall|k: int| 0 <= k < l.len() ==> crate::discharge::negation_builtin_spec((#[trigger] l[k]).0, l[k].1, cs + l[k].3)
}

/// Every listed multiplication is shown free of overflow.
pub open spec fn muls_proved(l: Seq<(Seq<char>, Option<Seq<char>>, Option<int>, Seq<char>, Seq<Seq<char>>)>, cs: Seq<Seq<char>>, w: Option<u32>) -> bool {
    forall|k: int| 0 <= k < l.len() ==> crate::discharge::multiplication_builtin_spec((#[trigger] l[k]).0, l[k].1, back_i128(
        l[k].2), cs + l[k].4, w)
}

/// Every arithmetic obligation the compiler reports is discharged by the
/// built-in rules under the contracts: overflow of each addition,
/// subtraction, negation and multiplication, each denominator nonzero, and
/// no signed `MIN / -1` or `MIN % -1`.
pub open spec fn reported_arithmetic_proved(s: TrustFunctionSemantics, vp: Seq<Param>, cs: Seq<Seq<char>>, w: Option<u32>) -> bool {
    &&& adds_proved(crate::obligations::semantic_add_list(s.arithmetic_operations@, vp, w), cs, vp, w)
    &&& subs_proved(crate::obligations::semantic_sub_list(s.arithmetic_operations@, vp, w), cs)
    &&& negs_proved(crate::obligations::semantic_neg_list(s.arithmetic_operations@, vp, w), cs)
    &&& muls_proved(crate::obligations::semantic_mul_list(s.arithmetic_operations@, vp, w), cs, w)
    &&& dens_proved(crate::obligations::semantic_den_list(s.arithmetic_operations@, SemanticArithmeticKind::Div), cs)
    &&& dens_proved(crate::obligations::semantic_den_list(s.arithmetic_operations@, SemanticArithmeticKind::Rem), cs)
    &&& div_overflows_proved(crate::obligations::semantic_div_list(s.arithmetic_operations@, vp, SemanticArithmeticKind::Div, w),
        cs, w)
    &&& div_overflows_proved(crate::obligations::semantic_div_list(s.arithmetic_operations@, vp, SemanticArithmeticKind::Rem, w),
        cs, w)
}

/// Every slice index the compiler reports is bounded by a contract or by
/// its own assumptions.
pub open spec fn reported_indexes_bounded(s: TrustFunctionSemantics, cs: Seq<Seq<char>>) -> bool {
    forall|k: int| 0 <= k < crate::index::semantic_index_list(s.slice_indexes@).len() ==> index_bounded(
        (#[trigger] crate::index::semantic_index_list(s.slice_indexes@)[k]).0, crate::index::semantic_index_list(
        s.slice_indexes@)[k].1, cs + crate::index::semantic_index_list(s.slice_indexes@)[k].3)
}

/// Some operands `l`, `r` with `e` their text around the operator have
/// the signed division shown free of `MIN / -1` by the built-in rules.
pub open spec fn division_text_proved(e: Seq<char>, op: Seq<char>, cs: Seq<Seq<char>>, w: Option<u32>) -> bool {
    exists|l: Seq<char>, r: Seq<char>, ty: Seq<char>| e == l + " "@ + op + " "@ + r
        && #[trigger] crate::discharge::division_overflow_builtin_spec(l, r, ty, cs, w)
}

/// Every signed division and remainder of two simple operands that can
/// overflow in the tokens is shown safe.
pub open spec fn divisions_proved(t: Seq<Seq<char>>, params: Seq<Param>, cs: Seq<Seq<char>>, w: Option<u32>) -> bool {
    &&& forall|i: int| #[trigger] crate::arith::div_overflow_site(t, params, "/"@, w, i) ==> division_text_proved(
        crate::arith::div_site_text(t, "/"@, i), "/"@, cs, w)
    &&& forall|i: int| #[trigger] crate::arith::div_overflow_site(t, params, "%"@, w, i) ==> division_text_proved(
        crate::arith::div_site_text(t, "%"@, i), "%"@, cs, w)
}

/// Some denominator `d` with `e` the text `x op d` or `x op (d)` is shown
/// nonzero by the built-in rules.
pub open spec fn den_text_proved(e: Seq<char>, op: Seq<char>, cs: Seq<Seq<char>>) -> bool {
    exists|d: Seq<char>| crate::arith::den_text_shape(e, op, d) && #[trigger] den_builtin_proved(d, cs)
}

/// Every division and remainder of a value by an integer parameter in the
/// tokens has its denominator shown nonzero.
pub open spec fn denominators_proved(t: Seq<Seq<char>>, params: Seq<Param>, cs: Seq<Seq<char>>) -> bool {
    &&& forall|i: int| #[trigger] crate::arith::value_op_param_at(t, params, "/"@, i) ==> den_text_proved(t[i] + " "@ + "/"@
        + " "@ + t[i + 2], "/"@, cs)
    &&& forall|i: int| #[trigger] crate::arith::value_op_param_at(t, params, "%"@, i) ==> den_text_proved(t[i] + " "@ + "%"@
        + " "@ + t[i + 2], "%"@, cs)
}

/// The denominator is shown nonzero by the built-in rules or, when `z3`,
/// `d != 0` follows from the contracts for every assignment within the
/// integer parameters' ranges.
pub open spec fn den_sound(d: Seq<char>, cs: Seq<Seq<char>>, params: Seq<Param>, z3: bool, w: Option<u32>) -> bool {
    den_builtin_proved(d, cs) || (z3 && crate::discharge::z3_valid_text(d + "!="@ + "0"@, cs, params, w))
}

/// Some denominator `d` with `e` the text `x op d` or `x op (d)` is shown
/// nonzero (see `den_sound`).
pub open spec fn den_text_sound(e: Seq<char>, op: Seq<char>, cs: Seq<Seq<char>>, params: Seq<Param>, z3: bool, w: Option<u32>) -> bool {
    exists|d: Seq<char>| crate::arith::den_text_shape(e, op, d) && #[trigger] den_sound(d, cs, params, z3, w)
}

/// Every division and remainder of a value by an integer parameter in the
/// tokens has its denominator shown nonzero (see `den_sound`).
pub open spec fn denominators_sound(t: Seq<Seq<char>>, params: Seq<Param>, cs: Seq<Seq<char>>, z3: bool, w: Option<u32>) -> bool {
    &&& forall|i: int| #[trigger] crate::arith::value_op_param_at(t, params, "/"@, i) ==> den_text_sound(t[i] + " "@ + "/"@
        + " "@ + t[i + 2], "/"@, cs, params, z3, w)
    &&& forall|i: int| #[trigger] crate::arith::value_op_param_at(t, params, "%"@, i) ==> den_text_sound(t[i] + " "@ + "%"@
        + " "@ + t[i + 2], "%"@, cs, params, z3, w)
}

/// Every multiplication `p * c` of an integer parameter and a literal
/// above `1` in the tokens is shown free of overflow by the built-in rules
/// or, when `z3`, by `MIN / c <= p <= MAX / c` following from the
/// contracts over the parameters' ranges (only the upper bound for an
/// unsigned type).
pub open spec fn multiplications_sound(t: Seq<Seq<char>>, params: Seq<Param>, cs: Seq<Seq<char>>, z3: bool, w: Option<u32>) -> bool {
    forall|i: int| #[trigger] crate::arith::param_op_literal_at(t, params, "*"@, i) && crate::text::parse_i128_spec(t[i + 2])->0
        > 1 ==> crate::discharge::multiplication_builtin_spec(t[i], crate::arith::param_type_spec(t[i], params),
        crate::text::parse_i128_spec(t[i + 2]), cs, w) || (z3 && crate::discharge::multiplication_z3_valid(t[i],
        crate::arith::param_type_spec(t[i], params), crate::text::parse_i128_spec(t[i + 2]), cs, params, w))
}

/// The division and remainder obligations the tokens show are discharged:
/// no denominator can be zero and no signed division can overflow.
pub open spec fn token_divisions_proved(t: Seq<Seq<char>>, params: Seq<Param>, cs: Seq<Seq<char>>, w: Option<u32>) -> bool {
    denominators_proved(t, params, cs) && divisions_proved(t, params, cs, w)
}

/// Every addition `p + c` of an integer parameter and a literal in the
/// tokens is shown free of overflow by the built-in rules.
pub open spec fn token_additions_proved(t: Seq<Seq<char>>, params: Seq<Param>, cs: Seq<Seq<char>>, w: Option<u32>) -> bool {
    forall|i: int| #[trigger] crate::arith::param_op_literal_at(t, params, "+"@, i) ==> crate::discharge::addition_builtin_spec(
        t[i], crate::arith::param_type_spec(t[i], params), crate::text::parse_i128_spec(t[i + 2]), cs, params, w)
}

/// Some addition with this text, of the shape the token scan gives, is
/// not shown free of overflow by the built-in rules.
pub open spec fn addition_unproved(e: Seq<char>, params: Seq<Param>, cs: Seq<Seq<char>>, w: Option<u32>) -> bool {
    exists|o: AddObligation| #[trigger] crate::arith::add_shape(o, params) && o.expression@ == e
        && !crate::discharge::addition_builtin_spec(o.variable@, crate::discharge::opt_view(o.ty), o.constant, cs, params, w)
}

/// Every subtraction `p - c` of an integer parameter and a positive
/// literal in the tokens is shown free of overflow by the built-in rules.
pub open spec fn token_subtractions_proved(t: Seq<Seq<char>>, params: Seq<Param>, cs: Seq<Seq<char>>) -> bool {
    forall|i: int| #[trigger] crate::arith::sub_site_at(t, params, i) ==> crate::discharge::subtraction_builtin_spec(t[i],
        crate::arith::param_type_spec(t[i], params), crate::text::parse_i128_spec(t[i + 2]), None, cs)
}

/// Some subtraction with this text, of the shape the token scan gives, is
/// not shown free of overflow by the built-in rules.
pub open spec fn subtraction_unproved(e: Seq<char>, params: Seq<Param>, cs: Seq<Seq<char>>) -> bool {
    exists|o: SubObligation| #[trigger] crate::arith::sub_shape(o, params) && o.expression@ == e
        && !crate::discharge::subtraction_builtin_spec(o.variable@, crate::discharge::opt_view(o.ty), o.constant,
        crate::discharge::opt_view(o.rhs), cs)
}

/// Every unary minus `-p` of a signed parameter in the tokens is shown
/// free of overflow by the built-in rules.
pub open spec fn token_negations_proved(t: Seq<Seq<char>>, params: Seq<Param>, cs: Seq<Seq<char>>) -> bool {
    forall|i: int, ty: Seq<char>| #[trigger] crate::arith::negated_param_at(t, params, i, ty)
        ==> crate::discharge::negation_builtin_spec(t[i + 1], ty, cs)
}

/// Some negation `-v` with this text, at the type of the parameter `v`,
/// is not shown free of overflow by the built-in rules.
pub open spec fn negation_unproved(e: Seq<char>, params: Seq<Param>, cs: Seq<Seq<char>>) -> bool {
    exists|o: NegObligation| #[trigger] crate::arith::neg_param_typed(o, params) && o.expression@ == e && e == seq!['-']
        + o.variable@ && !crate::discharge::negation_builtin_spec(o.variable@, o.ty@, cs)
}

/// Every multiplication `p * c` of an integer parameter and a literal
/// above `1` in the tokens is shown free of overflow by the built-in rules.
pub open spec fn token_multiplications_proved(t: Seq<Seq<char>>, params: Seq<Param>, cs: Seq<Seq<char>>, w: Option<u32>) -> bool {
    forall|i: int| #[trigger] crate::arith::param_op_literal_at(t, params, "*"@, i) && crate::text::parse_i128_spec(t[i + 2])->0
        > 1 ==> crate::discharge::multiplication_builtin_spec(t[i], crate::arith::param_type_spec(t[i], params),
        crate::text::parse_i128_spec(t[i + 2]), cs, w)
}

/// Some multiplication with this text, of the shape the token scan gives,
/// is not shown free of overflow by the built-in rules.
pub open spec fn multiplication_unproved(e: Seq<char>, params: Seq<Param>, cs: Seq<Seq<char>>, w: Option<u32>) -> bool {
    exists|o: MulObligation| #[trigger] crate::arith::mul_shape(o, params) && o.expression@ == e
        && !crate::discharge::multiplication_builtin_spec(o.variable@, crate::discharge::opt_view(o.ty), o.constant, cs, w)
}

/// Some denominator `d` of a division (or remainder) with this text is
/// not shown nonzero by the built-in rules.
pub open spec fn denominator_unproved(e: Seq<char>, op: Seq<char>, cs: Seq<Seq<char>>) -> bool {
    exists|d: Seq<char>| #[trigger] crate::arith::den_text_shape(e, op, d) && !den_builtin_proved(d, cs)
}

/// Some signed division (or remainder) `l op r` with this text, at `i32`
/// or `i64`, is not shown free of `MIN op -1` by the built-in rules.
pub open spec fn division_overflow_unproved(e: Seq<char>, op: Seq<char>, cs: Seq<Seq<char>>, w: Option<u32>) -> bool {
    exists|o: DivOverflowObligation| #[trigger] crate::arith::division_text_of(o, op) && o.expression@ == e && (o.ty@
        == "i32"@ || o.ty@ == "i64"@) && !crate::discharge::division_overflow_builtin_spec(o.left@, o.right@, o.ty@, cs, w)
}

/// What an arithmetic error of a straight-line body says, reading the
/// tokens with the built-in rules: the obligation it names is not proved.
pub open spec fn arithmetic_error_unproved(e: VerificationError, params: Seq<Param>, cs: Seq<Seq<char>>, w: Option<u32>) -> bool {
    match e {
        VerificationError::IntegerAdditionOverflow { expression, .. } => addition_unproved(expression@, params, cs, w),
        VerificationError::IntegerSubtractionOverflow { expression, .. } => subtraction_unproved(expression@, params, cs),
        VerificationError::IntegerNegationOverflow { expression, .. } => negation_unproved(expression@, params, cs),
        VerificationError::IntegerMultiplicationOverflow { expression, .. } => multiplication_unproved(expression@, params, cs, w),
        VerificationError::IntegerDivisionByZero { expression, .. } => denominator_unproved(expression@, "/"@, cs),
        VerificationError::IntegerRemainderByZero { expression, .. } => denominator_unproved(expression@, "%"@, cs),
        VerificationError::IntegerDivisionOverflow { expression, .. } => division_overflow_unproved(expression@, "/"@, cs, w),
        VerificationError::IntegerRemainderOverflow { expression, .. } => division_overflow_unproved(expression@, "%"@, cs, w),
        _ => true,
    }
}

/// The errors the arithmetic checks give.
pub open spec fn arithmetic_error(e: VerificationError) -> bool {
    ||| e is IntegerAdditionOverflow
    ||| e is IntegerSubtractionOverflow
    ||| e is IntegerNegationOverflow
    ||| e is IntegerMultiplicationOverflow
    ||| e is IntegerDivisionByZero
    ||| e is IntegerRemainderByZero
    ||| e is IntegerDivisionOverflow
    ||| e is IntegerRemainderOverflow
}

/// The operator behind an arithmetic error occurs among the tokens:
/// `+` for an addition, `-` for a subtraction or negation, `*` for a
/// multiplication, `/` for a division and `%` for a remainder.
pub open spec fn arithmetic_operator_shown(e: VerificationError, t: Seq<Seq<char>>) -> bool {
    &&& e is IntegerAdditionOverflow ==> has_token(t, "+"@)
    &&& (e is IntegerSubtractionOverflow || e is IntegerNegationOverflow) ==> has_token(t, "-"@)
    &&& e is IntegerMultiplicationOverflow ==> has_token(t, "*"@)
    &&& (e is IntegerDivisionByZero || e is IntegerDivisionOverflow) ==> has_token(t, "/"@)
    &&& (e is IntegerRemainderByZero || e is IntegerRemainderOverflow) ==> has_token(t, "%"@)
}

/// The arithmetic obligations of the body, each checked against the
/// executable preconditions; the first that fails becomes the error.
#[verifier::loop_isolation(false)]
fn check_arithmetic(
    raw_body: &[char],
    function: &[char],
    params: &Vec<Param>,
    value_params: &Vec<Param>,
    semantics: Option<&TrustFunctionSemantics>,
    contracts: &Vec<Vec<char>>,
    options: VerificationOptions,
) -> (r: Result<(), VerificationError>)
    requires
        semantics is None ==> param_pairs(value_params@) == param_pairs(params@),
    ensures
        r matches Err(e) ==> e.subject_spec() == function@,
        r matches Err(e) ==> arithmetic_error(e),
        semantics is None && crate::segments::straight_line(raw_body@) ==> (r matches Err(e) ==> arithmetic_operator_shown(e,
            crate::segments::executable_view(raw_body@))),
        r is Ok && !(options.solver is Z3) ==> (semantics matches Some(s) ==> reported_arithmetic_proved(*s, value_params@,
            views(contracts@), options.target_pointer_width)),
        r is Ok && !(options.solver is Z3) && semantics is None && crate::segments::straight_line(raw_body@)
            ==> token_divisions_proved(crate::segments::executable_view(raw_body@), value_params@, views(contracts@),
            options.target_pointer_width),
        r is Ok && !(options.solver is Z3) && semantics is None && crate::segments::straight_line(raw_body@)
            ==> token_additions_proved(crate::segments::executable_view(raw_body@), value_params@, views(contracts@),
            options.target_pointer_width),
        r is Ok && !(options.solver is Z3) && semantics is None && crate::segments::straight_line(raw_body@)
            ==> token_negations_proved(crate::segments::executable_view(raw_body@), value_params@, views(contracts@)),
        r is Ok && !(options.solver is Z3) && semantics is None && crate::segments::straight_line(raw_body@)
            ==> token_subtractions_proved(crate::segments::executable_view(raw_body@), value_params@, views(contracts@)),
        r is Ok && !(options.solver is Z3) && semantics is None && crate::segments::straight_line(raw_body@)
            ==> token_multiplications_proved(crate::segments::executable_view(raw_body@), value_params@, views(contracts@),
            options.target_pointer_width),
        !(options.solver is Z3) && semantics is None && crate::segments::straight_line(raw_body@) ==> (r matches Err(e)
            ==> arithmetic_error_unproved(e, value_params@, views(contracts@), options.target_pointer_width)),
        semantics is None && crate::segments::straight_line(raw_body@) ==> (r matches Err(e) ==> (e is IntegerAdditionOverflow
            ==> crate::arith::plus_site_text(crate::segments::executable_view(raw_body@), e->IntegerAdditionOverflow_expression@))),
        r is Ok && semantics is None && crate::segments::straight_line(raw_body@) ==> denominators_sound(
            crate::segments::executable_view(raw_body@), value_params@, views(contracts@), options.solver is Z3,
            options.target_pointer_width),
        r is Ok && semantics is None && crate::segments::straight_line(raw_body@) ==> multiplications_sound(
            crate::segments::executable_view(raw_body@), value_params@, views(contracts@), options.solver is Z3,
            options.target_pointer_width),
        semantics is None && crate::segments::straight_line(raw_body@) ==> (r matches Err(e) ==> (
            e is IntegerMultiplicationOverflow ==> crate::arith::star_site_text(crate::segments::executable_view(raw_body@),
            e->IntegerMultiplicationOverflow_expression@))),
{
    let ghost cv = views(contracts@);
    let ghost nz = !(options.solver is Z3);
    let adds = verification_addition_obligations(raw_body, value_params, semantics, options);
    let mut i: usize = 0;
    while i < adds.len()
        invariant
            nz ==> forall|j: int| 0 <= j < i ==> crate::discharge::addition_builtin_spec((#[trigger] adds@[j]).variable@, crate::discharge::opt_view(adds@[j].ty), adds@[j].constant, cv + views(adds@[j].assumptions@), value_params@, options.target_pointer_width),
        decreases adds.len() - i,
    {
        if !addition_obligation_proved(&adds[i], contracts, value_params, options) {
            proof {
                if nz && semantics is None && crate::segments::straight_line(raw_body@) {
                    let o = adds@[i as int];
                    assert(crate::arith::add_shape(o, value_params@));
                    assert(views(o.assumptions@) =~= seq![]);
                    assert(cv + views(o.assumptions@) =~= cv);
                }
                if semantics is None && crate::segments::straight_line(raw_body@) {
                    assert(crate::arith::plus_site_text(crate::segments::executable_view(raw_body@), adds@[i as int].expression@));
                }
            }
            return Err(VerificationError::IntegerAdditionOverflow { function: text(function), expression: text(&adds[i].expression) });
        }
        i += 1;
    }
    proof {
        if nz && semantics is Some {
            let l = crate::obligations::semantic_add_list(semantics->0.arithmetic_operations@, value_params@, options.target_pointer_width);
            assert forall|k: int| 0 <= k < l.len() implies crate::discharge::addition_builtin_spec((#[trigger] l[k]).0, l[k].1, back_i128(l[k].2), cv + l[k].4, value_params@, options.target_pointer_width) by {
                assert(l[k] == crate::obligations::add_views(adds@)[k]);
            }
        }
    }
    proof {
        if nz && semantics is None && crate::segments::straight_line(raw_body@) {
            let ev = crate::segments::executable_view(raw_body@);
            let w = options.target_pointer_width;
            assert forall|j: int| #[trigger] crate::arith::param_op_literal_at(ev, value_params@, "+"@, j) implies
                crate::discharge::addition_builtin_spec(ev[j], crate::arith::param_type_spec(ev[j], value_params@),
                crate::text::parse_i128_spec(ev[j + 2]), cv, value_params@, w) by {
                let e = ev[j] + " + "@ + ev[j + 2];
                assert(crate::arith::add_text_recorded(adds@, e));
                let k = choose|k: int| 0 <= k < adds@.len() && (#[trigger] adds@[k]).expression@ == e;
                let o = adds@[k];
                crate::arith::lemma_add_shape_site(o, value_params@, ev[j], ev[j + 2]);
                assert(views(o.assumptions@) =~= seq![]);
                assert(cv + views(o.assumptions@) =~= cv);
            }
        }
    }
    let subs = verification_subtraction_obligations(raw_body, value_params, semantics, options);
    let mut i: usize = 0;
    while i < subs.len()
        invariant
            nz ==> forall|j: int| 0 <= j < i ==> crate::discharge::subtraction_builtin_spec((#[trigger] subs@[j]).variable@, crate::discharge::opt_view(subs@[j].ty), subs@[j].constant, crate::discharge::opt_view(subs@[j].rhs), cv + views(subs@[j].assumptions@)),
        decreases subs.len() - i,
    {
        if !subtraction_obligation_proved(&subs[i], contracts, value_params, options) {
            proof {
                if nz && semantics is None && crate::segments::straight_line(raw_body@) {
                    let o = subs@[i as int];
                    assert(crate::arith::sub_shape(o, value_params@));
                    assert(views(o.assumptions@) =~= seq![]);
                    assert(cv + views(o.assumptions@) =~= cv);
                }
            }
            return Err(VerificationError::IntegerSubtractionOverflow { function: text(function), expression: text(&subs[i].expression) });
        }
        i += 1;
    }
    proof {
        if nz && semantics is Some {
            let l = crate::obligations::semantic_sub_list(semantics->0.arithmetic_operations@, value_params@, options.target_pointer_width);
            assert forall|k: int| 0 <= k < l.len() implies crate::discharge::subtraction_builtin_spec((#[trigger] l[k]).0, l[k].1, back_i128(l[k].2), l[k].3, cv + l[k].5) by {
                assert(l[k] == crate::obligations::sub_views(subs@)[k]);
            }
        }
    }
    proof {
        if nz && semantics is None && crate::segments::straight_line(raw_body@) {
            let ev = crate::segments::executable_view(raw_body@);
            assert forall|j: int| #[trigger] crate::arith::sub_site_at(ev, value_params@, j) implies
                crate::discharge::subtraction_builtin_spec(ev[j], crate::arith::param_type_spec(ev[j], value_params@),
                crate::text::parse_i128_spec(ev[j + 2]), None, cv) by {
                let e = ev[j] + " - "@ + ev[j + 2];
                assert(crate::arith::sub_text_recorded(subs@, e));
                let k = choose|k: int| 0 <= k < subs@.len() && (#[trigger] subs@[k]).expression@ == e;
                let o = subs@[k];
                crate::arith::lemma_sub_shape_site(o, value_params@, ev[j], ev[j + 2]);
                assert(views(o.assumptions@) =~= seq![]);
                assert(cv + views(o.assumptions@) =~= cv);
            }
        }
    }
    let negs = verification_negation_obligations(raw_body, value_params, semantics, options);
    let mut i: usize = 0;
    while i < negs.len()
        invariant
            nz ==> forall|j: int| 0 <= j < i ==> crate::discharge::negation_builtin_spec((#[trigger] negs@[j]).variable@, negs@[j].ty@, cv + views(negs@[j].assumptions@)),
        decreases negs.len() - i,
    {
        if !negation_obligation_proved(&negs[i], contracts, value_params, options) {
            proof {
                if nz && semantics is None && crate::segments::straight_line(raw_body@) {
                    let o = negs@[i as int];
                    assert(crate::arith::neg_param_typed(o, value_params@));
                    assert(views(o.assumptions@) =~= seq![]);
                    assert(cv + views(o.assumptions@) =~= cv);
                }
            }
            return Err(VerificationError::IntegerNegationOverflow { function: text(function), expression: text(&negs[i].expression) });
        }
        i += 1;
    }
    proof {
        if nz && semantics is Some {
            let l = crate::obligations::semantic_neg_list(semantics->0.arithmetic_operations@, value_params@, options.target_pointer_width);
            assert forall|k: int| 0 <= k < l.len() implies crate::discharge::negation_builtin_spec((#[trigger] l[k]).0, l[k].1, cv + l[k].3) by {
                assert(l[k] == crate::obligations::neg_views(negs@)[k]);
            }
        }
    }
    proof {
        if nz && semantics is None && crate::segments::straight_line(raw_body@) {
            let ev = crate::segments::executable_view(raw_body@);
            assert forall|j: int, ty: Seq<char>| #[trigger] crate::arith::negated_param_at(ev, value_params@, j, ty) implies
                crate::discharge::negation_builtin_spec(ev[j + 1], ty, cv) by {
                assert(crate::arith::neg_recorded(negs@, ev[j + 1], ty));
                let k = choose|k: int| 0 <= k < negs@.len() && (#[trigger] negs@[k]).variable@ == ev[j + 1] && negs@[k].ty@ == ty
                    && negs@[k].expression@ == seq!['-'] + ev[j + 1];
                let o = negs@[k];
                assert(views(o.assumptions@) =~= seq![]);
                assert(cv + views(o.assumptions@) =~= cv);
            }
        }
    }
    let muls = verification_multiplication_obligations(raw_body, value_params, semantics, options);
    let mut i: usize = 0;
    while i < muls.len()
        invariant
            nz ==> forall|j: int| 0 <= j < i ==> crate::discharge::multiplication_builtin_spec((#[trigger] muls@[j]).variable@, crate::discharge::opt_view(muls@[j].ty), muls@[j].constant, cv + views(muls@[j].assumptions@), options.target_pointer_width),
            forall|j: int| 0 <= j < i ==> crate::discharge::multiplication_builtin_spec((#[trigger] muls@[j]).variable@,
                crate::discharge::opt_view(muls@[j].ty), muls@[j].constant, cv + views(muls@[j].assumptions@),
                options.target_pointer_width) || (options.solver is Z3 && crate::discharge::multiplication_z3_valid(
                muls@[j].variable@, crate::discharge::opt_view(muls@[j].ty), muls@[j].constant, cv + views(muls@[j].assumptions@),
                value_params@, options.target_pointer_width)),
        decreases muls.len() - i,
    {
        if !multiplication_obligation_proved(&muls[i], contracts, value_params, options) {
            proof {
                if nz && semantics is None && crate::segments::straight_line(raw_body@) {
                    let o = muls@[i as int];
                    assert(crate::arith::mul_shape(o, value_params@));
                    assert(views(o.assumptions@) =~= seq![]);
                    assert(cv + views(o.assumptions@) =~= cv);
                }
                if semantics is None && crate::segments::straight_line(raw_body@) {
                    assert(crate::arith::star_site_text(crate::segments::executable_view(raw_body@), muls@[i as int].expression@));
                }
            }
            return Err(VerificationError::IntegerMultiplicationOverflow { function: text(function), expression: text(&muls[i].expression) });
        }
        i += 1;
    }
    proof {
        if nz && semantics is Some {
            let l = crate::obligations::semantic_mul_list(semantics->0.arithmetic_operations@, value_params@, options.target_pointer_width);
            assert forall|k: int| 0 <= k < l.len() implies crate::discharge::multiplication_builtin_spec((#[trigger] l[k]).0, l[k].1, back_i128(l[k].2), cv + l[k].4, options.target_pointer_width) by {
                assert(l[k] == crate::obligations::mul_views(muls@)[k]);
            }
        }
    }
    proof {
        if nz && semantics is None && crate::segments::straight_line(raw_body@) {
            let ev = crate::segments::executable_view(raw_body@);
            let w = options.target_pointer_width;
            assert forall|j: int| #[trigger] crate::arith::param_op_literal_at(ev, value_params@, "*"@, j) && crate::text::parse_i128_spec(
                ev[j + 2])->0 > 1 implies crate::discharge::multiplication_builtin_spec(ev[j], crate::arith::param_type_spec(ev[j],
                value_params@), crate::text::parse_i128_spec(ev[j + 2]), cv, w) by {
                let e = ev[j] + " * "@ + ev[j + 2];
                assert(crate::arith::mul_text_recorded(muls@, e));
                let k = choose|k: int| 0 <= k < muls@.len() && (#[trigger] muls@[k]).expression@ == e;
                let o = muls@[k];
                crate::arith::lemma_mul_shape_site(o, value_params@, ev[j], ev[j + 2]);
                assert(views(o.assumptions@) =~= seq![]);
                assert(cv + views(o.assumptions@) =~= cv);
            }
        }
    }
    proof {
        if semantics is None && crate::segments::straight_line(raw_body@) {
            let ev = crate::segments::executable_view(raw_body@);
            let w = options.target_pointer_width;
            let z = options.solver is Z3;
            assert forall|j: int| #[trigger] crate::arith::param_op_literal_at(ev, value_params@, "*"@, j) && crate::text::parse_i128_spec(
                ev[j + 2])->0 > 1 implies crate::discharge::multiplication_builtin_spec(ev[j], crate::arith::param_type_spec(ev[j],
                value_params@), crate::text::parse_i128_spec(ev[j + 2]), cv, w) || (z && crate::discharge::multiplication_z3_valid(
                ev[j], crate::arith::param_type_spec(ev[j], value_params@), crate::text::parse_i128_spec(ev[j + 2]), cv,
                value_params@, w)) by {
                let e = ev[j] + " * "@ + ev[j + 2];
                assert(crate::arith::mul_text_recorded(muls@, e));
                let k = choose|k: int| 0 <= k < muls@.len() && (#[trigger] muls@[k]).expression@ == e;
                let o = muls@[k];
                crate::arith::lemma_mul_shape_site(o, value_params@, ev[j], ev[j + 2]);
                assert(views(o.assumptions@) =~= seq![]);
                assert(cv + views(o.assumptions@) =~= cv);
            }
        }
    }
    let divs = verification_division_obligations(raw_body, params, semantics);
    let mut i: usize = 0;
    while i < divs.len()
        invariant
            nz ==> forall|j: int| 0 <= j < i ==> den_builtin_proved((#[trigger] divs@[j]).denominator@, cv + views(
                divs@[j].assumptions@)),
            forall|j: int| 0 <= j < i ==> den_sound((#[trigger] divs@[j]).denominator@, cv + views(divs@[j].assumptions@),
                value_params@, options.solver is Z3, options.target_pointer_width),
        decreases divs.len() - i,
    {
        let c = contracts_with_assumptions(contracts, &divs[i].assumptions);
        if !denominator_nonzero(&divs[i].denominator, &c, value_params, options) {
            proof {
                if nz && semantics is None && crate::segments::straight_line(raw_body@) {
                    let o = divs@[i as int];
                    assert(crate::arith::den_text_of(o, "/"@));
                    assert(views(o.assumptions@) =~= seq![]);
                    assert(cv + views(o.assumptions@) =~= cv);
                    assert(crate::arith::den_text_shape(o.expression@, "/"@, o.denominator@));
                }
            }
            return Err(VerificationError::IntegerDivisionByZero { function: text(function), expression: text(&divs[i].expression) });
        }
        i += 1;
    }
    proof {
        if nz && semantics is Some {
            let l = crate::obligations::semantic_den_list(semantics->0.arithmetic_operations@, SemanticArithmeticKind::Div);
            assert forall|k: int| 0 <= k < l.len() implies den_builtin_proved((#[trigger] l[k]).0, cv + l[k].2) by {
                assert(l[k] == crate::obligations::den_views(divs@)[k]);
            }
        }
    }
    let rems = verification_remainder_obligations(raw_body, params, semantics);
    let mut i: usize = 0;
    while i < rems.len()
        invariant
            nz ==> forall|j: int| 0 <= j < i ==> den_builtin_proved((#[trigger] rems@[j]).denominator@, cv + views(
                rems@[j].assumptions@)),
            forall|j: int| 0 <= j < i ==> den_sound((#[trigger] rems@[j]).denominator@, cv + views(rems@[j].assumptions@),
                value_params@, options.solver is Z3, options.target_pointer_width),
        decreases rems.len() - i,
    {
        let c = contracts_with_assumptions(contracts, &rems[i].assumptions);
        if !denominator_nonzero(&rems[i].denominator, &c, value_params, options) {
            proof {
                if nz && semantics is None && crate::segments::straight_line(raw_body@) {
                    let o = rems@[i as int];
                    assert(crate::arith::den_text_of(o, "%"@));
                    assert(views(o.assumptions@) =~= seq![]);
                    assert(cv + views(o.assumptions@) =~= cv);
                    assert(crate::arith::den_text_shape(o.expression@, "%"@, o.denominator@));
                }
            }
            return Err(VerificationError::IntegerRemainderByZero { function: text(function), expression: text(&rems[i].expression) });
        }
        i += 1;
    }
    proof {
        if nz && semantics is Some {
            let l = crate::obligations::semantic_den_list(semantics->0.arithmetic_operations@, SemanticArithmeticKind::Rem);
            assert forall|k: int| 0 <= k < l.len() implies den_builtin_proved((#[trigger] l[k]).0, cv + l[k].2) by {
                assert(l[k] == crate::obligations::den_views(rems@)[k]);
            }
        }
    }
    let div_overflows = verification_division_overflow_obligations(raw_body, value_params, semantics, options);
    let mut i: usize = 0;
    while i < div_overflows.len()
        invariant
            nz ==> forall|j: int| 0 <= j < i ==> crate::discharge::division_overflow_builtin_spec((#[trigger] div_overflows@[j]).left@,
                div_overflows@[j].right@, div_overflows@[j].ty@, cv + views(div_overflows@[j].assumptions@), options.target_pointer_width),
        decreases div_overflows.len() - i,
    {
        if !signed_division_overflow_obligation_proved(&div_overflows[i], contracts, value_params, options) {
            proof {
                if nz && semantics is None && crate::segments::straight_line(raw_body@) {
                    let o = div_overflows@[i as int];
                    assert(crate::arith::division_text_of(o, "/"@));
                    assert(views(o.assumptions@) =~= seq![]);
                    assert(cv + views(o.assumptions@) =~= cv);
                }
            }
            return Err(VerificationError::IntegerDivisionOverflow { function: text(function), expression: text(&div_overflows[i].expression) });
        }
        i += 1;
    }
    proof {
        if nz && semantics is Some {
            let l = crate::obligations::semantic_div_list(semantics->0.arithmetic_operations@, value_params@,
                SemanticArithmeticKind::Div, options.target_pointer_width);
            assert forall|k: int| 0 <= k < l.len() implies crate::discharge::division_overflow_builtin_spec(
                (#[trigger] l[k]).0, l[k].1, l[k].2, cv + l[k].4, options.target_pointer_width) by {
                assert(l[k] == crate::obligations::div_views(div_overflows@)[k]);
            }
        }
    }
    let rem_overflows = verification_remainder_overflow_obligations(raw_body, value_params, semantics, options);
    let mut i: usize = 0;
    while i < rem_overflows.len()
        invariant
            nz ==> forall|j: int| 0 <= j < i ==> crate::discharge::division_overflow_builtin_spec((#[trigger] rem_overflows@[j]).left@,
                rem_overflows@[j].right@, rem_overflows@[j].ty@, cv + views(rem_overflows@[j].assumptions@), options.target_pointer_width),
        decreases rem_overflows.len() - i,
    {
        if !signed_division_overflow_obligation_proved(&rem_overflows[i], contracts, value_params, options) {
            proof {
                if nz && semantics is None && crate::segments::straight_line(raw_body@) {
                    let o = rem_overflows@[i as int];
                    assert(crate::arith::division_text_of(o, "%"@));
                    assert(views(o.assumptions@) =~= seq![]);
                    assert(cv + views(o.assumptions@) =~= cv);
                }
            }
            return Err(VerificationError::IntegerRemainderOverflow { function: text(function), expression: text(&rem_overflows[i].expression) });
        }
        i += 1;
    }
    proof {
        if nz && semantics is Some {
            let l = crate::obligations::semantic_div_list(semantics->0.arithmetic_operations@, value_params@,
                SemanticArithmeticKind::Rem, options.target_pointer_width);
            assert forall|k: int| 0 <= k < l.len() implies crate::discharge::division_overflow_builtin_spec(
                (#[trigger] l[k]).0, l[k].1, l[k].2, cv + l[k].4, options.target_pointer_width) by {
                assert(l[k] == crate::obligations::div_views(rem_overflows@)[k]);
            }
        }
    }
    proof {
        if nz && semantics is None && crate::segments::straight_line(raw_body@) {
            let ev = crate::segments::executable_view(raw_body@);
            let w = options.target_pointer_width;
            assert forall|i: int| #[trigger] crate::arith::div_overflow_site(ev, value_params@, "/"@, w, i) implies division_text_proved(
                crate::arith::div_site_text(ev, "/"@, i), "/"@, cv, w) by {
                let e = crate::arith::div_site_text(ev, "/"@, i);
                assert(crate::obligations::division_text_kept(div_overflows@, e));
                let k = choose|k: int| 0 <= k < div_overflows@.len() && (#[trigger] div_overflows@[k]).expression@ == e;
                let ob = div_overflows@[k];
                assert(crate::arith::division_text_of(ob, "/"@));
                assert(views(ob.assumptions@) =~= seq![]);
                assert(cv + views(ob.assumptions@) =~= cv);
                assert(crate::discharge::division_overflow_builtin_spec(ob.left@, ob.right@, ob.ty@, cv, w));
            }
            assert forall|i: int| #[trigger] crate::arith::div_overflow_site(ev, value_params@, "%"@, w, i) implies division_text_proved(
                crate::arith::div_site_text(ev, "%"@, i), "%"@, cv, w) by {
                let e = crate::arith::div_site_text(ev, "%"@, i);
                assert(crate::obligations::division_text_kept(rem_overflows@, e));
                let k = choose|k: int| 0 <= k < rem_overflows@.len() && (#[trigger] rem_overflows@[k]).expression@ == e;
                let ob = rem_overflows@[k];
                assert(crate::arith::division_text_of(ob, "%"@));
                assert(views(ob.assumptions@) =~= seq![]);
                assert(cv + views(ob.assumptions@) =~= cv);
                assert(crate::discharge::division_overflow_builtin_spec(ob.left@, ob.right@, ob.ty@, cv, w));
            }
        }
    }
    proof {
        if nz && semantics is None && crate::segments::straight_line(raw_body@) {
            crate::arith::lemma_param_type_pairs(value_params@, params@);
            let ev = crate::segments::executable_view(raw_body@);
            assert forall|i: int| #[trigger] crate::arith::value_op_param_at(ev, value_params@, "/"@, i) implies den_text_proved(
                ev[i] + " "@ + "/"@ + " "@ + ev[i + 2], "/"@, cv) by {
                let e = ev[i] + " "@ + "/"@ + " "@ + ev[i + 2];
                assert(crate::arith::param_type_spec(ev[i + 2], value_params@) == crate::arith::param_type_spec(ev[i + 2], params@));
                assert(crate::arith::value_op_param_at(ev, params@, "/"@, i));
                assert(crate::obligations::den_text_kept(divs@, e));
                let k = choose|k: int| 0 <= k < divs@.len() && (#[trigger] divs@[k]).expression@ == e;
                let ob = divs@[k];
                assert(crate::arith::den_text_of(ob, "/"@));
                assert(cv + views(ob.assumptions@) =~= cv);
                assert(den_builtin_proved(ob.denominator@, cv));
            }
            assert forall|i: int| #[trigger] crate::arith::value_op_param_at(ev, value_params@, "%"@, i) implies den_text_proved(
                ev[i] + " "@ + "%"@ + " "@ + ev[i + 2], "%"@, cv) by {
                let e = ev[i] + " "@ + "%"@ + " "@ + ev[i + 2];
                assert(crate::arith::param_type_spec(ev[i + 2], value_params@) == crate::arith::param_type_spec(ev[i + 2], params@));
                assert(crate::arith::value_op_param_at(ev, params@, "%"@, i));
                assert(crate::obligations::den_text_kept(rems@, e));
                let k = choose|k: int| 0 <= k < rems@.len() && (#[trigger] rems@[k]).expression@ == e;
                let ob = rems@[k];
                assert(crate::arith::den_text_of(ob, "%"@));
                assert(cv + views(ob.assumptions@) =~= cv);
                assert(den_builtin_proved(ob.denominator@, cv));
            }
        }
    }
    proof {
        if semantics is None && crate::segments::straight_line(raw_body@) {
            crate::arith::lemma_param_type_pairs(value_params@, params@);
            let ev = crate::segments::executable_view(raw_body@);
            let z = options.solver is Z3;
            let w = options.target_pointer_width;
            assert forall|i: int| #[trigger] crate::arith::value_op_param_at(ev, value_params@, "/"@, i) implies den_text_sound(
                ev[i] + " "@ + "/"@ + " "@ + ev[i + 2], "/"@, cv, value_params@, z, w) by {
                let e = ev[i] + " "@ + "/"@ + " "@ + ev[i + 2];
                assert(crate::arith::param_type_spec(ev[i + 2], value_params@) == crate::arith::param_type_spec(ev[i + 2], params@));
                assert(crate::arith::value_op_param_at(ev, params@, "/"@, i));
                assert(crate::obligations::den_text_kept(divs@, e));
                let k = choose|k: int| 0 <= k < divs@.len() && (#[trigger] divs@[k]).expression@ == e;
                let ob = divs@[k];
                assert(crate::arith::den_text_of(ob, "/"@));
                assert(cv + views(ob.assumptions@) =~= cv);
                assert(den_sound(ob.denominator@, cv, value_params@, z, w));
            }
            assert forall|i: int| #[trigger] crate::arith::value_op_param_at(ev, value_params@, "%"@, i) implies den_text_sound(
                ev[i] + " "@ + "%"@ + " "@ + ev[i + 2], "%"@, cv, value_params@, z, w) by {
                let e = ev[i] + " "@ + "%"@ + " "@ + ev[i + 2];
                assert(crate::arith::param_type_spec(ev[i + 2], value_params@) == crate::arith::param_type_spec(ev[i + 2], params@));
                assert(crate::arith::value_op_param_at(ev, params@, "%"@, i));
                assert(crate::obligations::den_text_kept(rems@, e));
                let k = choose|k: int| 0 <= k < rems@.len() && (#[trigger] rems@[k]).expression@ == e;
                let ob = rems@[k];
                assert(crate::arith::den_text_of(ob, "%"@));
                assert(cv + views(ob.assumptions@) =~= cv);
                assert(den_sound(ob.denominator@, cv, value_params@, z, w));
            }
        }
    }
    Ok(())
}

/// A slice index the contracts or its assumptions bound by the length.
pub open spec fn index_bounded(base: Seq<char>, index: Seq<char>, cs: Seq<Seq<char>>) -> bool {
    cs.contains(index + "<"@ + base + ".len()"@) || cs.contains(base + ".len()"@ + ">"@ + index)
}

/// The texts of the function's executable postconditions, in order.
pub open spec fn postcondition_texts(m: TrustMetadata) -> Seq<Seq<char>> {
    contracts_where(string_views(m.contracts_original@), string_views(m.contract_classes@), keep_of(2), prepare_of(false),
        pair_count(m))
}

/// Some index `b[ix]` with this text, of a slice parameter `b`, is not
/// bounded by the contracts.
pub open spec fn index_unproved(e: Seq<char>, params: Seq<Param>, cs: Seq<Seq<char>>) -> bool {
    exists|b: Seq<char>, ix: Seq<char>| crate::index::slice_param(b, params) && e == b + "["@ + ix + "]"@
        && !#[trigger] index_bounded(b, ix, cs)
}

/// The errors the index, call and postcondition checks give.
pub open spec fn index_call_post_error(e: VerificationError) -> bool {
    ||| e is UnsupportedIndex
    ||| e is SliceIndexOutOfBounds
    ||| e is CalleePreconditionUnproved
    ||| e is PostconditionUnproved
    ||| e is SemanticExtractionIncomplete
}

/// Indexing, calls and postconditions of a total function, after its
/// arithmetic.
#[verifier::loop_isolation(false)]
fn check_indexes_calls_and_postconditions(
    metadata: &TrustMetadata,
    raw_body: &[char],
    body_text: &[char],
    function: &[char],
    params: &Vec<Param>,
    value_params: &Vec<Param>,
    semantics: Option<&TrustFunctionSemantics>,
    contracts: &Vec<Vec<char>>,
    given_contracts: &Vec<Vec<char>>,
    postcondition_assumptions: &Vec<Vec<char>>,
    call_env: &Vec<TrustFunctionSummary>,
    options: VerificationOptions,
) -> (r: Result<(), VerificationError>)
    ensures
        r matches Err(e) ==> e.subject_spec() == function@,
        r matches Err(e) ==> index_call_post_error(e),
        r is Ok ==> forall|i0: int| !(!has_token(tokens_spec(raw_body@), "loop_spec"@)
            && #[trigger] crate::index::first_unsupported_index(crate::segments::executable_view(raw_body@), params@,
            semantics, i0)),
        r is Ok ==> (semantics matches Some(s) ==> reported_indexes_bounded(*s, views(contracts@))),
        semantics is None ==> (r matches Err(e) ==> !(e is SemanticExtractionIncomplete)),
        r matches Err(e) ==> (e is UnsupportedIndex ==> has_token(tokens_spec(raw_body@), "loop_spec"@) || has_token(
            crate::segments::executable_view(raw_body@), "["@)),
        semantics is None ==> (r matches Err(e) ==> (e is SliceIndexOutOfBounds ==> exists|b: Seq<char>|
            #[trigger] crate::index::slice_param(b, params@))),
        semantics is None ==> (r matches Err(e) ==> (e is SliceIndexOutOfBounds ==> index_unproved(
            e->SliceIndexOutOfBounds_expression@, params@, views(contracts@)))),
        semantics is None && crate::segments::straight_line(raw_body@) ==> (r matches Err(e) ==> (e is SliceIndexOutOfBounds
            ==> has_token(crate::segments::executable_view(raw_body@), "["@))),
        semantics is None ==> (r matches Err(e) ==> (e is CalleePreconditionUnproved ==> crate::calls::env_has_name(
            call_env@, e->CalleePreconditionUnproved_callee@))),
        semantics is None && crate::calls::straight_call_body(raw_body@) ==> (r matches Err(e) ==> (
            e is CalleePreconditionUnproved ==> has_token(tokens_spec(raw_body@), "("@))),
        !(options.solver is Z3) ==> (r matches Err(e) ==> (e is CalleePreconditionUnproved ==> callee_condition_unproved(
            e->CalleePreconditionUnproved_condition@, views(given_contracts@)))),
        r matches Err(e) ==> (e is PostconditionUnproved ==> exists|k: int| 0 <= k < postcondition_texts(*metadata).len()
            && #[trigger] postcondition_texts(*metadata)[k] == e->PostconditionUnproved_condition@),
{
    if let Some(expression) = unsupported_index_expression(raw_body, params, semantics) {
        return Err(VerificationError::UnsupportedIndex { function: text(function), expression: text(&expression) });
    }
    let indexes = verification_slice_index_obligations(raw_body, params, semantics);
    let ghost cv = views(contracts@);
    let mut i: usize = 0;
    while i < indexes.len()
        invariant
            forall|j: int| 0 <= j < i ==> index_bounded((#[trigger] indexes@[j]).base@, indexes@[j].index@, cv + views(
                indexes@[j].assumptions@)),
        decreases indexes.len() - i,
    {
        let ob = &indexes[i];
        if !slice_index_obligation_proved(&ob.base, &ob.index, &ob.assumptions, contracts) {
            proof {
                if semantics is None {
                    let all = cv + views(ob.assumptions@);
                    assert(cv.contains(ob.index@ + "<"@ + ob.base@ + ".len()"@) ==> all.contains(ob.index@ + "<"@ + ob.base@
                        + ".len()"@)) by {
                        if cv.contains(ob.index@ + "<"@ + ob.base@ + ".len()"@) {
                            let j = choose|j: int| 0 <= j < cv.len() && cv[j] == ob.index@ + "<"@ + ob.base@ + ".len()"@;
                            assert(all[j] == cv[j]);
                        }
                    }
                    assert(cv.contains(ob.base@ + ".len()"@ + ">"@ + ob.index@) ==> all.contains(ob.base@ + ".len()"@ + ">"@
                        + ob.index@)) by {
                        if cv.contains(ob.base@ + ".len()"@ + ">"@ + ob.index@) {
                            let j = choose|j: int| 0 <= j < cv.len() && cv[j] == ob.base@ + ".len()"@ + ">"@ + ob.index@;
                            assert(all[j] == cv[j]);
                        }
                    }
                    assert(crate::index::slice_param(ob.base@, params@));
                    assert(!index_bounded(ob.base@, ob.index@, cv));
                }
            }
            return Err(VerificationError::SliceIndexOutOfBounds { function: text(function), expression: text(&ob.expression) });
        }
        i += 1;
    }
    proof {
        if semantics is Some {
            let l = crate::index::semantic_index_list(semantics->0.slice_indexes@);
            assert forall|k: int| 0 <= k < l.len() implies index_bounded((#[trigger] l[k]).0, l[k].1, cv + l[k].3) by {
                assert(l[k] == crate::index::index_views(indexes@)[k]);
            }
        }
    }
    let calls = verification_call_obligations(raw_body, call_env, semantics);
    let mut i: usize = 0;
    while i < calls.len()
        decreases calls.len() - i,
    {
        let ob = &calls[i];
        let c = contracts_with_assumptions(given_contracts, &ob.assumptions);
        if !callee_precondition_proved(&ob.condition, &c, value_params, options) {
            proof {
                let gv = views(given_contracts@);
                let allc = gv + views(ob.assumptions@);
                assert forall|x: Seq<char>| gv.contains(x) implies allc.contains(x) by {
                    let j = choose|j: int| 0 <= j < gv.len() && gv[j] == x;
                    assert(allc[j] == gv[j]);
                }
            }
            return Err(VerificationError::CalleePreconditionUnproved {
                function: text(function),
                callee: text(&ob.callee),
                condition: text(&ob.condition),
            });
        }
        i += 1;
    }
    let semantic_return_expression: Option<Vec<char>> = match semantics {
        Some(s) => match &s.return_expression {
            Some(e) => Some(normalize(&chars_of_string(e))),
            None => None,
        },
        None => None,
    };
    let posts = postconditions(metadata);
    let mut i: usize = 0;
    while i < posts.len()
        decreases posts.len() - i,
    {
        match postcondition_proved(&posts[i], body_text, raw_body, &semantic_return_expression, semantics, postcondition_assumptions, value_params, options) {
            PostconditionProof::Proved => {},
            PostconditionProof::Unproved => {
                assert(postcondition_texts(*metadata)[i as int] == posts@[i as int].original@);
                return Err(VerificationError::PostconditionUnproved { function: text(function), condition: text(&posts[i].original) });
            },
            PostconditionProof::SemanticExtractionIncomplete { expression } => {
                return Err(extraction_gap(function, "return expression", &expression));
            },
        }
        i += 1;
    }
    Ok(())
}

/// The body of a function as its checks read it (its tokens with single
/// spaces between them), for a body without `#[cfg(..)]` items.
pub open spec fn read_body(m: TrustMetadata) -> Seq<char> {
    crate::segments::spaced(tokens_spec(body_spec(m.function_source@)))
}

/// The body holds no `#[cfg(..)]` attribute.
pub open spec fn cfg_free(m: TrustMetadata) -> bool {
    !has_token(tokens_spec(body_spec(m.function_source@)), "#"@)
}

/// What an accepted body's tokens never hold: an unchecked `unwrap` or
/// `expect`, an explicit panic, a closure, a method other than `len` or
/// `checked_add`, a macro other than `loop_spec!`, or a `while` with no
/// `loop_spec!` before it.
pub open spec fn accepted_body(t: Seq<Seq<char>>) -> bool {
    &&& forall|i: int| !#[trigger] crate::calls::unwrap_at(t, i)
    &&& forall|i: int| !#[trigger] crate::calls::panic_at(t, i)
    &&& forall|i: int| !#[trigger] crate::calls::closure_at(t, i)
    &&& forall|i: int| #[trigger] crate::calls::method_call_at(t, i) ==> t[i + 2] == "len"@ || t[i + 2] == "checked_add"@
    &&& forall|i: int| #[trigger] crate::calls::macro_call_at(t, i) ==> t[i] == "loop_spec"@
    &&& forall|w: int| !#[trigger] crate::loops::unspecified_first_loop(t, w)
}

/// No parameter type and no return type read from the function's source
/// is one the verifier refuses outright.
pub open spec fn signature_types_allowed(m: TrustMetadata, model_types: Seq<Seq<char>>) -> bool {
    let src = strip_ws(m.function_source@);
    &&& forall|k: int| 0 <= k < params_spec(src).len() ==> !refused_type(trim_spec(#[trigger] params_spec(src)[k].1), model_types)
    &&& !refused_type(trim_spec(return_type_spec(src)), model_types)
}

/// Every parameter type and the return type read from the function's
/// source is one the verifier reads directly: unit, `bool`, a checked
/// integer type or a model type.
pub open spec fn plain_signature(m: TrustMetadata, model_types: Seq<Seq<char>>) -> bool {
    let src = strip_ws(m.function_source@);
    &&& forall|k: int| 0 <= k < params_spec(src).len() ==> crate::types::plainly_supported(trim_spec(
        #[trigger] params_spec(src)[k].1), model_types)
    &&& crate::types::plainly_supported(trim_spec(return_type_spec(src)), model_types)
}

proof fn lemma_plain_signature_params(m: TrustMetadata, params: Seq<Param>, models: Seq<Seq<char>>)
    requires
        param_pairs(params) == params_spec(strip_ws(m.function_source@)),
        plain_signature(m, models),
    ensures
        forall|k: int| 0 <= k < params.len() ==> crate::types::plainly_supported(trim_spec(#[trigger] params[k].ty@), models),
{
    assert forall|k: int| 0 <= k < params.len() implies crate::types::plainly_supported(trim_spec(#[trigger] params[k].ty@),
        models) by {
        assert(param_pairs(params)[k] == (params[k].name@, params[k].ty@));
        assert(params_spec(strip_ws(m.function_source@))[k].1 == params[k].ty@);
    }
}

/// A total function in which the checks find nothing to refuse or prove:
/// a plain signature, no executable postcondition, and a body without
/// `#[cfg]`, loops, calls, field reads, indexing, arithmetic operators,
/// `unwrap`, panics or closures.
pub open spec fn nothing_to_refuse(m: TrustMetadata, model_types: Seq<Seq<char>>) -> bool {
    let t = tokens_spec(read_body(m));
    let ev = crate::segments::executable_view(read_body(m));
    &&& plain_signature(m, model_types)
    &&& postcondition_texts(m).len() == 0
    &&& cfg_free(m)
    &&& !has_token(t, "while"@) && !has_token(t, "loop_spec"@) && !has_token(ev, "while"@)
    &&& !has_token(t, "("@) && !has_token(t, "."@) && !has_token(ev, "["@)
    &&& !has_token(ev, "+"@) && !has_token(ev, "-"@) && !has_token(ev, "*"@) && !has_token(ev, "/"@) && !has_token(ev, "%"@)
    &&& forall|i: int| !#[trigger] crate::calls::unwrap_at(t, i)
    &&& forall|i: int| !#[trigger] crate::calls::panic_at(t, i)
    &&& forall|i: int| !#[trigger] crate::calls::closure_at(t, i)
    &&& forall|v: Seq<char>| !#[trigger] crate::calls::reports_call(t, v)
}

/// A total function whose only checks are those of its additions and
/// multiplications: as for `nothing_to_refuse`, but the body may use `+`
/// and `*`.
pub open spec fn only_sums_and_products_to_prove(m: TrustMetadata, model_types: Seq<Seq<char>>) -> bool {
    let t = tokens_spec(read_body(m));
    let ev = crate::segments::executable_view(read_body(m));
    &&& plain_signature(m, model_types)
    &&& postcondition_texts(m).len() == 0
    &&& cfg_free(m)
    &&& !has_token(t, "while"@) && !has_token(t, "loop_spec"@) && !has_token(ev, "while"@)
    &&& !has_token(t, "("@) && !has_token(t, "."@) && !has_token(ev, "["@)
    &&& !has_token(ev, "-"@) && !has_token(ev, "/"@) && !has_token(ev, "%"@)
    &&& forall|i: int| !#[trigger] crate::calls::unwrap_at(t, i)
    &&& forall|i: int| !#[trigger] crate::calls::panic_at(t, i)
    &&& forall|i: int| !#[trigger] crate::calls::closure_at(t, i)
    &&& forall|v: Seq<char>| !#[trigger] crate::calls::reports_call(t, v)
}

/// A `*` stands at `j + 1` with a token on each side.
pub open spec fn star_between(t: Seq<Seq<char>>, j: int) -> bool {
    0 <= j && j + 2 < t.len() && t[j + 1] == "*"@
}

/// A `+` stands at `j + 1` with a token on each side.
pub open spec fn plus_between(t: Seq<Seq<char>>, j: int) -> bool {
    0 <= j && j + 2 < t.len() && t[j + 1] == "+"@
}

/// Every `+` among the tokens adds a literal to an integer parameter and
/// every `*` multiplies one by a literal above `1`, and each such
/// operation is shown free of overflow by the built-in rules.
pub open spec fn sums_and_products_proved(t: Seq<Seq<char>>, params: Seq<Param>, cs: Seq<Seq<char>>, w: Option<u32>) -> bool {
    &&& forall|j: int| #[trigger] plus_between(t, j) ==> crate::arith::param_op_literal_at(t, params, "+"@, j)
    &&& forall|j: int| #[trigger] star_between(t, j) ==> crate::arith::param_op_literal_at(t, params, "*"@, j)
        && crate::text::parse_i128_spec(t[j + 2])->0 > 1
    &&& token_additions_proved(t, params, cs, w)
    &&& token_multiplications_proved(t, params, cs, w)
}

/// One of the errors the loop checks give for a loop of the body.
pub open spec fn loop_check_error(e: VerificationError) -> bool {
    ||| e is LoopMissingSpec
    ||| e is LoopAmbiguousSpec
    ||| e is LoopMissingDecreases
    ||| e is LoopInvariantNotEstablished
    ||| e is LoopInvariantNotPreserved
    ||| e is LoopDecreasesNotDecreasing
    ||| e is UnsupportedLoopControl
}

/// Every free call among the tokens names a function of the environment,
/// and none names the function itself.
pub open spec fn calls_known(t: Seq<Seq<char>>, function: Seq<char>, env: Seq<TrustFunctionSummary>) -> bool {
    forall|i: int| #[trigger] crate::calls::free_call_at(t, i) ==> !crate::calls::names_call(function, t[i])
        && crate::calls::env_has_matching_name(env, t[i])
}

/// Every free call among the tokens names a total function or executable
/// spec of the crate, and none names the function itself.
pub open spec fn calls_into_crate(t: Seq<Seq<char>>, function: Seq<char>, m: Seq<TrustMetadata>) -> bool {
    forall|i: int| #[trigger] crate::calls::free_call_at(t, i) ==> !crate::calls::names_call(function, t[i])
        && exists|j: int| 0 <= j < m.len() && callable_record(#[trigger] m[j]) && crate::calls::names_call(
        m[j].rust_function_path@, t[i])
}

/// Position of the first parameter with this name, from `i` on.
pub open spec fn first_pair_named(ps: Seq<(Seq<char>, Seq<char>)>, name: Seq<char>, i: int) -> Option<int>
    decreases ps.len() - i,
{
    if i < 0 || i >= ps.len() {
        None
    } else if ps[i].0 == name {
        Some(i)
    } else {
        first_pair_named(ps, name, i + 1)
    }
}

/// Every field read of a parameter among the tokens is of a parameter whose
/// type is a `TrustModel` type (by its last path segment).
pub open spec fn fields_of_models(t: Seq<Seq<char>>, ps: Seq<(Seq<char>, Seq<char>)>, models: Seq<Seq<char>>) -> bool {
    forall|idx: int| #[trigger] crate::index::field_read_at(t, idx) ==> (first_pair_named(ps, t[idx], 0) matches Some(k)
        ==> models.contains(crate::tokens::type_name_tail_spec(ps[k].1)))
}

proof fn lemma_first_pair_named(params: Seq<Param>, name: Seq<char>, i: int)
    ensures
        crate::arith::param_position_from(params, name, i) == first_pair_named(param_pairs(params), name, i),
        first_pair_named(param_pairs(params), name, i) matches Some(k) ==> 0 <= k < params.len() && params[k].name@ == name,
    decreases params.len() - i,
{
    if 0 <= i < params.len() {
        lemma_first_pair_named(params, name, i + 1);
    }
}

/// Checks one total function against the environment of callable
/// functions and model types. Other items pass. The checks run in a
/// fixed order and the first failure is the result: types, loops, panics
/// and closures, calls, coverage of the compiler's facts, field reads,
/// arithmetic, indexing, callee preconditions, postconditions.
#[verifier::loop_isolation(false)]
pub fn verify_total_with_env(
    metadata: &TrustMetadata,
    semantics: Option<&TrustFunctionSemantics>,
    env: &Vec<TrustFunctionSummary>,
    model_types: &Vec<Vec<char>>,
    options: VerificationOptions,
) -> (r: Result<(), VerificationError>)
    ensures
        metadata.item_kind@ != "total"@ ==> r is Ok,
        r matches Err(e) ==> e.subject_spec() == metadata.rust_function_path@,
        r matches Err(e) ==> !(e is ProofObligationUnproved) && !(e is UnsupportedProofStep),
        metadata.item_kind@ == "total"@ && cfg_free(*metadata) && r is Ok ==> accepted_body(tokens_spec(read_body(*metadata))),
        metadata.item_kind@ == "total"@ && r is Ok && !(options.solver is Z3) ==> (semantics matches Some(s) ==> (exists|
            vp: Seq<Param>,
        | reported_arithmetic_proved(*s, vp, executable_contracts(*metadata), options.target_pointer_width))
            && reported_indexes_bounded(*s, executable_contracts(*metadata))),
        metadata.item_kind@ == "total"@ && semantics is None && !(options.solver is Z3) && cfg_free(*metadata)
            && crate::segments::straight_line(read_body(*metadata)) && r is Ok ==> exists|vp: Seq<Param>| param_pairs(vp)
            == params_spec(strip_ws(metadata.function_source@)) && #[trigger] token_divisions_proved(
            crate::segments::executable_view(read_body(*metadata)), vp, executable_contracts(*metadata),
            options.target_pointer_width),
        metadata.item_kind@ == "total"@ && semantics is None && !(options.solver is Z3) && cfg_free(*metadata)
            && crate::segments::straight_line(read_body(*metadata)) && r is Ok ==> exists|vp: Seq<Param>| param_pairs(vp)
            == params_spec(strip_ws(metadata.function_source@)) && #[trigger] token_additions_proved(
            crate::segments::executable_view(read_body(*metadata)), vp, executable_contracts(*metadata),
            options.target_pointer_width) && token_negations_proved(crate::segments::executable_view(read_body(*metadata)), vp,
            executable_contracts(*metadata)) && token_multiplications_proved(crate::segments::executable_view(read_body(
            *metadata)), vp, executable_contracts(*metadata), options.target_pointer_width) && token_subtractions_proved(
            crate::segments::executable_view(read_body(*metadata)), vp, executable_contracts(*metadata)),
        metadata.item_kind@ == "total"@ && semantics is None && !(options.solver is Z3) && cfg_free(*metadata)
            && crate::segments::straight_line(read_body(*metadata)) ==> (r matches Err(e) ==> (arithmetic_error(e) ==> exists|
            vp: Seq<Param>| param_pairs(vp) == params_spec(strip_ws(metadata.function_source@)) && #[trigger] arithmetic_error_unproved(
            e, vp, executable_contracts(*metadata), options.target_pointer_width))),
        metadata.item_kind@ == "total"@ && semantics is None && r is Ok ==> signature_types_allowed(*metadata, views(model_types@)),
        metadata.item_kind@ == "total"@ && cfg_free(*metadata) && semantics is None && r is Ok ==> calls_known(
            tokens_spec(read_body(*metadata)), metadata.rust_function_path@, env@),
        metadata.item_kind@ == "total"@ && cfg_free(*metadata) && semantics is None && r is Ok ==> fields_of_models(
            tokens_spec(read_body(*metadata)), params_spec(strip_ws(metadata.function_source@)), views(model_types@)),
        metadata.item_kind@ == "total"@ && semantics is None ==> (r matches Err(e) ==> (e is UnsupportedType
            ==> !plain_signature(*metadata, views(model_types@)))),
        metadata.item_kind@ == "total"@ && semantics is None ==> (r matches Err(e) ==> (e is MissingTrustModel ==> (exists|
            k: int| 0 <= k < params_spec(strip_ws(metadata.function_source@)).len() && (#[trigger] params_spec(strip_ws(
            metadata.function_source@))[k]).1 == e->MissingTrustModel_ty@) && !views(model_types@).contains(
            crate::tokens::type_name_tail_spec(e->MissingTrustModel_ty@)))),
        metadata.item_kind@ == "total"@ && semantics is None && cfg_free(*metadata) ==> (r matches Err(e) ==> (
            e is MissingTrustModel ==> has_token(tokens_spec(read_body(*metadata)), "."@))),
        metadata.item_kind@ == "total"@ && semantics is None && cfg_free(*metadata) ==> (r matches Err(e) ==> (
            e is UncheckedUnwrap ==> exists|i: int| #[trigger] crate::calls::unwrap_at(tokens_spec(read_body(*metadata)), i))),
        metadata.item_kind@ == "total"@ && semantics is None && cfg_free(*metadata) ==> (r matches Err(e) ==> (
            e is ExplicitPanic ==> exists|i: int| #[trigger] crate::calls::panic_at(tokens_spec(read_body(*metadata)), i))),
        metadata.item_kind@ == "total"@ && semantics is None && cfg_free(*metadata) ==> (r matches Err(e) ==> (
            e is UnsupportedClosure ==> exists|i: int| #[trigger] crate::calls::closure_at(tokens_spec(read_body(*metadata)),
            i))),
        metadata.item_kind@ == "total"@ && semantics is None && cfg_free(*metadata) ==> (r matches Err(e) ==> (
            e is UnsupportedCall ==> crate::calls::reports_call(tokens_spec(read_body(*metadata)), e->UnsupportedCall_callee@))),
        metadata.item_kind@ == "total"@ && cfg_free(*metadata) ==> (r matches Err(e) ==> (loop_check_error(e) ==> has_token(
            tokens_spec(read_body(*metadata)), "while"@) || has_token(tokens_spec(read_body(*metadata)), "loop_spec"@))),
        metadata.item_kind@ == "total"@ && semantics is None ==> (r matches Err(e) ==> !(e is SemanticExtractionIncomplete)),
        metadata.item_kind@ == "total"@ && cfg_free(*metadata) ==> (r matches Err(e) ==> (e is UnsupportedIndex ==> has_token(
            tokens_spec(read_body(*metadata)), "loop_spec"@) || has_token(crate::segments::executable_view(read_body(
            *metadata)), "["@))),
        metadata.item_kind@ == "total"@ && semantics is None ==> (r matches Err(e) ==> (e is SliceIndexOutOfBounds ==> exists|
            k: int| 0 <= k < params_spec(strip_ws(metadata.function_source@)).len() && crate::text::starts_with_spec(
            (#[trigger] params_spec(strip_ws(metadata.function_source@))[k]).1, "&["@) && crate::text::ends_with_spec(
            params_spec(strip_ws(metadata.function_source@))[k].1, "]"@))),
        metadata.item_kind@ == "total"@ && semantics is None ==> (r matches Err(e) ==> (e is CalleePreconditionUnproved
            ==> crate::calls::env_has_name(env@, e->CalleePreconditionUnproved_callee@))),
        metadata.item_kind@ == "total"@ && !(options.solver is Z3) ==> (r matches Err(e) ==> (e is CalleePreconditionUnproved
            ==> callee_condition_unproved(e->CalleePreconditionUnproved_condition@, given_contracts(*metadata)))),
        metadata.item_kind@ == "total"@ && semantics is None ==> (r matches Err(e) ==> (e is SliceIndexOutOfBounds ==> exists|
            vp: Seq<Param>| param_pairs(vp) == params_spec(strip_ws(metadata.function_source@)) && #[trigger] index_unproved(
            e->SliceIndexOutOfBounds_expression@, vp, executable_contracts(*metadata)))),
        r matches Err(e) ==> (e is PostconditionUnproved ==> exists|k: int| 0 <= k < postcondition_texts(*metadata).len()
            && #[trigger] postcondition_texts(*metadata)[k] == e->PostconditionUnproved_condition@),
        metadata.item_kind@ == "total"@ && semantics is None && cfg_free(*metadata) && crate::segments::straight_line(read_body(
            *metadata)) ==> (r matches Err(e) ==> arithmetic_operator_shown(e, crate::segments::executable_view(read_body(
            *metadata)))),
        metadata.item_kind@ == "total"@ && semantics is None && cfg_free(*metadata) && crate::segments::straight_line(read_body(
            *metadata)) ==> (r matches Err(e) ==> (e is SliceIndexOutOfBounds ==> has_token(crate::segments::executable_view(
            read_body(*metadata)), "["@))),
        metadata.item_kind@ == "total"@ && semantics is None && cfg_free(*metadata) && crate::calls::straight_call_body(
            read_body(*metadata)) ==> (r matches Err(e) ==> (e is CalleePreconditionUnproved ==> has_token(tokens_spec(
            read_body(*metadata)), "("@))),
        metadata.item_kind@ == "total"@ && semantics is None && nothing_to_refuse(*metadata, views(model_types@)) ==> r is Ok,
        metadata.item_kind@ == "total"@ && semantics is None && cfg_free(*metadata) && crate::segments::straight_line(read_body(
            *metadata)) && r is Ok ==> exists|vp: Seq<Param>| param_pairs(vp) == params_spec(strip_ws(metadata.function_source@))
            && #[trigger] denominators_sound(crate::segments::executable_view(read_body(*metadata)), vp, executable_contracts(
            *metadata), options.solver is Z3, options.target_pointer_width) && multiplications_sound(
            crate::segments::executable_view(read_body(*metadata)), vp, executable_contracts(*metadata), options.solver is Z3,
            options.target_pointer_width),
        metadata.item_kind@ == "total"@ && semantics is None && !(options.solver is Z3) && only_sums_and_products_to_prove(*metadata,
            views(model_types@)) && (forall|vp: Seq<Param>| param_pairs(vp) == params_spec(strip_ws(metadata.function_source@))
            ==> #[trigger] sums_and_products_proved(crate::segments::executable_view(read_body(*metadata)), vp,
            executable_contracts(*metadata), options.target_pointer_width)) ==> r is Ok,
{
    if !is_lit(&chars_of_string(&metadata.item_kind), "total") {
        return Ok(());
    }
    let function = chars_of_string(&metadata.rust_function_path);
    let full_source = chars_of_string(&metadata.function_source);
    let source = normalize(&full_source);
    let contracts = executable_preconditions(metadata);
    let given_contracts = given_preconditions(metadata);
    let params = verification_params(&source, semantics);
    let return_type = verification_return_type(&source, semantics);
    let local_types = verification_local_types(semantics);
    if let Some(ty) = unsupported_function_type(&params, &return_type, &local_types, model_types) {
        proof {
            if semantics is None && plain_signature(*metadata, views(model_types@)) {
                assert(source@ == strip_ws(metadata.function_source@));
                lemma_plain_signature_params(*metadata, params@, views(model_types@));
            }
        }
        return Err(VerificationError::UnsupportedType { function: text(&function), ty: text(&ty) });
    }
    proof {
        if semantics is None {
            let src = strip_ws(metadata.function_source@);
            assert(source@ == src);
            assert forall|k: int| 0 <= k < params_spec(src).len() implies !refused_type(trim_spec(
                #[trigger] params_spec(src)[k].1), views(model_types@)) by {
                assert(param_pairs(params@)[k] == (params@[k].name@, params@[k].ty@));
            }
            assert(signature_types_allowed(*metadata, views(model_types@)));
        }
    }
    if let Some(ty) = opaque_contract_type(&params, &return_type, metadata, model_types) {
        proof {
            if semantics is None && plain_signature(*metadata, views(model_types@)) {
                assert(source@ == strip_ws(metadata.function_source@));
                lemma_plain_signature_params(*metadata, params@, views(model_types@));
            }
        }
        return Err(VerificationError::UnsupportedType { function: text(&function), ty: text(&ty) });
    }
    let value_params = verification_value_params(&params, semantics);
    let raw_body = cfg_selected_body(&body(&full_source), options);
    let body_text = normalize(&raw_body);
    proof {
        if cfg_free(*metadata) {
            assert(raw_body@ == read_body(*metadata));
        }
    }
    let loop_facts = match verify_loops(&raw_body, &function, semantics, &given_contracts, &value_params, options) {
        Ok(f) => f,
        Err(e) => return Err(e),
    };
    if postconditions(metadata).len() > 0 {
        if let Some(expression) = semantic_loop_exit_extraction_gap(&loop_facts, semantics) {
            return Err(extraction_gap(&function, "loop exit", &expression));
        }
    }
    let loop_facts_text = loop_postcondition_facts(&loop_facts, semantics.is_some());
    let postcondition_assumptions = contracts_with_assumptions(&given_contracts, &loop_facts_text);
    let call_env = verification_call_env(env, semantics);
    if contains_unchecked_unwrap(&raw_body) || contains_semantic_unchecked_unwrap(semantics) {
        return Err(VerificationError::UncheckedUnwrap { function: text(&function) });
    }
    if contains_explicit_panic(&raw_body) || contains_semantic_explicit_panic(semantics) {
        return Err(VerificationError::ExplicitPanic { function: text(&function) });
    }
    if contains_closure(&raw_body) || contains_semantic_closure(semantics) {
        return Err(VerificationError::UnsupportedClosure { function: text(&function) });
    }
    let token_unsupported_call = unsupported_call(&raw_body, &params, &call_env, &function, semantics);
    if let Some(callee) = unsupported_semantic_call(semantics, env, &function) {
        let callee = match token_unsupported_call {
            Some(c) => c,
            None => callee,
        };
        return Err(VerificationError::UnsupportedCall { function: text(&function), callee: text(&callee) });
    }
    if let Some(callee) = token_unsupported_call {
        if semantics.is_some() {
            return Err(extraction_gap(&function, "unsupported call", &callee));
        }
        return Err(VerificationError::UnsupportedCall { function: text(&function), callee: text(&callee) });
    }
    proof {
        if semantics is None {
            let t = tokens_spec(raw_body@);
            assert forall|i: int| #[trigger] crate::calls::free_call_at(t, i) implies !crate::calls::names_call(function@,
                t[i]) && crate::calls::env_has_matching_name(env@, t[i]) by {
                let k = choose|k: int| 0 <= k < call_env@.len() && crate::calls::names_call(
                    (#[trigger] call_env@[k]).name@, t[i]);
                assert(call_env@[k].name@ == env@[k].name@);
            }
        }
    }
    if let Some(expression) = semantic_arithmetic_extraction_gap(&raw_body, &value_params, semantics, options) {
        return Err(extraction_gap(&function, "arithmetic operation", &expression));
    }
    if let Some(expression) = semantic_slice_index_extraction_gap(&raw_body, &params, semantics) {
        return Err(extraction_gap(&function, "slice index", &expression));
    }
    if let Some(expression) = semantic_call_extraction_gap(&raw_body, &call_env, semantics) {
        return Err(extraction_gap(&function, "Trust call", &expression));
    }
    if let Some(expression) = semantic_field_access_extraction_gap(&raw_body, &params, semantics) {
        return Err(extraction_gap(&function, "field access", &expression));
    }
    let owner_types = verification_field_access_types(&raw_body, &params, semantics);
    let mut i: usize = 0;
    while i < owner_types.len()
        invariant
            i <= owner_types@.len(),
            forall|k: int| 0 <= k < i ==> views(model_types@).contains(crate::tokens::type_name_tail_spec(
                (#[trigger] owner_types@[k])@)),
        decreases owner_types.len() - i,
    {
        if !texts_contain(model_types, &type_name_tail(&owner_types[i])) {
            proof {
                if semantics is None {
                    assert(crate::index::is_param_type(owner_types@[i as int]@, params@));
                    let p = choose|p: int| 0 <= p < params@.len() && (#[trigger] params@[p]).ty@ == owner_types@[i as int]@;
                    assert(param_pairs(params@)[p] == (params@[p].name@, params@[p].ty@));
                    assert(source@ == strip_ws(metadata.function_source@));
                }
            }
            return Err(VerificationError::MissingTrustModel { function: text(&function), ty: text(&owner_types[i]) });
        }
        i += 1;
    }
    proof {
        if semantics is None {
            let t = tokens_spec(raw_body@);
            let ps = params_spec(strip_ws(metadata.function_source@));
            assert(param_pairs(params@) == ps);
            assert forall|idx: int| #[trigger] crate::index::field_read_at(t, idx) implies (first_pair_named(ps, t[idx], 0)
                matches Some(k) ==> views(model_types@).contains(crate::tokens::type_name_tail_spec(ps[k].1))) by {
                lemma_first_pair_named(params@, t[idx], 0);
                if let Some(k) = first_pair_named(ps, t[idx], 0) {
                    assert(views(owner_types@).contains(params@[k].ty@));
                    let w = choose|w: int| 0 <= w < views(owner_types@).len() && views(owner_types@)[w] == params@[k].ty@;
                    assert(views(owner_types@)[w] == owner_types@[w]@);
                    assert(ps[k] == (params@[k].name@, params@[k].ty@));
                }
            }
        }
    }
    assert(semantics is None ==> param_pairs(value_params@) =~= param_pairs(params@));
    match check_arithmetic(&raw_body, &function, &params, &value_params, semantics, &contracts, options) {
        Ok(()) => {},
        Err(e) => {
            proof {
                if semantics is None && !(options.solver is Z3) && cfg_free(*metadata) && crate::segments::straight_line(
                    read_body(*metadata)) {
                    assert(param_pairs(value_params@) =~= param_pairs(params@));
                    assert(param_pairs(value_params@) == params_spec(strip_ws(metadata.function_source@)));
                    assert(arithmetic_error_unproved(e, value_params@, executable_contracts(*metadata), options.target_pointer_width));
                }
                if semantics is None && !(options.solver is Z3) && only_sums_and_products_to_prove(*metadata, views(model_types@))
                    && (forall|vp: Seq<Param>| param_pairs(vp) == params_spec(strip_ws(metadata.function_source@))
                    ==> #[trigger] sums_and_products_proved(crate::segments::executable_view(read_body(*metadata)), vp,
                    executable_contracts(*metadata), options.target_pointer_width)) {
                    let ev = crate::segments::executable_view(read_body(*metadata));
                    let cs = executable_contracts(*metadata);
                    let w = options.target_pointer_width;
                    assert(raw_body@ == read_body(*metadata));
                    assert(param_pairs(value_params@) =~= param_pairs(params@));
                    assert(param_pairs(value_params@) == params_spec(strip_ws(metadata.function_source@)));
                    assert(sums_and_products_proved(ev, value_params@, cs, w));
                    assert(arithmetic_operator_shown(e, ev));
                    assert(e is IntegerAdditionOverflow || e is IntegerMultiplicationOverflow);
                    assert(arithmetic_error_unproved(e, value_params@, cs, w));
                    if e is IntegerAdditionOverflow {
                        let x = e->IntegerAdditionOverflow_expression@;
                        assert(crate::arith::plus_site_text(ev, x));
                        let j = choose|j: int| #[trigger] crate::arith::plus_site_at(ev, x, j);
                        assert(plus_between(ev, j));
                        crate::arith::lemma_plus_site_simple(ev, value_params@, x, j);
                        let o = choose|o: AddObligation| #[trigger] crate::arith::add_shape(o, value_params@) && o.expression@
                            == x && !crate::discharge::addition_builtin_spec(o.variable@, crate::discharge::opt_view(o.ty),
                            o.constant, cs, value_params@, w);
                        crate::arith::lemma_add_shape_site(o, value_params@, ev[j], ev[j + 2]);
                        assert(crate::arith::param_op_literal_at(ev, value_params@, "+"@, j));
                    } else {
                        let x = e->IntegerMultiplicationOverflow_expression@;
                        assert(crate::arith::star_site_text(ev, x));
                        let j = choose|j: int| #[trigger] crate::arith::star_site_at(ev, x, j);
                        assert(star_between(ev, j));
                        crate::arith::lemma_star_site_simple(ev, value_params@, x, j);
                        let o = choose|o: MulObligation| #[trigger] crate::arith::mul_shape(o, value_params@) && o.expression@
                            == x && !crate::discharge::multiplication_builtin_spec(o.variable@, crate::discharge::opt_view(o.ty),
                            o.constant, cs, w);
                        crate::arith::lemma_mul_shape_site(o, value_params@, ev[j], ev[j + 2]);
                        assert(crate::arith::param_op_literal_at(ev, value_params@, "*"@, j));
                    }
                    assert(false);
                }
            }
            return Err(e);
        },
    }
    proof {
        if semantics is Some && !(options.solver is Z3) {
            assert(reported_arithmetic_proved(*semantics->0, value_params@, executable_contracts(*metadata),
                options.target_pointer_width));
        }
        if semantics is None && !(options.solver is Z3) && cfg_free(*metadata) && crate::segments::straight_line(
            read_body(*metadata)) {
            assert(raw_body@ == read_body(*metadata));
            assert(param_pairs(value_params@) =~= param_pairs(params@));
            assert(param_pairs(value_params@) == params_spec(strip_ws(metadata.function_source@)));
            assert(token_divisions_proved(crate::segments::executable_view(read_body(*metadata)), value_params@,
                executable_contracts(*metadata), options.target_pointer_width));
            assert(token_additions_proved(crate::segments::executable_view(read_body(*metadata)), value_params@,
                executable_contracts(*metadata), options.target_pointer_width));
            assert(token_negations_proved(crate::segments::executable_view(read_body(*metadata)), value_params@,
                executable_contracts(*metadata)));
            assert(token_multiplications_proved(crate::segments::executable_view(read_body(*metadata)), value_params@,
                executable_contracts(*metadata), options.target_pointer_width));
            assert(token_subtractions_proved(crate::segments::executable_view(read_body(*metadata)), value_params@,
                executable_contracts(*metadata)));
        }
    }
    proof {
        if semantics is None && cfg_free(*metadata) && crate::segments::straight_line(read_body(*metadata)) {
            assert(raw_body@ == read_body(*metadata));
            assert(param_pairs(value_params@) =~= param_pairs(params@));
            assert(param_pairs(value_params@) == params_spec(strip_ws(metadata.function_source@)));
            assert(denominators_sound(crate::segments::executable_view(read_body(*metadata)), value_params@, executable_contracts(
                *metadata), options.solver is Z3, options.target_pointer_width));
            assert(multiplications_sound(crate::segments::executable_view(read_body(*metadata)), value_params@,
                executable_contracts(*metadata), options.solver is Z3, options.target_pointer_width));
        }
    }
    let checked = check_indexes_calls_and_postconditions(
        metadata,
        &raw_body,
        &body_text,
        &function,
        &params,
        &value_params,
        semantics,
        &contracts,
        &given_contracts,
        &postcondition_assumptions,
        &call_env,
        options,
    );
    proof {
        if semantics is None && checked is Err {
            let e = checked->Err_0;
            if e is SliceIndexOutOfBounds {
                assert(param_pairs(params@) == params_spec(strip_ws(metadata.function_source@)));
                assert(index_unproved(e->SliceIndexOutOfBounds_expression@, params@, executable_contracts(*metadata)));
                let b = choose|b: Seq<char>| #[trigger] crate::index::slice_param(b, params@);
                let k = choose|k: int| 0 <= k < params@.len() && (#[trigger] params@[k]).name@ == b
                    && crate::text::starts_with_spec(params@[k].ty@, "&["@) && crate::text::ends_with_spec(params@[k].ty@, "]"@);
                assert(param_pairs(params@)[k] == (params@[k].name@, params@[k].ty@));
                assert(source@ == strip_ws(metadata.function_source@));
            }
            if e is CalleePreconditionUnproved {
                let c = e->CalleePreconditionUnproved_callee@;
                let k = choose|k: int| 0 <= k < call_env@.len() && (#[trigger] call_env@[k]).name@ == c;
                assert(env@[k].name@ == c);
            }
        }
    }
    checked
}

/// Whether every record is neither a total function nor a proof: such
/// records are never checked.
pub open spec fn nothing_to_check(metadata: Seq<TrustMetadata>) -> bool {
    forall|k: int| 0 <= k < metadata.len() ==> (#[trigger] metadata[k]).item_kind@ != "total"@
        && metadata[k].item_kind@ != "proof"@
}

/// Checks every total function and proof of a crate, with the compiler's
/// facts for those functions that have them; the first failure, in record
/// order (a record's total check before its proof check), is the result.
/// The error names the item and is of its kind: a proof error for a
/// proof item, any other error for a total item.
pub open spec fn item_error(m: TrustMetadata, e: VerificationError) -> bool {
    &&& e.subject_spec() == m.rust_function_path@
    &&& m.item_kind@ == "total"@ ==> !(e is ProofObligationUnproved) && !(e is UnsupportedProofStep)
    &&& m.item_kind@ == "proof"@ ==> (e is ProofObligationUnproved || e is UnsupportedProofStep)
    &&& (m.item_kind@ == "total"@ || m.item_kind@ == "proof"@)
}

/// An item that passes whatever the rest of the crate: neither a total
/// function nor a proof, or a proof taking only `assert` steps that
/// asserts each of its `gives` contracts.
pub open spec fn item_clear(m: TrustMetadata) -> bool {
    &&& m.item_kind@ != "total"@
    &&& m.item_kind@ == "proof"@ ==> (forall|j: int| !#[trigger] crate::calls::unsupported_step_at(tokens_spec(body_spec(
        m.function_source@)), j)) && gives_visibly_asserted(m)
}

/// An item that passes whatever the rest of the crate: one that is clear,
/// or a total function without compiler facts in which the checks find
/// nothing to refuse or prove against the crate's model types.
pub open spec fn item_passes(m: TrustMetadata, model_types: Seq<Seq<char>>, semantics: Seq<TrustFunctionSemantics>) -> bool {
    ||| item_clear(m)
    ||| m.item_kind@ == "total"@ && (forall|j: int| 0 <= j < semantics.len() ==> (#[trigger] semantics[j]).rust_function_path@
        != m.rust_function_path@) && nothing_to_refuse(m, model_types)
}

/// The record's divisions and multiplications of parameters are shown
/// safe: each denominator nonzero and each `p * c` within its type, by the
/// built-in rules or, when `z3`, for every assignment within the
/// parameters' ranges that satisfies the executable preconditions.
pub open spec fn record_arithmetic_sound(m: TrustMetadata, z3: bool, w: Option<u32>) -> bool {
    exists|vp: Seq<Param>| param_pairs(vp) == params_spec(strip_ws(m.function_source@)) && #[trigger] denominators_sound(
        crate::segments::executable_view(read_body(m)), vp, executable_contracts(m), z3, w) && multiplications_sound(
        crate::segments::executable_view(read_body(m)), vp, executable_contracts(m), z3, w)
}

/// A total record without compiler facts whose body is straight-line.
pub open spec fn plain_total(m: TrustMetadata, semantics: Seq<TrustFunctionSemantics>) -> bool {
    &&& m.item_kind@ == "total"@
    &&& cfg_free(m)
    &&& crate::segments::straight_line(read_body(m))
    &&& forall|j: int| 0 <= j < semantics.len() ==> (#[trigger] semantics[j]).rust_function_path@ != m.rust_function_path@
}

/// With the built-in rules, an item also passes when it is a total
/// function without compiler facts whose only checks are those of its
/// additions and multiplications, each of a parameter and a literal and
/// each proved.
pub open spec fn item_passes_builtin(m: TrustMetadata, model_types: Seq<Seq<char>>, semantics: Seq<TrustFunctionSemantics>,
    w: Option<u32>) -> bool {
    ||| item_passes(m, model_types, semantics)
    ||| m.item_kind@ == "total"@ && (forall|j: int| 0 <= j < semantics.len() ==> (#[trigger] semantics[j]).rust_function_path@
        != m.rust_function_path@) && only_sums_and_products_to_prove(m, model_types) && (forall|vp: Seq<Param>| param_pairs(vp)
        == params_spec(strip_ws(m.function_source@)) ==> #[trigger] sums_and_products_proved(
        crate::segments::executable_view(read_body(m)), vp, executable_contracts(m), w))
}

pub fn verify_totals_with_semantics(
    metadata: &[TrustMetadata],
    semantics: &[TrustFunctionSemantics],
    options: VerificationOptions,
) -> (r: Result<(), VerificationError>)
    ensures
        r matches Err(e) ==> exists|k: int| 0 <= k < metadata@.len() && #[trigger] item_error(metadata@[k], e),
        (forall|k: int| 0 <= k < metadata@.len() ==> #[trigger] item_passes(metadata@[k], model_paths(metadata@), semantics@))
            ==> r is Ok,
        !(options.solver is Z3) && (forall|k: int| 0 <= k < metadata@.len() ==> #[trigger] item_passes_builtin(metadata@[k],
            model_paths(metadata@), semantics@, options.target_pointer_width)) ==> r is Ok,
        r is Ok ==> forall|k: int| 0 <= k < metadata@.len() && #[trigger] plain_total(metadata@[k], semantics@)
            ==> record_arithmetic_sound(metadata@[k], options.solver is Z3, options.target_pointer_width),
        nothing_to_check(metadata@) ==> r is Ok,
        r matches Err(e) ==> exists|k: int| 0 <= k < metadata@.len() && (#[trigger] metadata@[k]).rust_function_path@
            == e.subject_spec(),
        r is Ok ==> forall|k: int| 0 <= k < metadata@.len() && (#[trigger] metadata@[k]).item_kind@ == "total"@ && cfg_free(
            metadata@[k]) ==> accepted_body(tokens_spec(read_body(metadata@[k]))),
        r is Ok ==> forall|k: int| 0 <= k < metadata@.len() && (#[trigger] metadata@[k]).item_kind@ == "proof"@
            ==> proof_accepted(metadata@[k]),
        r is Ok ==> forall|k: int| 0 <= k < metadata@.len() && (#[trigger] metadata@[k]).item_kind@ == "total"@ && (forall|j: int|
            0 <= j < semantics@.len() ==> semantics@[j].rust_function_path@ != metadata@[k].rust_function_path@)
            ==> signature_types_allowed(metadata@[k], model_paths(metadata@)),
        r is Ok ==> forall|k: int| 0 <= k < metadata@.len() && (#[trigger] metadata@[k]).item_kind@ == "total"@ && cfg_free(
            metadata@[k]) && (forall|j: int| 0 <= j < semantics@.len() ==> semantics@[j].rust_function_path@
            != metadata@[k].rust_function_path@) ==> calls_into_crate(tokens_spec(read_body(metadata@[k])),
            metadata@[k].rust_function_path@, metadata@),
        r is Ok ==> forall|k: int| 0 <= k < metadata@.len() && (#[trigger] metadata@[k]).item_kind@ == "total"@ && cfg_free(
            metadata@[k]) && (forall|j: int| 0 <= j < semantics@.len() ==> semantics@[j].rust_function_path@
            != metadata@[k].rust_function_path@) ==> fields_of_models(tokens_spec(read_body(metadata@[k])), params_spec(
            strip_ws(metadata@[k].function_source@)), model_paths(metadata@)),
{
    let env = function_env(metadata, semantics);
    let model_types = model_env(metadata);
    let mut i: usize = 0;
    while i < metadata.len()
        invariant
            nothing_to_check(metadata@) ==> forall|k: int| 0 <= k < metadata@.len() ==> (#[trigger] metadata@[k]).item_kind@ != "total"@ && metadata@[k].item_kind@ != "proof"@,
            i <= metadata@.len(),
            forall|k: int| 0 <= k < i && (#[trigger] metadata@[k]).item_kind@ == "total"@ && cfg_free(metadata@[k])
                ==> accepted_body(tokens_spec(read_body(metadata@[k]))),
            forall|k: int| 0 <= k < i && (#[trigger] metadata@[k]).item_kind@ == "proof"@ ==> proof_accepted(metadata@[k]),
            views(model_types@) == model_paths(metadata@),
            forall|k: int| 0 <= k < i && (#[trigger] metadata@[k]).item_kind@ == "total"@ && (forall|j: int|
                0 <= j < semantics@.len() ==> semantics@[j].rust_function_path@ != metadata@[k].rust_function_path@)
                ==> signature_types_allowed(metadata@[k], model_paths(metadata@)),
            forall|k: int| 0 <= k < env@.len() ==> callable_named(metadata@, (#[trigger] env@[k]).name@),
            forall|k: int| 0 <= k < i && #[trigger] plain_total(metadata@[k], semantics@) ==> record_arithmetic_sound(
                metadata@[k], options.solver is Z3, options.target_pointer_width),
            forall|k: int| 0 <= k < i && (#[trigger] metadata@[k]).item_kind@ == "total"@ && cfg_free(metadata@[k]) && (
                forall|j: int| 0 <= j < semantics@.len() ==> semantics@[j].rust_function_path@
                != metadata@[k].rust_function_path@) ==> calls_into_crate(tokens_spec(read_body(metadata@[k])),
                metadata@[k].rust_function_path@, metadata@),
            forall|k: int| 0 <= k < i && (#[trigger] metadata@[k]).item_kind@ == "total"@ && cfg_free(metadata@[k]) && (
                forall|j: int| 0 <= j < semantics@.len() ==> semantics@[j].rust_function_path@
                != metadata@[k].rust_function_path@) ==> fields_of_models(tokens_spec(read_body(metadata@[k])), params_spec(
                strip_ws(metadata@[k].function_source@)), model_paths(metadata@)),
        decreases metadata.len() - i,
    {
        let item = &metadata[i];
        proof {
            reveal_strlit("total");
            reveal_strlit("proof");
            assert("total"@[0] != "proof"@[0]);
            if forall|k: int| 0 <= k < metadata@.len() ==> #[trigger] item_passes(metadata@[k], model_paths(metadata@),
                semantics@) {
                assert(item_passes(metadata@[i as int], model_paths(metadata@), semantics@));
            }
            if forall|k: int| 0 <= k < metadata@.len() ==> #[trigger] item_passes_builtin(metadata@[k], model_paths(metadata@),
                semantics@, options.target_pointer_width) {
                assert(item_passes_builtin(metadata@[i as int], model_paths(metadata@), semantics@, options.target_pointer_width));
            }
        }
        match verify_total_with_env(item, semantic_for(item, semantics), &env, &model_types, options) {
            Ok(()) => {
                proof {
                    let m = metadata@[i as int];
                    if plain_total(m, semantics@) {
                        assert(record_arithmetic_sound(m, options.solver is Z3, options.target_pointer_width));
                    }
                    if m.item_kind@ == "total"@ && cfg_free(m) && (forall|j: int| 0 <= j < semantics@.len()
                        ==> semantics@[j].rust_function_path@ != m.rust_function_path@) {
                        let t = tokens_spec(read_body(m));
                        assert(calls_known(t, m.rust_function_path@, env@));
                        assert forall|p: int| #[trigger] crate::calls::free_call_at(t, p) implies exists|j: int| 0 <= j
                            < metadata@.len() && callable_record(#[trigger] metadata@[j]) && crate::calls::names_call(
                            metadata@[j].rust_function_path@, t[p]) by {
                            let e = choose|e: int| 0 <= e < env@.len() && crate::calls::names_call(
                                (#[trigger] env@[e]).name@, t[p]);
                            assert(callable_named(metadata@, env@[e].name@));
                            let j = choose|j: int| 0 <= j < metadata@.len() && callable_record(#[trigger] metadata@[j])
                                && metadata@[j].rust_function_path@ == env@[e].name@;
                        }
                    }
                }
            },
            Err(e) => {
                assert(metadata@[i as int].rust_function_path@ == e.subject_spec());
                assert(item_error(metadata@[i as int], e));
                return Err(e);
            },
        }
        match verify_proof(item) {
            Ok(()) => {},
            Err(e) => {
                assert(metadata@[i as int].rust_function_path@ == e.subject_spec());
                assert(item_error(metadata@[i as int], e));
                return Err(e);
            },
        }
        i += 1;
    }
    Ok(())
}

/// `verify_totals_with_semantics` without compiler facts.
pub fn verify_totals_with_options(metadata: &[TrustMetadata], options: VerificationOptions) -> (r: Result<(), VerificationError>)
    ensures
        r matches Err(e) ==> exists|k: int| 0 <= k < metadata@.len() && #[trigger] item_error(metadata@[k], e),
        (forall|k: int| 0 <= k < metadata@.len() ==> #[trigger] item_passes(metadata@[k], model_paths(metadata@), seq![]))
            ==> r is Ok,
        !(options.solver is Z3) && (forall|k: int| 0 <= k < metadata@.len() ==> #[trigger] item_passes_builtin(metadata@[k],
            model_paths(metadata@), seq![], options.target_pointer_width)) ==> r is Ok,
        r is Ok ==> forall|k: int| 0 <= k < metadata@.len() && #[trigger] plain_total(metadata@[k], seq![])
            ==> record_arithmetic_sound(metadata@[k], options.solver is Z3, options.target_pointer_width),
        nothing_to_check(metadata@) ==> r is Ok,
        r matches Err(e) ==> exists|k: int| 0 <= k < metadata@.len() && (#[trigger] metadata@[k]).rust_function_path@
            == e.subject_spec(),
        r is Ok ==> forall|k: int| 0 <= k < metadata@.len() && (#[trigger] metadata@[k]).item_kind@ == "total"@ && cfg_free(
            metadata@[k]) ==> accepted_body(tokens_spec(read_body(metadata@[k]))),
        r is Ok ==> forall|k: int| 0 <= k < metadata@.len() && (#[trigger] metadata@[k]).item_kind@ == "proof"@
            ==> proof_accepted(metadata@[k]),
        r is Ok ==> forall|k: int| 0 <= k < metadata@.len() && (#[trigger] metadata@[k]).item_kind@ == "total"@
            ==> signature_types_allowed(metadata@[k], model_paths(metadata@)),
        r is Ok ==> forall|k: int| 0 <= k < metadata@.len() && (#[trigger] metadata@[k]).item_kind@ == "total"@ && cfg_free(
            metadata@[k]) ==> calls_into_crate(tokens_spec(read_body(metadata@[k])), metadata@[k].rust_function_path@,
            metadata@),
        r is Ok ==> forall|k: int| 0 <= k < metadata@.len() && (#[trigger] metadata@[k]).item_kind@ == "total"@ && cfg_free(
            metadata@[k]) ==> fields_of_models(tokens_spec(read_body(metadata@[k])), params_spec(strip_ws(
            metadata@[k].function_source@)), model_paths(metadata@)),
{
    let none: Vec<TrustFunctionSemantics> = Vec::new();
    verify_totals_with_semantics(metadata, none.as_slice(), options)
}

/// `verify_totals_with_options` with the default options.
pub fn verify_totals(metadata: &[TrustMetadata]) -> (r: Result<(), VerificationError>)
    ensures
        r matches Err(e) ==> exists|k: int| 0 <= k < metadata@.len() && #[trigger] item_error(metadata@[k], e),
        (forall|k: int| 0 <= k < metadata@.len() ==> #[trigger] item_passes(metadata@[k], model_paths(metadata@), seq![]))
            ==> r is Ok,
        (forall|k: int| 0 <= k < metadata@.len() ==> #[trigger] item_passes_builtin(metadata@[k], model_paths(metadata@), seq![],
            None)) ==> r is Ok,
        r is Ok ==> forall|k: int| 0 <= k < metadata@.len() && #[trigger] plain_total(metadata@[k], seq![])
            ==> record_arithmetic_sound(metadata@[k], false, None),
        nothing_to_check(metadata@) ==> r is Ok,
        r matches Err(e) ==> exists|k: int| 0 <= k < metadata@.len() && (#[trigger] metadata@[k]).rust_function_path@
            == e.subject_spec(),
        r is Ok ==> forall|k: int| 0 <= k < metadata@.len() && (#[trigger] metadata@[k]).item_kind@ == "total"@ && cfg_free(
            metadata@[k]) ==> accepted_body(tokens_spec(read_body(metadata@[k]))),
        r is Ok ==> forall|k: int| 0 <= k < metadata@.len() && (#[trigger] metadata@[k]).item_kind@ == "proof"@
            ==> proof_accepted(metadata@[k]),
        r is Ok ==> forall|k: int| 0 <= k < metadata@.len() && (#[trigger] metadata@[k]).item_kind@ == "total"@
            ==> signature_types_allowed(metadata@[k], model_paths(metadata@)),
        r is Ok ==> forall|k: int| 0 <= k < metadata@.len() && (#[trigger] metadata@[k]).item_kind@ == "total"@ && cfg_free(
            metadata@[k]) ==> calls_into_crate(tokens_spec(read_body(metadata@[k])), metadata@[k].rust_function_path@,
            metadata@),
        r is Ok ==> forall|k: int| 0 <= k < metadata@.len() && (#[trigger] metadata@[k]).item_kind@ == "total"@ && cfg_free(
            metadata@[k]) ==> fields_of_models(tokens_spec(read_body(metadata@[k])), params_spec(strip_ws(
            metadata@[k].function_source@)), model_paths(metadata@)),
{
    verify_totals_with_options(metadata, default_options())
}

/// One total function, alone: no other function may be called and no
/// model type is known.
pub fn verify_total(metadata: &TrustMetadata) -> (r: Result<(), VerificationError>)
    ensures
        metadata.item_kind@ != "total"@ ==> r is Ok,
        r matches Err(e) ==> e.subject_spec() == metadata.rust_function_path@,
        r matches Err(e) ==> !(e is ProofObligationUnproved) && !(e is UnsupportedProofStep),
        metadata.item_kind@ == "total"@ && cfg_free(*metadata) && r is Ok ==> accepted_body(tokens_spec(read_body(*metadata))),
        metadata.item_kind@ == "total"@ && r is Ok ==> signature_types_allowed(*metadata, seq![]),
        metadata.item_kind@ == "total"@ && cfg_free(*metadata) && r is Ok ==> forall|i: int|
            !#[trigger] crate::calls::free_call_at(tokens_spec(read_body(*metadata)), i),
        metadata.item_kind@ == "total"@ && cfg_free(*metadata) && r is Ok ==> fields_of_models(tokens_spec(
            read_body(*metadata)), params_spec(strip_ws(metadata.function_source@)), seq![]),
        metadata.item_kind@ == "total"@ && cfg_free(*metadata) && crate::segments::straight_line(read_body(*metadata)) && r is Ok
            ==> exists|vp: Seq<Param>| param_pairs(vp) == params_spec(strip_ws(metadata.function_source@))
            && #[trigger] token_divisions_proved(crate::segments::executable_view(read_body(*metadata)), vp,
            executable_contracts(*metadata), None),
        metadata.item_kind@ == "total"@ && nothing_to_refuse(*metadata, seq![]) ==> r is Ok,
        metadata.item_kind@ == "total"@ && only_sums_and_products_to_prove(*metadata, seq![]) && (forall|vp: Seq<Param>| param_pairs(vp)
            == params_spec(strip_ws(metadata.function_source@)) ==> #[trigger] sums_and_products_proved(
            crate::segments::executable_view(read_body(*metadata)), vp, executable_contracts(*metadata), None)) ==> r is Ok,
        metadata.item_kind@ == "total"@ && cfg_free(*metadata) && crate::segments::straight_line(read_body(*metadata)) && r is Ok
            ==> exists|vp: Seq<Param>| param_pairs(vp) == params_spec(strip_ws(metadata.function_source@))
            && #[trigger] token_additions_proved(crate::segments::executable_view(read_body(*metadata)), vp,
            executable_contracts(*metadata), None) && token_negations_proved(crate::segments::executable_view(read_body(
            *metadata)), vp, executable_contracts(*metadata)) && token_multiplications_proved(crate::segments::executable_view(
            read_body(*metadata)), vp, executable_contracts(*metadata), None) && token_subtractions_proved(
            crate::segments::executable_view(read_body(*metadata)), vp, executable_contracts(*metadata)),
        metadata.item_kind@ == "total"@ && cfg_free(*metadata) && crate::segments::straight_line(read_body(*metadata)) ==> (
            r matches Err(e) ==> (arithmetic_error(e) ==> exists|vp: Seq<Param>| param_pairs(vp) == params_spec(strip_ws(
            metadata.function_source@)) && #[trigger] arithmetic_error_unproved(e, vp, executable_contracts(*metadata), None))),
        metadata.item_kind@ == "total"@ ==> (r matches Err(e) ==> (e is UnsupportedType ==> !plain_signature(*metadata,
            seq![]))),
        metadata.item_kind@ == "total"@ && cfg_free(*metadata) && crate::segments::straight_line(read_body(*metadata)) ==> (
            r matches Err(e) ==> arithmetic_operator_shown(e, crate::segments::executable_view(read_body(*metadata)))),
{
    let env: Vec<TrustFunctionSummary> = Vec::new();
    let model_types: Vec<Vec<char>> = Vec::new();
    assert(views(model_types@) =~= seq![]);
    let r = verify_total_with_env(metadata, None, &env, &model_types, default_options());
    proof {
        if metadata.item_kind@ == "total"@ && cfg_free(*metadata) && r is Ok {
            let t = tokens_spec(read_body(*metadata));
            assert forall|i: int| !#[trigger] crate::calls::free_call_at(t, i) by {
                if crate::calls::free_call_at(t, i) {
                    assert(crate::calls::env_has_matching_name(env@, t[i]));
                }
            }
        }
    }
    r
}

} // verus!
