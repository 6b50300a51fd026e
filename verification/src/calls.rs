//! Calls in a body: the forms the verifier refuses (unwrap, panics,
//! closures, calls to unknown functions), and the preconditions of Trust
//! callees instantiated with the arguments of each call.

use crate::arith::is_supported_integer;
use crate::segments::executable_call_token_segments;
use crate::semantics::{SemanticCall, SemanticTrustCallee, TrustFunctionSemantics};
use crate::solver::Param;
use crate::text::{
    append, append_lit, chars_of, chars_of_string, clone_texts, ends_with_lit, is_lit, same,
    slice_of, starts_with_lit, strip_prefix_lit, strip_suffix_lit, texts_contain, views,
    contains_lit, ends_with, contains_char,
};
use crate::text::{ends_with_spec, find_spec, starts_with_spec};
use crate::tokens::{
    ident_spec, tokens_spec, type_name_tail_spec,
    function_leaf_name, is_ident, matching_token_group, normalize, simple_grouped_value_expression,
    split_arguments, tok_char, tok_is, token_expression, token_range, tokens,
};
use crate::index::is_read_only_slice_param;
use vstd::prelude::*;

verus! {

/// A function the body may call, with the preconditions a call must meet.
pub struct TrustFunctionSummary {
    pub name: Vec<char>,
    pub params: Vec<Param>,
    pub preconditions: Vec<Vec<char>>,
}

pub struct CallObligation {
    pub callee: Vec<char>,
    pub condition: Vec<char>,
    pub assumptions: Vec<Vec<char>>,
}

fn copy(v: &[char]) -> (r: Vec<char>)
    ensures
        r@ == v@,
{
    let r = slice_of(v, 0, v.len());
    assert(v@.subrange(0, v@.len() as int) =~= v@);
    r
}

pub fn copy_params(p: &Vec<Param>) -> (r: Vec<Param>)
    ensures
        r@.len() == p@.len(),
        forall|k: int| 0 <= k < r@.len() ==> r@[k].name@ == p@[k].name@ && r@[k].ty@ == p@[k].ty@,
{
    let mut r: Vec<Param> = Vec::new();
    let mut i: usize = 0;
    while i < p.len()
        invariant
            i <= p.len(),
            r@.len() == i,
            forall|k: int| 0 <= k < i ==> r@[k].name@ == p@[k].name@ && r@[k].ty@ == p@[k].ty@,
        decreases p.len() - i,
    {
        r.push(Param { name: copy(&p[i].name), ty: copy(&p[i].ty) });
        i += 1;
    }
    r
}

pub fn copy_summary(s: &TrustFunctionSummary) -> (r: TrustFunctionSummary)
    ensures
        r.name@ == s.name@,
        r.params@.len() == s.params@.len(),
        r.preconditions@.len() == s.preconditions@.len(),
{
    let r = TrustFunctionSummary { name: copy(&s.name), params: copy_params(&s.params), preconditions: clone_texts(&s.preconditions) };
    assert(views(r.preconditions@).len() == views(s.preconditions@).len());
    r
}

/// `. unwrap (` or `. expect (` at token `i`.
pub open spec fn unwrap_at(t: Seq<Seq<char>>, i: int) -> bool {
    &&& 0 <= i && i + 3 <= t.len()
    &&& t[i] == "."@
    &&& (t[i + 1] == "unwrap"@ || t[i + 1] == "expect"@)
    &&& t[i + 2] == "("@
}

/// `.unwrap(` or `.expect(` in the tokens.
pub fn contains_unchecked_unwrap(body: &[char]) -> (r: bool)
    ensures
        r == exists|i: int| unwrap_at(tokens_spec(body@), i),
{
    let t = tokens(body);
    let ghost tv = views(t@);
    proof { reveal_strlit("."); reveal_strlit("("); }
    let mut i: usize = 0;
    while i < t.len() && t.len() - i >= 3
        invariant
            tv == views(t@),
            tv == tokens_spec(body@),
            "."@ == seq!['.'],
            "("@ == seq!['('],
            forall|j: int| 0 <= j < i ==> !unwrap_at(tv, j),
        decreases t.len() - i,
    {
        if tok_char(&t, i, '.') && (is_lit(&t[i + 1], "unwrap") || is_lit(&t[i + 1], "expect")) && tok_char(&t, i + 2, '(') {
            assert(unwrap_at(tv, i as int));
            return true;
        }
        i += 1;
    }
    assert forall|j: int| !unwrap_at(tv, j) by {
        if 0 <= j < i {
        }
    }
    false
}

/// `panic ! (`, `todo ! (` or `unimplemented ! (` at token `i`.
pub open spec fn panic_at(t: Seq<Seq<char>>, i: int) -> bool {
    &&& 0 <= i && i + 3 <= t.len()
    &&& (t[i] == "panic"@ || t[i] == "todo"@ || t[i] == "unimplemented"@)
    &&& t[i + 1] == "!"@
    &&& t[i + 2] == "("@
}

/// `panic!(`, `todo!(` or `unimplemented!(` in the tokens.
pub fn contains_explicit_panic(body: &[char]) -> (r: bool)
    ensures
        r == exists|i: int| panic_at(tokens_spec(body@), i),
{
    let t = tokens(body);
    let ghost tv = views(t@);
    proof { reveal_strlit("!"); reveal_strlit("("); }
    let mut i: usize = 0;
    while i < t.len() && t.len() - i >= 3
        invariant
            tv == views(t@),
            tv == tokens_spec(body@),
            "!"@ == seq!['!'],
            "("@ == seq!['('],
            forall|j: int| 0 <= j < i ==> !panic_at(tv, j),
        decreases t.len() - i,
    {
        proof { reveal_strlit("!"); reveal_strlit("("); }
        if (is_lit(&t[i], "panic") || is_lit(&t[i], "todo") || is_lit(&t[i], "unimplemented")) && tok_char(&t, i + 1, '!') && tok_char(&t, i + 2, '(') {
            assert(panic_at(tv, i as int));
            return true;
        }
        i += 1;
    }
    assert forall|j: int| !panic_at(tv, j) by {
        if 0 <= j < i {
        }
    }
    false
}

/// The last non-empty `::` segment of a path, else the path.
pub open spec fn leaf_spec(path: Seq<char>) -> Seq<char> {
    if type_name_tail_spec(path).len() == 0 {
        path
    } else {
        type_name_tail_spec(path)
    }
}

/// `unwrap`/`expect` on `Option::<..>` or `Result::<..>`.
pub fn semantic_call_is_unchecked_unwrap(callee: &[char]) -> (r: bool)
    ensures
        r == ((leaf_spec(callee@) == "unwrap"@ || leaf_spec(callee@) == "expect"@) && (starts_with_spec(callee@,
            "Option::<"@) || starts_with_spec(callee@, "Result::<"@))),
{
    let leaf = function_leaf_name(callee);
    (is_lit(&leaf, "unwrap") || is_lit(&leaf, "expect")) && (starts_with_lit(callee, "Option::<") || starts_with_lit(callee, "Result::<"))
}

/// The panic entry points of `core` and `std`.
pub fn semantic_call_is_explicit_panic(callee: &[char]) -> (r: bool)
    ensures
        r == (leaf_spec(callee@) == "panic_fmt"@ || leaf_spec(callee@) == "panic_display"@ || leaf_spec(callee@)
            == "panic_str"@ || leaf_spec(callee@) == "begin_panic"@ || leaf_spec(callee@) == "begin_panic_fmt"@),
{
    let leaf = function_leaf_name(callee);
    is_lit(&leaf, "panic_fmt") || is_lit(&leaf, "panic_display") || is_lit(&leaf, "panic_str") || is_lit(&leaf, "begin_panic") || is_lit(&leaf, "begin_panic_fmt")
}

/// A closure, or a call through `Fn`, `FnMut` or `FnOnce`.
pub fn semantic_call_is_closure(callee: &[char]) -> (r: bool)
    ensures
        r == (find_spec(callee@, "{closure@"@) is Some || find_spec(callee@, " as Fn"@) is Some || find_spec(
            callee@, " as FnMut"@) is Some || find_spec(callee@, " as FnOnce"@) is Some),
{
    contains_lit(callee, "{closure@") || contains_lit(callee, " as Fn") || contains_lit(callee, " as FnMut") || contains_lit(callee, " as FnOnce")
}

/// Whether some reported call's callee satisfies the test (0: unwrap,
/// 1: panic, 2: closure).
#[verifier::loop_isolation(false)]
/// What test `test` looks for in a reported callee: an unchecked unwrap
/// (0), an explicit panic (1), a closure (otherwise).
pub open spec fn call_hit(callee: Seq<char>, test: u8) -> bool {
    if test == 0 {
        (leaf_spec(callee) == "unwrap"@ || leaf_spec(callee) == "expect"@) && (starts_with_spec(callee, "Option::<"@)
            || starts_with_spec(callee, "Result::<"@))
    } else if test == 1 {
        leaf_spec(callee) == "panic_fmt"@ || leaf_spec(callee) == "panic_display"@ || leaf_spec(callee) == "panic_str"@
            || leaf_spec(callee) == "begin_panic"@ || leaf_spec(callee) == "begin_panic_fmt"@
    } else {
        find_spec(callee, "{closure@"@) is Some || find_spec(callee, " as Fn"@) is Some || find_spec(callee, " as FnMut"@)
            is Some || find_spec(callee, " as FnOnce"@) is Some
    }
}

/// Some reported call passes the test.
pub open spec fn some_call_hit(s: TrustFunctionSemantics, test: u8) -> bool {
    exists|i: int| 0 <= i < s.calls@.len() && call_hit(#[trigger] s.calls@[i].callee@, test)
}

fn any_semantic_call(semantics: Option<&TrustFunctionSemantics>, test: u8) -> (r: bool)
    ensures
        semantics is None ==> !r,
        semantics matches Some(s) ==> r == some_call_hit(*s, test),
{
    match semantics {
        Some(s) => {
            let mut i: usize = 0;
            while i < s.calls.len()
                invariant
                    semantics == Some(s),
                    i <= s.calls@.len(),
                    forall|j: int| 0 <= j < i ==> !call_hit(#[trigger] s.calls@[j].callee@, test),
                decreases s.calls.len() - i,
            {
                let c = chars_of_string(&s.calls[i].callee);
                let hit = if test == 0 {
                    semantic_call_is_unchecked_unwrap(&c)
                } else if test == 1 {
                    semantic_call_is_explicit_panic(&c)
                } else {
                    semantic_call_is_closure(&c)
                };
                if hit {
                    assert(call_hit(s.calls@[i as int].callee@, test));
                    assert(some_call_hit(*s, test));
                    return true;
                }
                i += 1;
            }
            false
        },
        None => false,
    }
}

pub fn contains_semantic_unchecked_unwrap(semantics: Option<&TrustFunctionSemantics>) -> (r: bool)
    ensures
        semantics is None ==> !r,
{
    any_semantic_call(semantics, 0)
}

pub fn contains_semantic_explicit_panic(semantics: Option<&TrustFunctionSemantics>) -> (r: bool)
    ensures
        semantics is None ==> !r,
{
    any_semantic_call(semantics, 1)
}

pub fn contains_semantic_closure(semantics: Option<&TrustFunctionSemantics>) -> (r: bool)
    ensures
        semantics is None ==> !r,
{
    any_semantic_call(semantics, 2)
}

/// A `|` at token `i` that opens a closure: at the start, after `=` or
/// `(`, or before `|`, an identifier, `mut`, `move` or `_`.
pub open spec fn closure_at(t: Seq<Seq<char>>, i: int) -> bool {
    &&& 0 <= i < t.len()
    &&& t[i] == "|"@
    &&& (i == 0 || t[i - 1] == "="@ || t[i - 1] == "("@ || (i + 1 < t.len() && (t[i + 1] == "|"@ || ident_spec(t[i + 1])
        || t[i + 1] == "mut"@ || t[i + 1] == "move"@ || t[i + 1] == "_"@)))
}

pub fn contains_closure(body: &[char]) -> (r: bool)
    ensures
        r == exists|i: int| closure_at(tokens_spec(body@), i),
{
    let t = tokens(body);
    let ghost tv = views(t@);
    proof { reveal_strlit("|"); reveal_strlit("="); reveal_strlit("("); }
    let mut i: usize = 0;
    while i < t.len()
        invariant
            tv == views(t@),
            tv == tokens_spec(body@),
            "|"@ == seq!['|'],
            "="@ == seq!['='],
            "("@ == seq!['('],
            forall|j: int| 0 <= j < i ==> !closure_at(tv, j),
        decreases t.len() - i,
    {
        proof { reveal_strlit("|"); reveal_strlit("="); reveal_strlit("("); }
        if tok_char(&t, i, '|') {
            let opens = i == 0 || tok_char(&t, i - 1, '=') || tok_char(&t, i - 1, '(')
                || (i + 1 < t.len() && (tok_char(&t, i + 1, '|') || is_ident(&t[i + 1]) || is_lit(&t[i + 1], "mut")
                    || is_lit(&t[i + 1], "move") || is_lit(&t[i + 1], "_")));
            if opens {
                assert(closure_at(tv, i as int));
                return true;
            }
        }
        i += 1;
    }
    assert forall|j: int| !closure_at(tv, j) by {
        if 0 <= j < i {
        }
    }
    false
}

/// The keywords and constructors that look like calls.
pub open spec fn allowed_builtin_spec(name: Seq<char>) -> bool {
    name == "Some"@ || name == "None"@ || name == "Ok"@ || name == "Err"@ || name == "if"@ || name == "while"@ || name
        == "match"@ || name == "return"@ || name == "invariant"@ || name == "decreases"@ || name == "assert"@
}

pub fn allowed_builtin_call(name: &[char]) -> (r: bool)
    ensures
        r == (name@ == "Some"@ || name@ == "None"@ || name@ == "Ok"@ || name@ == "Err"@ || name@ == "if"@ || name@
            == "while"@ || name@ == "match"@ || name@ == "return"@ || name@ == "invariant"@ || name@ == "decreases"@
            || name@ == "assert"@),
{
    is_lit(name, "Some") || is_lit(name, "None") || is_lit(name, "Ok") || is_lit(name, "Err") || is_lit(name, "if")
        || is_lit(name, "while") || is_lit(name, "match") || is_lit(name, "return") || is_lit(name, "invariant")
        || is_lit(name, "decreases") || is_lit(name, "assert")
}

/// A function path names a call when they are equal or one is the other's
/// last path segment.
pub open spec fn names_call(function: Seq<char>, call: Seq<char>) -> bool {
    function == call || leaf_spec(call) == function || leaf_spec(function) == call
}

/// `function` names the call: the same path, or one is the leaf of the other.
pub fn function_name_matches_call(function: &[char], call: &[char]) -> (r: bool)
    ensures
        r == names_call(function@, call@),
{
    same(function, call) || same(&function_leaf_name(call), function) || same(&function_leaf_name(function), call)
}

/// `function` names the call path exactly or by a `::` suffix.
pub fn semantic_function_name_matches_call(function: &[char], call: &[char]) -> (r: bool)
    ensures
        r == (function@ == call@ || ends_with_spec(function@, "::"@ + call@) || ends_with_spec(call@, "::"@ + function@)),
{
    if same(function, call) {
        return true;
    }
    let mut fsuffix = chars_of("::");
    append(&mut fsuffix, call);
    let mut csuffix = chars_of("::");
    append(&mut csuffix, function);
    ends_with(function, &fsuffix) || ends_with(call, &csuffix)
}

/// The compiler reports a `<slice>.len` call on this receiver.
pub open spec fn reported_len_receiver(s: TrustFunctionSemantics, receiver: Seq<char>) -> bool {
    exists|i: int, j: int| 0 <= i < s.calls@.len() && (#[trigger] s.calls@[i]).callee@ == "<slice>.len"@ && 0 <= j
        < s.calls@[i].args@.len() && (#[trigger] s.calls@[i].args@[j])@ == receiver
}

/// A reported call `<slice>.len` on this receiver, or the receiver is a
/// slice parameter.
pub fn supported_len_method(receiver: &[char], params: &[Param], semantics: Option<&TrustFunctionSemantics>) -> (r: bool)
    ensures
        r == ((exists|k: int| 0 <= k < params@.len() && params@[k].name@ == receiver@ && starts_with_spec(params@[k].ty@,
            "&["@) && ends_with_spec(params@[k].ty@, "]"@)) || (semantics matches Some(s) && reported_len_receiver(*s,
            receiver@))),
{
    if is_read_only_slice_param(receiver, params) {
        return true;
    }
    if let Some(s) = semantics {
        let mut i: usize = 0;
        while i < s.calls.len()
            invariant
                i <= s.calls@.len(),
                semantics == Some(s),
                forall|i2: int, j2: int| 0 <= i2 < i && (#[trigger] s.calls@[i2]).callee@ == "<slice>.len"@ && 0 <= j2
                    < s.calls@[i2].args@.len() ==> (#[trigger] s.calls@[i2].args@[j2])@ != receiver@,
            decreases s.calls.len() - i,
        {
            let call = &s.calls[i];
            if is_lit(&chars_of_string(&call.callee), "<slice>.len") {
                let mut j: usize = 0;
                while j < call.args.len()
                    invariant
                        j <= call.args@.len(),
                        i < s.calls@.len(),
                        semantics == Some(s),
                        call == s.calls@[i as int],
                        call.callee@ == "<slice>.len"@,
                        forall|j2: int| 0 <= j2 < j ==> (#[trigger] call.args@[j2])@ != receiver@,
                    decreases call.args.len() - j,
                {
                    let arg = chars_of_string(&call.args[j]);
                    if same(&arg, receiver) {
                        assert(call.args@[j as int]@ == receiver@);
                        assert(s.calls@[i as int].args@[j as int]@ == receiver@);
                        assert(s.calls@[i as int].callee@ == "<slice>.len"@);
                        assert(reported_len_receiver(*s, receiver@));
                        return true;
                    }
                    j += 1;
                }
            }
            i += 1;
        }
    }
    false
}

/// The integer type of `core::num::<impl T>::checked_add` for a checked type.
pub fn semantic_checked_add_integer_type(callee: &[char]) -> (r: Option<Vec<char>>)
    ensures
        r matches Some(ty) ==> callee@ == "core::num::<impl "@ + ty@ + ">::checked_add"@ && crate::arith::int_type_spec(ty@),
        r is None ==> forall|ty: Seq<char>| crate::arith::int_type_spec(ty) ==> callee@ != "core::num::<impl "@ + ty + ">::checked_add"@,
{
    let ghost pre = "core::num::<impl "@;
    let ghost suf = ">::checked_add"@;
    let rest = match strip_prefix_lit(callee, "core::num::<impl ") {
        Some(r) => r,
        None => {
            assert forall|t2: Seq<char>| crate::arith::int_type_spec(t2) implies callee@ != pre + t2 + suf by {
                if callee@ == pre + t2 + suf {
                    assert(callee@.take(pre.len() as int) =~= pre);
                }
            }
            return None;
        },
    };
    let ty = match strip_suffix_lit(&rest, ">::checked_add") {
        Some(t) => t,
        None => {
            assert forall|t2: Seq<char>| crate::arith::int_type_spec(t2) implies callee@ != pre + t2 + suf by {
                if callee@ == pre + t2 + suf {
                    assert(callee@.take(pre.len() as int) =~= pre);
                    assert(rest@ =~= t2 + suf);
                    assert(rest@.skip(rest@.len() - suf.len()) =~= suf);
                }
            }
            return None;
        },
    };
    proof {
        assert(callee@ =~= "core::num::<impl "@ + ty@ + ">::checked_add"@);
        assert forall|t2: Seq<char>| crate::arith::int_type_spec(t2) && callee@ == "core::num::<impl "@ + t2 + ">::checked_add"@ implies t2 == ty@ by {
            assert(t2 =~= callee@.subrange("core::num::<impl "@.len() as int, callee@.len() - ">::checked_add"@.len()));
            assert(ty@ =~= callee@.subrange("core::num::<impl "@.len() as int, callee@.len() - ">::checked_add"@.len()));
        }
    }
    if is_supported_integer(&ty) {
        Some(ty)
    } else {
        None
    }
}

/// A two-argument `checked_add` on a checked integer type.
pub fn semantic_checked_add_call_supported(call: &SemanticCall) -> (r: bool)
    ensures
        r == (call.args@.len() == 2 && exists|ty: Seq<char>| crate::arith::int_type_spec(ty) && call.callee@ == "core::num::<impl "@ + ty + ">::checked_add"@),
{
    call.args.len() == 2 && semantic_checked_add_integer_type(&chars_of_string(&call.callee)).is_some()
}

/// A reported supported `checked_add` whose receiver is this one.
pub open spec fn checked_add_call_spec(call: SemanticCall) -> bool {
    call.args@.len() == 2 && exists|ty: Seq<char>| crate::arith::int_type_spec(ty) && call.callee@ == "core::num::<impl "@ + ty
        + ">::checked_add"@
}

pub fn supported_checked_add_method(receiver: &[char], semantics: Option<&TrustFunctionSemantics>) -> (r: bool)
    ensures
        semantics is None ==> !r,
        semantics matches Some(s) ==> r == exists|i: int| 0 <= i < s.calls@.len() && checked_add_call_spec(#[trigger] s.calls@[i])
            && s.calls@[i].args@[0]@ == receiver@,
{
    if let Some(s) = semantics {
        let mut i: usize = 0;
        while i < s.calls.len()
            invariant
                semantics == Some(s),
                i <= s.calls@.len(),
                forall|j: int| 0 <= j < i ==> !(checked_add_call_spec(#[trigger] s.calls@[j]) && s.calls@[j].args@[0]@ == receiver@),
            decreases s.calls.len() - i,
        {
            let call = &s.calls[i];
            if semantic_checked_add_call_supported(call) && call.args.len() > 0 && same(&chars_of_string(&call.args[0]), receiver) {
                return true;
            }
            i += 1;
        }
    }
    false
}

/// `<T as Index<..>>::index`.
pub open spec fn semantic_index_call_spec(callee: Seq<char>) -> bool {
    find_spec(callee, " as Index<"@) is Some && ends_with_spec(callee, ">::index"@)
}

pub fn semantic_index_call(callee: &[char]) -> (r: bool)
    ensures
        r == (find_spec(callee@, " as Index<"@) is Some && ends_with_spec(callee@, ">::index"@)),
{
    contains_lit(callee, " as Index<") && ends_with_lit(callee, ">::index")
}

/// `recv . method (` at `i`.
pub open spec fn method_call_at(t: Seq<Seq<char>>, i: int) -> bool {
    0 <= i && i + 4 <= t.len() && t[i + 1] == "."@ && t[i + 3] == "("@ && ident_spec(t[i + 2])
}

/// `name ! (`, `name ! [` or `name ! {` at `i`.
pub open spec fn macro_call_at(t: Seq<Seq<char>>, i: int) -> bool {
    0 <= i && i + 3 <= t.len() && t[i + 1] == "!"@ && (t[i + 2] == "("@ || t[i + 2] == "["@ || t[i + 2] == "{"@)
}

/// `name (` at `i`, not after a `.`, and not a built-in form.
pub open spec fn free_call_at(t: Seq<Seq<char>>, i: int) -> bool {
    0 <= i && i + 3 <= t.len() && t[i + 1] == "("@ && ident_spec(t[i]) && !(i > 0 && t[i - 1] == "."@) && !(t[i]
        == "Some"@ || t[i] == "None"@ || t[i] == "Ok"@ || t[i] == "Err"@ || t[i] == "if"@ || t[i] == "while"@ || t[i]
        == "match"@ || t[i] == "return"@ || t[i] == "invariant"@ || t[i] == "decreases"@ || t[i] == "assert"@)
}

/// The call reported at `i`: `recv.method`, `name!` for a macro other
/// than `loop_spec!`, or `name` for a free call.
pub open spec fn reported_call_at(t: Seq<Seq<char>>, i: int, v: Seq<char>) -> bool {
    ||| method_call_at(t, i) && v == t[i] + "."@ + t[i + 2]
    ||| macro_call_at(t, i) && t[i] != "loop_spec"@ && v == t[i] + "!"@
    ||| 0 <= i && i + 3 <= t.len() && t[i + 1] == "("@ && ident_spec(t[i]) && v == t[i]
}

/// `v` is the text of some call of the token list.
pub open spec fn reports_call(t: Seq<Seq<char>>, v: Seq<char>) -> bool {
    exists|i: int| reported_call_at(t, i, v)
}

/// A method call, macro or free call in the body that the verifier does
/// not accept, as `recv.method`, `name!` or `name`. When there is none,
/// every method called is `len` or `checked_add`, every macro is
/// `loop_spec!`, and every free call names another function of the
/// environment.
pub fn unsupported_call(body: &[char], params: &[Param], env: &Vec<TrustFunctionSummary>, function: &[char], semantics: Option<&TrustFunctionSemantics>) -> (r: Option<Vec<char>>)
    ensures
        r is None ==> forall|i: int| #[trigger] method_call_at(tokens_spec(body@), i) ==> tokens_spec(body@)[i + 2]
            == "len"@ || tokens_spec(body@)[i + 2] == "checked_add"@,
        r is None ==> forall|i: int| #[trigger] macro_call_at(tokens_spec(body@), i) ==> tokens_spec(body@)[i]
            == "loop_spec"@,
        r is None ==> forall|i: int| #[trigger] free_call_at(tokens_spec(body@), i) ==> !names_call(function@,
            tokens_spec(body@)[i]) && env_has_matching_name(env@, tokens_spec(body@)[i]),
        r matches Some(v) ==> reports_call(tokens_spec(body@), v@),
{
    proof {
        reveal_strlit(".");
        reveal_strlit("(");
        reveal_strlit("!");
        reveal_strlit("[");
        reveal_strlit("{");
    }
    let t = tokens(body);
    let ghost tv = views(t@);
    let mut i: usize = 0;
    while i < t.len() && t.len() - i >= 4
        invariant
            tv == views(t@),
            tv == tokens_spec(body@),
            "."@ == seq!['.'],
            "("@ == seq!['('],
            forall|j: int| 0 <= j < i && #[trigger] method_call_at(tv, j) ==> tv[j + 2] == "len"@ || tv[j + 2]
                == "checked_add"@,
        decreases t.len() - i,
    {
        let base = &t[i];
        let method = &t[i + 2];
        if tok_char(&t, i + 1, '.') && tok_char(&t, i + 3, '(') && is_ident(method) {
            let ok = (is_lit(method, "len") && supported_len_method(base, params, semantics))
                || (is_lit(method, "checked_add") && supported_checked_add_method(base, semantics));
            if !ok {
                let mut out = copy(base);
                out.push('.');
                append(&mut out, method);
                assert(out@ =~= tv[i as int] + "."@ + tv[i + 2]);
                assert(reported_call_at(tv, i as int, out@));
                assert(reports_call(tv, out@));
                return Some(out);
            }
        }
        i += 1;
    }
    assert forall|j: int| #[trigger] method_call_at(tv, j) implies tv[j + 2] == "len"@ || tv[j + 2] == "checked_add"@ by {
        assert(j < i);
    }
    let mut idx: usize = 0;
    while idx < t.len() && t.len() - idx >= 3
        invariant
            tv == views(t@),
            tv == tokens_spec(body@),
            "."@ == seq!['.'],
            "("@ == seq!['('],
            "!"@ == seq!['!'],
            "["@ == seq!['['],
            "{"@ == seq!['{'],
            forall|j: int| #[trigger] method_call_at(tv, j) ==> tv[j + 2] == "len"@ || tv[j + 2] == "checked_add"@,
            forall|j: int| 0 <= j < idx && #[trigger] macro_call_at(tv, j) ==> tv[j] == "loop_spec"@,
            forall|j: int| 0 <= j < idx && #[trigger] free_call_at(tv, j) ==> !names_call(function@, tv[j])
                && env_has_matching_name(env@, tv[j]),
        decreases t.len() - idx,
    {
        let name = &t[idx];
        if tok_char(&t, idx + 1, '!') && (tok_char(&t, idx + 2, '(') || tok_char(&t, idx + 2, '[') || tok_char(&t, idx + 2, '{')) {
            if !is_lit(name, "loop_spec") {
                let mut out = copy(name);
                out.push('!');
                assert(out@ =~= tv[idx as int] + "!"@);
                assert(reported_call_at(tv, idx as int, out@));
                assert(reports_call(tv, out@));
                return Some(out);
            }
            assert(tv[idx + 1] == seq!['!']);
            assert(tv[idx + 1][0] != '(');
            assert(!free_call_at(tv, idx as int));
        } else if tok_char(&t, idx + 1, '(') && is_ident(name) && !(idx > 0 && tok_char(&t, idx - 1, '.')) && !allowed_builtin_call(name) {
            if function_name_matches_call(function, name) {
                assert(reported_call_at(tv, idx as int, name@));
                let out = copy(name);
                assert(reports_call(tv, out@));
                return Some(out);
            }
            let mut known = false;
            let mut k: usize = 0;
            while k < env.len()
                invariant
                    idx < t@.len(),
                    name@ == t@[idx as int]@,
                    known ==> env_has_matching_name(env@, t@[idx as int]@),
                decreases env.len() - k,
            {
                if function_name_matches_call(&env[k].name, name) {
                    assert(names_call(env@[k as int].name@, t@[idx as int]@));
                    known = true;
                }
                k += 1;
            }
            if !known {
                assert(reported_call_at(tv, idx as int, name@));
                return Some(copy(name));
            }
            assert(env_has_matching_name(env@, tv[idx as int]));
            assert(!names_call(function@, tv[idx as int]));
        } else {
            assert(!free_call_at(tv, idx as int));
        }
        assert forall|j: int| 0 <= j < idx + 1 && #[trigger] free_call_at(tv, j) implies !names_call(function@, tv[j])
            && env_has_matching_name(env@, tv[j]) by {
            if j == idx {
                assert(free_call_at(tv, idx as int));
            }
        }
        idx += 1;
    }
    assert forall|j: int| #[trigger] macro_call_at(tv, j) implies tv[j] == "loop_spec"@ by {
        assert(j < idx);
    }
    assert forall|j: int| #[trigger] free_call_at(tv, j) implies !names_call(function@, tv[j]) && env_has_matching_name(
        env@, tv[j]) by {
        assert(j < idx);
    }
    None
}

/// Some environment function's path names the call.
pub open spec fn env_has_matching_name(env: Seq<TrustFunctionSummary>, call: Seq<char>) -> bool {
    exists|k: int| 0 <= k < env.len() && names_call((#[trigger] env[k]).name@, call)
}

/// Position of the only environment function whose path matches the call.
/// An environment path that names the call, as the compiler writes it.
pub open spec fn path_names_call(function: Seq<char>, call: Seq<char>) -> bool {
    function == call || ends_with_spec(function, "::"@ + call) || ends_with_spec(call, "::"@ + function)
}

pub fn unique_semantic_function_for_call(env: &Vec<TrustFunctionSummary>, call: &[char]) -> (r: Option<usize>)
    ensures
        r matches Some(k) ==> k < env@.len(),
        r matches Some(k) ==> path_names_call(env@[k as int].name@, call@) && forall|j: int| 0 <= j < env@.len() && j != k
            ==> !path_names_call(#[trigger] env@[j].name@, call@),
        r is None ==> forall|k: int| 0 <= k < env@.len() && path_names_call(#[trigger] env@[k].name@, call@) ==> exists|j: int|
            0 <= j < env@.len() && j != k && path_names_call(env@[j].name@, call@),
{
    let mut found: Option<usize> = None;
    let mut i: usize = 0;
    while i < env.len()
        invariant
            found matches Some(k) ==> k < env@.len(),
            i <= env@.len(),
            found matches Some(k) ==> k < i && path_names_call(env@[k as int].name@, call@) && forall|j: int| 0 <= j < i && j
                != k ==> !path_names_call(#[trigger] env@[j].name@, call@),
            found is None ==> forall|j: int| 0 <= j < i ==> !path_names_call(#[trigger] env@[j].name@, call@),
        decreases env.len() - i,
    {
        if semantic_function_name_matches_call(&env[i].name, call) {
            if found.is_some() {
                proof {
                    let k0 = found->0;
                    assert forall|k: int| 0 <= k < env@.len() && path_names_call(#[trigger] env@[k].name@, call@) implies exists|j: int|
                        0 <= j < env@.len() && j != k && path_names_call(env@[j].name@, call@) by {
                        if k == i {
                            assert(path_names_call(env@[k0 as int].name@, call@));
                        } else {
                            assert(path_names_call(env@[i as int].name@, call@));
                        }
                    }
                }
                return None;
            }
            found = Some(i);
        }
        i += 1;
    }
    found
}

/// A reported call the verifier cannot accept; `None` when no facts are given.
#[verifier::loop_isolation(false)]
pub fn unsupported_semantic_call(semantics: Option<&TrustFunctionSemantics>, env: &Vec<TrustFunctionSummary>, function: &[char]) -> (r: Option<Vec<char>>)
    ensures
        semantics is None ==> r is None,
        semantics matches Some(s) ==> (r matches Some(c) ==> exists|i: int| 0 <= i < s.calls@.len() && c@ == (
            #[trigger] s.calls@[i]).callee@),
        semantics matches Some(s) ==> (r is None ==> forall|i: int| 0 <= i < s.calls@.len() ==> !names_call(function@,
            (#[trigger] s.calls@[i]).callee@) && (s.calls@[i].trust_callee is Some || s.calls@[i].callee@ == "<slice>.len"@
            || checked_add_call_spec(s.calls@[i]) || semantic_index_call_spec(s.calls@[i].callee@) || (exists|k: int| 0 <= k
            < env@.len() && path_names_call(#[trigger] env@[k].name@, s.calls@[i].callee@)) || allowed_builtin_spec(
            crate::tokens::function_leaf_spec(s.calls@[i].callee@)))),
{
    let s = match semantics {
        Some(s) => s,
        None => return None,
    };
    let mut i: usize = 0;
    while i < s.calls.len()
        invariant
            semantics == Some(s),
            i <= s.calls@.len(),
            forall|j: int| 0 <= j < i ==> !names_call(function@, (#[trigger] s.calls@[j]).callee@) && (s.calls@[j].trust_callee
                is Some || s.calls@[j].callee@ == "<slice>.len"@ || checked_add_call_spec(s.calls@[j]) || semantic_index_call_spec(
                s.calls@[j].callee@) || (exists|k: int| 0 <= k < env@.len() && path_names_call(#[trigger] env@[k].name@,
                s.calls@[j].callee@)) || allowed_builtin_spec(crate::tokens::function_leaf_spec(s.calls@[j].callee@))),
        decreases s.calls.len() - i,
    {
        let call = &s.calls[i];
        let callee = chars_of_string(&call.callee);
        if function_name_matches_call(function, &callee) {
            assert(s.calls@[i as int].callee@ == callee@);
            return Some(callee);
        }
        let a1 = call.trust_callee.is_some();
        let a2 = is_lit(&callee, "<slice>.len");
        let a3 = semantic_checked_add_call_supported(call);
        let a4 = semantic_index_call(&callee);
        let u = unique_semantic_function_for_call(env, &callee);
        let a5 = u.is_some();
        let a6 = allowed_builtin_call(&function_leaf_name(&callee));
        let accepted = a1 || a2 || a3 || a4 || a5 || a6;
        if !accepted {
            assert(s.calls@[i as int].callee@ == callee@);
            return Some(callee);
        }
        proof {
            assert(s.calls@[i as int] == *call);
            let c = s.calls@[i as int];
            assert(c.callee@ == callee@);
            assert(a1 ==> c.trust_callee is Some);
            assert(a2 ==> c.callee@ == "<slice>.len"@);
            assert(a3 ==> checked_add_call_spec(c));
            assert(a4 ==> semantic_index_call_spec(c.callee@));
            if let Some(k) = u {
                assert(path_names_call(env@[k as int].name@, c.callee@));
            }
            assert(a6 ==> allowed_builtin_spec(crate::tokens::function_leaf_spec(c.callee@)));
            assert(!names_call(function@, c.callee@));
        }
        i += 1;
    }
    None
}

/// The summary of a Trust callee the compiler resolved.
pub fn trust_callee_summary(callee: &SemanticTrustCallee) -> (r: TrustFunctionSummary)
    ensures
        r.name@ == callee.rust_function_path@,
        r.params@.len() == callee.params@.len(),
        forall|k: int| 0 <= k < r.params@.len() ==> (#[trigger] r.params@[k]).name@ == callee.params@[k].name@
            && r.params@[k].ty@ == callee.params@[k].ty@,
        r.preconditions@.len() == callee.preconditions@.len(),
        forall|k: int| 0 <= k < r.preconditions@.len() ==> (#[trigger] r.preconditions@[k])@ == crate::text::strip_ws(
            callee.preconditions@[k]@),
{
    let mut params: Vec<Param> = Vec::new();
    let mut i: usize = 0;
    while i < callee.params.len()
        invariant
            i <= callee.params@.len(),
            params@.len() == i,
            forall|k: int| 0 <= k < i ==> (#[trigger] params@[k]).name@ == callee.params@[k].name@
                && params@[k].ty@ == callee.params@[k].ty@,
        decreases callee.params.len() - i,
    {
        params.push(Param { name: chars_of_string(&callee.params[i].name), ty: chars_of_string(&callee.params[i].ty) });
        i += 1;
    }
    let mut preconditions: Vec<Vec<char>> = Vec::new();
    let mut j: usize = 0;
    while j < callee.preconditions.len()
        invariant
            j <= callee.preconditions@.len(),
            preconditions@.len() == j,
            forall|k: int| 0 <= k < j ==> (#[trigger] preconditions@[k])@ == crate::text::strip_ws(
                callee.preconditions@[k]@),
        decreases callee.preconditions.len() - j,
    {
        preconditions.push(normalize(&chars_of_string(&callee.preconditions[j])));
        j += 1;
    }
    TrustFunctionSummary { name: chars_of_string(&callee.rust_function_path), params, preconditions }
}

/// The environment plus each resolved Trust callee not already in it.
pub fn verification_call_env(env: &Vec<TrustFunctionSummary>, semantics: Option<&TrustFunctionSemantics>) -> (r: Vec<TrustFunctionSummary>)
    ensures
        semantics is None ==> r@.len() == env@.len(),
        semantics is None ==> forall|k: int| 0 <= k < r@.len() ==> (#[trigger] r@[k]).name@ == env@[k].name@,
{
    let mut out: Vec<TrustFunctionSummary> = Vec::new();
    let mut i: usize = 0;
    while i < env.len()
        invariant
            i <= env.len(),
            out@.len() == i,
            forall|k: int| 0 <= k < i ==> (#[trigger] out@[k]).name@ == env@[k].name@,
        decreases env.len() - i,
    {
        out.push(copy_summary(&env[i]));
        i += 1;
    }
    if let Some(s) = semantics {
        let mut k: usize = 0;
        while k < s.calls.len()
            decreases s.calls.len() - k,
        {
            if let Some(tc) = &s.calls[k].trust_callee {
                let summary = trust_callee_summary(tc);
                let mut present = false;
                let mut j: usize = 0;
                while j < out.len()
                    decreases out.len() - j,
                {
                    if function_name_matches_call(&out[j].name, &summary.name) {
                        present = true;
                    }
                    j += 1;
                }
                if !present {
                    out.push(summary);
                }
            }
            k += 1;
        }
    }
    out
}

/// A token with the argument of the first parameter it names put in its place.
pub open spec fn substituted_token(tok: Seq<char>, params: Seq<Param>, args: Seq<Seq<char>>) -> Seq<char> {
    match crate::arith::param_position_from(params, tok, 0) {
        Some(k) => args[k],
        None => tok,
    }
}

/// The tokens, each substituted, written together.
pub open spec fn substituted(t: Seq<Seq<char>>, params: Seq<Param>, args: Seq<Seq<char>>) -> Seq<char>
    decreases t.len(),
{
    if t.len() == 0 {
        seq![]
    } else {
        substituted(t.drop_last(), params, args) + substituted_token(t.last(), params, args)
    }
}

/// Each token that names a parameter names one with an argument.
pub open spec fn arguments_cover(t: Seq<Seq<char>>, params: Seq<Param>, n: int) -> bool {
    forall|i: int| 0 <= i < t.len() ==> (crate::arith::param_position_from(params, #[trigger] t[i], 0) matches Some(k)
        ==> k < n)
}

proof fn lemma_position_bound(params: Seq<Param>, name: Seq<char>, i: int)
    ensures
        crate::arith::param_position_from(params, name, i) matches Some(k) ==> k < params.len(),
    decreases params.len() - i,
{
    if 0 <= i < params.len() && params[i].name@ != name {
        lemma_position_bound(params, name, i + 1);
    }
}

/// With an argument for every parameter, every token is covered.
pub proof fn lemma_arguments_cover(t: Seq<Seq<char>>, params: Seq<Param>, n: int)
    requires
        n >= params.len(),
    ensures
        arguments_cover(t, params, n),
{
    assert forall|i: int| 0 <= i < t.len() implies (crate::arith::param_position_from(params, #[trigger] t[i], 0) matches Some(
        k) ==> k < n) by {
        lemma_position_bound(params, t[i], 0);
    }
}

/// The condition with each parameter token replaced by its argument and
/// the tokens written together.
pub fn substitute_params(condition: &[char], params: &Vec<Param>, args: &Vec<Vec<char>>) -> (r: Vec<char>)
    requires
        arguments_cover(tokens_spec(condition@), params@, args@.len() as int),
    ensures
        r@ == substituted(tokens_spec(condition@), params@, views(args@)),
{
    let t = tokens(condition);
    let mut out: Vec<char> = Vec::new();
    let mut i: usize = 0;
    while i < t.len()
        invariant
            views(t@) == tokens_spec(condition@),
            arguments_cover(tokens_spec(condition@), params@, args@.len() as int),
            i <= t@.len(),
            out@ == substituted(views(t@).subrange(0, i as int), params@, views(args@)),
        decreases t.len() - i,
    {
        let ghost sub = views(t@).subrange(0, i + 1);
        assert(sub.drop_last() =~= views(t@).subrange(0, i as int));
        assert(sub.last() == t@[i as int]@);
        assert(views(t@)[i as int] == t@[i as int]@);
        match crate::arith::first_param_named(params, &t[i]) {
            Some(k) => append(&mut out, &args[k]),
            None => append(&mut out, &t[i]),
        }
        i += 1;
    }
    assert(views(t@).subrange(0, t@.len() as int) =~= views(t@));
    out
}

/// Environment function `f` is the first whose path names the call.
pub open spec fn first_env_match(env: Seq<TrustFunctionSummary>, name: Seq<char>, f: int) -> bool {
    0 <= f < env.len() && names_call(env[f].name@, name) && forall|j: int| 0 <= j < f ==> !names_call(
        #[trigger] env[j].name@, name)
}

/// No environment function but `f` names the call.
pub open spec fn sole_env_match(env: Seq<TrustFunctionSummary>, name: Seq<char>, f: int) -> bool {
    forall|j: int| 0 <= j < env.len() && j != f ==> !names_call(#[trigger] env[j].name@, name)
}

/// `name ( .. )` at `i`, not a method, with balanced parentheses, calling
/// environment function `f` (the only one naming it unless ambiguity is
/// allowed) with as many arguments as it has parameters.
pub open spec fn call_site(t: Seq<Seq<char>>, env: Seq<TrustFunctionSummary>, allow_ambiguous: bool, i: int, f: int) -> bool {
    &&& 0 <= i && i + 1 < t.len() && t[i + 1] == "("@
    &&& !(i > 0 && t[i - 1] == "."@)
    &&& first_env_match(env, t[i], f)
    &&& (allow_ambiguous || sole_env_match(env, t[i], f))
    &&& crate::tokens::token_group_close(t, '(', ')', i + 1, 0) is Some
    &&& crate::tokens::call_arity(t.subrange(i + 2, crate::tokens::token_group_close(t, '(', ')', i + 1, 0)->0))
        == env[f].params@.len()
}

/// Some obligation is precondition `p` of `sm` with its parameters replaced
/// by some arguments.
pub open spec fn instantiated(r: Seq<CallObligation>, sm: TrustFunctionSummary, p: int) -> bool {
    exists|k: int| 0 <= k < r.len() && (#[trigger] r[k]).callee@ == sm.name@ && exists|args: Seq<Seq<char>>| args.len()
        == sm.params@.len() && r[k].condition@ == substituted(tokens_spec(sm.preconditions@[p]@), sm.params@, args)
}

proof fn lemma_instantiated_push(r: Seq<CallObligation>, x: CallObligation)
    ensures
        forall|sm: TrustFunctionSummary, p: int| #[trigger] instantiated(r, sm, p) ==> instantiated(r.push(x), sm, p),
{
    assert forall|sm: TrustFunctionSummary, p: int| #[trigger] instantiated(r, sm, p) implies instantiated(r.push(x), sm, p) by {
        let k = choose|k: int| 0 <= k < r.len() && (#[trigger] r[k]).callee@ == sm.name@ && exists|args: Seq<Seq<char>>|
            args.len() == sm.params@.len() && r[k].condition@ == substituted(tokens_spec(sm.preconditions@[p]@), sm.params@, args);
        assert(r.push(x)[k] == r[k]);
    }
}

/// For each call `f(..)` (not a method) of an environment function with
/// the right number of arguments, its preconditions instantiated; a name
/// several functions match is skipped unless ambiguity is allowed.
pub fn call_obligations_from_tokens(t: &[Vec<char>], env: &Vec<TrustFunctionSummary>, allow_ambiguous: bool, assumptions: &Vec<Vec<char>>) -> (r: Vec<CallObligation>)
    ensures
        forall|k: int| 0 <= k < r@.len() ==> env_has_name(env@, (#[trigger] r@[k]).callee@) && views(r@[k].assumptions@)
            == views(assumptions@),
        !crate::tokens::has_token(views(t@), "("@) ==> r@.len() == 0,
        forall|i: int, f: int, p: int| #[trigger] call_site(views(t@), env@, allow_ambiguous, i, f) && 0 <= p
            < env@[f].preconditions@.len() ==> #[trigger] instantiated(r@, env@[f], p),
{
    proof { reveal_strlit("("); reveal_strlit("."); }
    let ghost tv = views(t@);
    let mut obligations: Vec<CallObligation> = Vec::new();
    let mut idx: usize = 0;
    while idx < t.len() && t.len() - idx >= 2
        invariant
            "("@ == seq!['('],
            "."@ == seq!['.'],
            tv == views(t@),
            forall|k: int| 0 <= k < obligations@.len() ==> env_has_name(env@, (#[trigger] obligations@[k]).callee@)
                && views(obligations@[k].assumptions@) == views(assumptions@),
            !crate::tokens::has_token(views(t@), "("@) ==> obligations@.len() == 0,
            forall|i: int, f: int, p: int| i < idx && #[trigger] call_site(tv, env@, allow_ambiguous, i, f) && 0 <= p
                < env@[f].preconditions@.len() ==> #[trigger] instantiated(obligations@, env@[f], p),
        decreases t.len() - idx,
    {
        let name = &t[idx];
        assert(tv[idx as int] == name@);
        if !tok_char(t, idx + 1, '(') || (idx > 0 && tok_char(t, idx - 1, '.')) {
            idx += 1;
            continue;
        }
        let mut first: Option<usize> = None;
        let mut count: usize = 0;
        let mut k: usize = 0;
        while k < env.len()
            invariant
                k <= env@.len(),
                first matches Some(f) ==> f < env@.len(),
                first is None ==> count == 0 && forall|j: int| 0 <= j < k ==> !names_call(#[trigger] env@[j].name@, name@),
                first matches Some(fi) ==> fi < k && names_call(env@[fi as int].name@, name@) && (forall|j: int| 0 <= j < fi
                    ==> !names_call(#[trigger] env@[j].name@, name@)) && count >= 1 && (count == 1 <==> forall|j: int| 0 <= j
                    < k && j != fi ==> !names_call(#[trigger] env@[j].name@, name@)),
            decreases env.len() - k,
        {
            if function_name_matches_call(&env[k].name, name) {
                if first.is_none() {
                    first = Some(k);
                }
                count = count.saturating_add(1);
            }
            k += 1;
        }
        let callee_idx = match first {
            Some(f) => f,
            None => {
                idx += 1;
                continue;
            },
        };
        assert(first_env_match(env@, tv[idx as int], callee_idx as int));
        proof {
            assert forall|f: int| #[trigger] first_env_match(env@, tv[idx as int], f) implies f == callee_idx by {
                if f < callee_idx {
                    assert(!names_call(env@[f].name@, name@));
                } else if f > callee_idx {
                    assert(!names_call(env@[callee_idx as int].name@, name@));
                }
            }
        }
        if !allow_ambiguous && count > 1 {
            proof {
                assert(!sole_env_match(env@, tv[idx as int], callee_idx as int));
            }
            idx += 1;
            continue;
        }
        assert(views(t@)[idx + 1] == "("@);
        let end = match matching_token_group(t, idx + 1, '(', ')') {
            Some(e) => e,
            None => {
                idx += 1;
                continue;
            },
        };
        let range = token_range(t, idx + 2, end);
        let groups = split_arguments(&range);
        let mut args: Vec<Vec<char>> = Vec::new();
        let mut g: usize = 0;
        while g < groups.len()
            invariant
                g <= groups@.len(),
                args@.len() == g,
            decreases groups.len() - g,
        {
            args.push(simple_grouped_value_expression(&groups[g]));
            g += 1;
        }
        let callee = &env[callee_idx];
        assert(env_has_name(env@, callee.name@)) by {
            assert(env@[callee_idx as int].name@ == callee.name@);
        }
        assert(args@.len() == crate::tokens::call_arity(tv.subrange(idx + 2, end as int)));
        if args.len() == callee.params.len() {
            let mut p: usize = 0;
            while p < callee.preconditions.len()
                invariant
                    args@.len() == callee.params@.len(),
                    env_has_name(env@, callee.name@),
                    callee_idx < env@.len(),
                    *callee == env@[callee_idx as int],
                    p <= callee.preconditions@.len(),
                    forall|k: int| 0 <= k < obligations@.len() ==> env_has_name(env@, (#[trigger] obligations@[k]).callee@)
                        && views(obligations@[k].assumptions@) == views(assumptions@),
                    crate::tokens::has_token(views(t@), "("@),
                    forall|i: int, f: int, q: int| i < idx && #[trigger] call_site(tv, env@, allow_ambiguous, i, f) && 0 <= q
                        < env@[f].preconditions@.len() ==> #[trigger] instantiated(obligations@, env@[f], q),
                    forall|q: int| 0 <= q < p ==> #[trigger] instantiated(obligations@, env@[callee_idx as int], q),
                decreases callee.preconditions.len() - p,
            {
                let ghost before = obligations@;
                proof {
                    lemma_arguments_cover(tokens_spec(callee.preconditions@[p as int]@), callee.params@, args@.len() as int);
                }
                let ob = CallObligation {
                    callee: copy(&callee.name),
                    condition: substitute_params(&callee.preconditions[p], &callee.params, &args),
                    assumptions: clone_texts(assumptions),
                };
                obligations.push(ob);
                proof {
                    lemma_instantiated_push(before, ob);
                    assert(obligations@ == before.push(ob));
                    assert(obligations@[before.len() as int] == ob);
                    assert(ob.condition@ == substituted(tokens_spec(callee.preconditions@[p as int]@), callee.params@, views(args@)));
                    assert(instantiated(obligations@, env@[callee_idx as int], p as int));
                    assert forall|q: int| 0 <= q < p + 1 implies #[trigger] instantiated(obligations@, env@[callee_idx as int], q) by {
                        if q < p {
                            assert(instantiated(before, env@[callee_idx as int], q));
                        }
                    }
                    assert forall|i: int, f: int, q: int| i < idx && #[trigger] call_site(tv, env@, allow_ambiguous, i, f) && 0 <= q
                        < env@[f].preconditions@.len() implies #[trigger] instantiated(obligations@, env@[f], q) by {
                        assert(instantiated(before, env@[f], q));
                    }
                }
                assert forall|k: int| 0 <= k < obligations@.len() implies env_has_name(env@, (#[trigger] obligations@[k]).callee@)
                    && views(obligations@[k].assumptions@) == views(assumptions@) by {
                    if k < before.len() {
                        assert(obligations@[k] == before[k]);
                    }
                }
                p += 1;
            }
        }
        idx += 1;
    }
    obligations
}

/// The call obligations of each executable segment, in order; each is a
/// call of an environment function.
pub fn call_obligations_with_ambiguity(body: &[char], env: &Vec<TrustFunctionSummary>, allow_ambiguous: bool) -> (r: Vec<CallObligation>)
    ensures
        forall|k: int| 0 <= k < r@.len() ==> env_has_name(env@, (#[trigger] r@[k]).callee@),
        env@.len() == 0 ==> r@.len() == 0,
        straight_call_body(body@) ==> forall|i: int, f: int, p: int| #[trigger] call_site(tokens_spec(body@), env@,
            allow_ambiguous, i, f) && 0 <= p < env@[f].preconditions@.len() ==> #[trigger] instantiated(r@, env@[f], p),
        straight_call_body(body@) && r@.len() > 0 ==> crate::tokens::has_token(tokens_spec(body@), "("@),
{
    let segments = executable_call_token_segments(body);
    let ghost tb = tokens_spec(body@);
    let ghost sl = straight_call_body(body@);
    let mut out: Vec<CallObligation> = Vec::new();
    let mut i: usize = 0;
    while i < segments.len()
        invariant
            i <= segments@.len(),
            tb == tokens_spec(body@),
            sl == straight_call_body(body@),
            sl ==> segments@.len() == (if tb.len() > 0 { 1int } else { 0int }),
            sl && segments@.len() > 0 ==> views(segments@[0].tokens@) == tb,
            sl && i == 0 ==> out@.len() == 0,
            sl && i > 0 ==> forall|ii: int, f: int, p: int| #[trigger] call_site(tb, env@, allow_ambiguous, ii, f) && 0 <= p
                < env@[f].preconditions@.len() ==> #[trigger] instantiated(out@, env@[f], p),
            forall|k: int| 0 <= k < out@.len() ==> env_has_name(env@, (#[trigger] out@[k]).callee@),
            sl && out@.len() > 0 ==> crate::tokens::has_token(tb, "("@),
        decreases segments.len() - i,
    {
        let mut found = call_obligations_from_tokens(&segments[i].tokens, env, allow_ambiguous, &segments[i].assumptions);
        let ghost before = out@;
        let ghost added = found@;
        out.append(&mut found);
        proof {
            if sl {
                assert(i == 0);
                assert(out@ =~= added);
            }
        }
        assert forall|k: int| 0 <= k < out@.len() implies env_has_name(env@, (#[trigger] out@[k]).callee@) by {
            if k < before.len() {
                assert(out@[k] == before[k]);
            } else {
                assert(out@[k] == added[k - before.len()]);
            }
        }
        i += 1;
    }
    proof {
        if out@.len() > 0 {
            assert(env_has_name(env@, out@[0].callee@));
        }
    }
    out
}

/// A body whose call scan reads all its tokens as one segment: no
/// `loop_spec!` and no `while`.
pub open spec fn straight_call_body(body: Seq<char>) -> bool {
    !crate::tokens::has_token(tokens_spec(body), "loop_spec"@) && !crate::tokens::has_token(tokens_spec(body), "while"@)
}

/// Call obligations, ambiguous names included.
pub fn call_obligations(body: &[char], env: &Vec<TrustFunctionSummary>) -> (r: Vec<CallObligation>)
    ensures
        forall|k: int| 0 <= k < r@.len() ==> env_has_name(env@, (#[trigger] r@[k]).callee@),
        env@.len() == 0 ==> r@.len() == 0,
        straight_call_body(body@) ==> forall|i: int, f: int, p: int| #[trigger] call_site(tokens_spec(body@), env@, true, i,
            f) && 0 <= p < env@[f].preconditions@.len() ==> #[trigger] instantiated(r@, env@[f], p),
        straight_call_body(body@) && r@.len() > 0 ==> crate::tokens::has_token(tokens_spec(body@), "("@),
{
    call_obligations_with_ambiguity(body, env, true)
}

/// Call obligations of names only one environment function matches.
pub fn unambiguous_call_obligations(body: &[char], env: &Vec<TrustFunctionSummary>) -> (r: Vec<CallObligation>)
    ensures
        forall|k: int| 0 <= k < r@.len() ==> env_has_name(env@, (#[trigger] r@[k]).callee@),
        env@.len() == 0 ==> r@.len() == 0,
        straight_call_body(body@) ==> forall|i: int, f: int, p: int| #[trigger] call_site(tokens_spec(body@), env@, false, i,
            f) && 0 <= p < env@[f].preconditions@.len() ==> #[trigger] instantiated(r@, env@[f], p),
{
    call_obligations_with_ambiguity(body, env, false)
}

/// Some environment function has this name.
pub open spec fn env_has_name(env: Seq<TrustFunctionSummary>, name: Seq<char>) -> bool {
    exists|k: int| 0 <= k < env.len() && (#[trigger] env[k]).name@ == name
}

/// A name the environment holds, or that the compiler resolved for a call.
pub open spec fn callee_known(env: Seq<TrustFunctionSummary>, semantics: TrustFunctionSemantics, name: Seq<char>) -> bool {
    env_has_name(env, name) || exists|i: int| 0 <= i < semantics.calls@.len()
        && ((#[trigger] semantics.calls@[i]).trust_callee matches Some(tc) && tc.rust_function_path@ == name)
}

/// Environment function `k` is the only one whose path names the call.
pub open spec fn unique_env_match(env: Seq<TrustFunctionSummary>, callee: Seq<char>, k: int) -> bool {
    0 <= k < env.len() && path_names_call(env[k].name@, callee) && forall|j: int| 0 <= j < env.len() && j != k
        ==> !path_names_call(#[trigger] env[j].name@, callee)
}

proof fn lemma_unique_env_match(env: Seq<TrustFunctionSummary>, callee: Seq<char>, a: int, b: int)
    requires
        unique_env_match(env, callee, a),
        unique_env_match(env, callee, b),
    ensures
        a == b,
{
    if a != b {
        assert(!path_names_call(env[b].name@, callee));
    }
}

/// How many obligations a reported call gives: the preconditions of its
/// callee when the argument count matches the callee's parameters.
pub open spec fn call_precondition_count(call: SemanticCall, env: Seq<TrustFunctionSummary>) -> int {
    match call.trust_callee {
        Some(tc) => if call.args@.len() == tc.params@.len() {
            tc.preconditions@.len() as int
        } else {
            0
        },
        None => if exists|k: int| unique_env_match(env, call.callee@, k) {
            let k = choose|k: int| unique_env_match(env, call.callee@, k);
            if call.args@.len() == env[k].params@.len() {
                env[k].preconditions@.len() as int
            } else {
                0
            }
        } else {
            0
        },
    }
}

/// How many obligations the reported calls give in all.
pub open spec fn call_obligation_total(calls: Seq<SemanticCall>, env: Seq<TrustFunctionSummary>) -> int
    decreases calls.len(),
{
    if calls.len() == 0 {
        0
    } else {
        call_obligation_total(calls.drop_last(), env) + call_precondition_count(calls.last(), env)
    }
}

/// The callee of a reported call: its resolved Trust callee, else the
/// only environment function its path matches.
pub fn semantic_call_callee(call: &SemanticCall, env: &Vec<TrustFunctionSummary>) -> (r: Option<TrustFunctionSummary>)
    ensures
        call.trust_callee matches Some(tc) ==> (r matches Some(sm) && sm.name@ == tc.rust_function_path@),
        call.trust_callee is None ==> (r matches Some(sm) ==> env_has_name(env@, sm.name@)),
        call.trust_callee matches Some(tc) ==> (r matches Some(sm) && sm.params@.len() == tc.params@.len()
            && sm.preconditions@.len() == tc.preconditions@.len()),
        call.trust_callee is None ==> (r is Some <==> exists|k: int| unique_env_match(env@, call.callee@, k)),
        call.trust_callee is None ==> (r matches Some(sm) ==> exists|k: int| unique_env_match(env@, call.callee@, k)
            && sm.params@.len() == env@[k].params@.len() && sm.preconditions@.len() == env@[k].preconditions@.len()),
{
    if let Some(tc) = &call.trust_callee {
        return Some(trust_callee_summary(tc));
    }
    match unique_semantic_function_for_call(env, &chars_of_string(&call.callee)) {
        Some(k) => {
            let sm = copy_summary(&env[k]);
            assert(env@[k as int].name@ == sm.name@);
            assert(unique_env_match(env@, call.callee@, k as int));
            Some(sm)
        },
        None => {
            proof {
                if exists|k: int| unique_env_match(env@, call.callee@, k) {
                    let k = choose|k: int| unique_env_match(env@, call.callee@, k);
                    assert(path_names_call(env@[k].name@, call.callee@));
                }
            }
            None
        },
    }
}

/// The instantiated preconditions of each reported call.
pub fn semantic_call_obligations(semantics: Option<&TrustFunctionSemantics>, env: &Vec<TrustFunctionSummary>) -> (r: Vec<CallObligation>)
    ensures
        semantics is None ==> r@.len() == 0,
        semantics matches Some(s) ==> forall|k: int| 0 <= k < r@.len() ==> callee_known(env@, *s, (#[trigger] r@[k]).callee@),
        semantics matches Some(s) ==> r@.len() == call_obligation_total(s.calls@, env@),
{
    let mut out: Vec<CallObligation> = Vec::new();
    if let Some(s) = semantics {
        let mut i: usize = 0;
        while i < s.calls.len()
            invariant
                i <= s.calls@.len(),
                semantics == Some(s),
                forall|k: int| 0 <= k < out@.len() ==> callee_known(env@, *s, (#[trigger] out@[k]).callee@),
                out@.len() == call_obligation_total(s.calls@.subrange(0, i as int), env@),
            decreases s.calls.len() - i,
        {
            let call = &s.calls[i];
            let ghost base = out@.len();
            let ghost pre = s.calls@.subrange(0, i + 1);
            assert(pre.drop_last() =~= s.calls@.subrange(0, i as int));
            assert(pre.last() == *call);
            let found = semantic_call_callee(call, env);
            let ghost added: int = if found is Some && call.args@.len() == found->0.params@.len() {
                found->0.preconditions@.len() as int
            } else {
                0
            };
            proof {
                if call.trust_callee is None && found is Some {
                    let sm = found->0;
                    {
                        let k = choose|k: int| unique_env_match(env@, call.callee@, k) && sm.params@.len() == env@[k].params@.len()
                            && sm.preconditions@.len() == env@[k].preconditions@.len();
                        let k2 = choose|k: int| unique_env_match(env@, call.callee@, k);
                        lemma_unique_env_match(env@, call.callee@, k, k2);
                    }
                }
                assert(added == call_precondition_count(*call, env@));
            }
            proof {
                if found is Some {
                    if call.trust_callee is Some {
                        assert(s.calls@[i as int].trust_callee == call.trust_callee);
                    }
                    assert(callee_known(env@, *s, found->0.name@));
                }
            }
            if let Some(callee) = found {
                if call.args.len() == callee.params.len() {
                    let mut args: Vec<Vec<char>> = Vec::new();
                    let mut a: usize = 0;
                    while a < call.args.len()
                        invariant
                            a <= call.args.len(),
                            args@.len() == a,
                        decreases call.args.len() - a,
                    {
                        args.push(chars_of_string(&call.args[a]));
                        a += 1;
                    }
                    let mut guards: Vec<Vec<char>> = Vec::new();
                    let mut g: usize = 0;
                    while g < call.guards.len()
                        decreases call.guards.len() - g,
                    {
                        guards.push(normalize(&chars_of_string(&call.guards[g])));
                        g += 1;
                    }
                    let mut p: usize = 0;
                    while p < callee.preconditions.len()
                        invariant
                            args@.len() == callee.params@.len(),
                            callee_known(env@, *s, callee.name@),
                            forall|k: int| 0 <= k < out@.len() ==> callee_known(env@, *s, (#[trigger] out@[k]).callee@),
                            p <= callee.preconditions@.len(),
                            out@.len() == base + p,
                        decreases callee.preconditions.len() - p,
                    {
                        let ghost before = out@;
                        out.push(CallObligation {
                            callee: copy(&callee.name),
                            condition: {
                                proof {
                                    lemma_arguments_cover(tokens_spec(callee.preconditions@[p as int]@), callee.params@,
                                        args@.len() as int);
                                }
                                substitute_params(&callee.preconditions[p], &callee.params, &args)
                            },
                            assumptions: clone_texts(&guards),
                        });
                        assert forall|k: int| 0 <= k < out@.len() implies callee_known(env@, *s, (#[trigger] out@[k]).callee@) by {
                            if k < before.len() {
                                assert(out@[k] == before[k]);
                            }
                        }
                        p += 1;
                    }
                }
            }
            assert(out@.len() == base + added);
            i += 1;
        }
        assert(s.calls@.subrange(0, s.calls@.len() as int) =~= s.calls@);
    }
    out
}

/// Call preconditions to prove: the compiler's when given, else the
/// tokens' (each callee and condition once).
pub fn verification_call_obligations(body: &[char], env: &Vec<TrustFunctionSummary>, semantics: Option<&TrustFunctionSemantics>) -> (r: Vec<CallObligation>)
    ensures
        semantics matches Some(s) ==> forall|k: int| 0 <= k < r@.len() ==> callee_known(env@, *s, (#[trigger] r@[k]).callee@),
        semantics matches Some(s) ==> r@.len() == call_obligation_total(s.calls@, env@),
        semantics is None ==> forall|k: int| 0 <= k < r@.len() ==> env_has_name(env@, (#[trigger] r@[k]).callee@),
        semantics is None ==> forall|a: int, b: int| 0 <= a < b < r@.len() ==> !((#[trigger] r@[a]).callee@
            == (#[trigger] r@[b]).callee@ && r@[a].condition@ == r@[b].condition@),
        semantics is None && straight_call_body(body@) ==> forall|i: int, f: int, p: int| #[trigger] call_site(tokens_spec(
            body@), env@, true, i, f) && 0 <= p < env@[f].preconditions@.len() ==> #[trigger] instantiated(r@, env@[f], p),
        semantics is None && straight_call_body(body@) && r@.len() > 0 ==> crate::tokens::has_token(tokens_spec(body@),
            "("@),
{
    if semantics.is_some() {
        return semantic_call_obligations(semantics, env);
    }
    let all = call_obligations(body, env);
    let mut out: Vec<CallObligation> = Vec::new();
    let mut i: usize = 0;
    while i < all.len()
        invariant
            i <= all@.len(),
            forall|j: int| 0 <= j < i ==> exists|k: int| 0 <= k < out@.len() && (#[trigger] out@[k]).callee@
                == (#[trigger] all@[j]).callee@ && out@[k].condition@ == all@[j].condition@,
            semantics is None,
            forall|k: int| 0 <= k < all@.len() ==> env_has_name(env@, (#[trigger] all@[k]).callee@),
            forall|k: int| 0 <= k < out@.len() ==> env_has_name(env@, (#[trigger] out@[k]).callee@),
            forall|a: int, b: int| 0 <= a < b < out@.len() ==> !((#[trigger] out@[a]).callee@ == (#[trigger] out@[b]).callee@
                && out@[a].condition@ == out@[b].condition@),
            out@.len() <= i,
        decreases all.len() - i,
    {
        let ob = &all[i];
        let mut dup = false;
        let mut j: usize = 0;
        while j < out.len()
            invariant
                j <= out@.len(),
                !dup ==> forall|a: int| 0 <= a < j ==> !((#[trigger] out@[a]).callee@ == ob.callee@ && out@[a].condition@
                    == ob.condition@),
                dup ==> exists|a: int| 0 <= a < j && (#[trigger] out@[a]).callee@ == ob.callee@ && out@[a].condition@
                    == ob.condition@,
            decreases out.len() - j,
        {
            if same(&out[j].callee, &ob.callee) && same(&out[j].condition, &ob.condition) {
                dup = true;
            }
            j += 1;
        }
        let ghost prev = out@;
        if !dup {
            let ghost before = out@;
            out.push(CallObligation { callee: copy(&ob.callee), condition: copy(&ob.condition), assumptions: clone_texts(&ob.assumptions) });
            assert forall|k: int| 0 <= k < out@.len() implies env_has_name(env@, (#[trigger] out@[k]).callee@) by {
                if k < before.len() {
                    assert(out@[k] == before[k]);
                } else {
                    assert(out@[k].callee@ == all@[i as int].callee@);
                }
            }
            assert forall|a: int, b: int| 0 <= a < b < out@.len() implies !((#[trigger] out@[a]).callee@
                == (#[trigger] out@[b]).callee@ && out@[a].condition@ == out@[b].condition@) by {
                assert(out@[a] == before[a]);
                if b < before.len() {
                    assert(out@[b] == before[b]);
                }
            }
        }
        assert forall|jj: int| 0 <= jj < i + 1 implies exists|k: int| 0 <= k < out@.len() && (#[trigger] out@[k]).callee@
            == (#[trigger] all@[jj]).callee@ && out@[k].condition@ == all@[jj].condition@ by {
            if jj < i {
                let k = choose|k: int| 0 <= k < prev.len() && (#[trigger] prev[k]).callee@ == all@[jj].callee@
                    && prev[k].condition@ == all@[jj].condition@;
                assert(out@[k] == prev[k]);
            } else if dup {
                let k = choose|a: int| 0 <= a < prev.len() && (#[trigger] prev[a]).callee@ == ob.callee@ && prev[a].condition@
                    == ob.condition@;
                assert(out@[k] == prev[k]);
            } else {
                assert(out@[prev.len() as int].callee@ == all@[jj].callee@);
            }
        }
        i += 1;
    }
    proof {
        if straight_call_body(body@) {
            assert forall|ii: int, f: int, p: int| #[trigger] call_site(tokens_spec(body@), env@, true, ii, f) && 0 <= p
                < env@[f].preconditions@.len() implies #[trigger] instantiated(out@, env@[f], p) by {
                let sm = env@[f];
                assert(instantiated(all@, sm, p));
                let k = choose|k: int| 0 <= k < all@.len() && (#[trigger] all@[k]).callee@ == sm.name@ && exists|args: Seq<Seq<char>>|
                    args.len() == sm.params@.len() && all@[k].condition@ == substituted(tokens_spec(sm.preconditions@[p]@),
                    sm.params@, args);
                let k2 = choose|k2: int| 0 <= k2 < out@.len() && (#[trigger] out@[k2]).callee@ == all@[k].callee@
                    && out@[k2].condition@ == all@[k].condition@;
                assert(out@[k2].callee@ == sm.name@);
            }
        }
    }
    out
}

/// A condition the compiler's facts should cover: no braces, no `let`.
pub fn token_call_obligation_needs_semantic_coverage(condition: &[char]) -> (r: bool)
    ensures
        r == (!condition@.contains('{') && !condition@.contains('}') && !tokens_spec(condition@).contains("let"@)),
{
    !contains_char(condition, '{') && !contains_char(condition, '}') && !texts_contain(&tokens(condition), &chars_of("let"))
}

/// A call precondition the tokens show that the compiler's facts do not;
/// `None` when no facts are given.
#[verifier::loop_isolation(false)]
pub fn semantic_call_extraction_gap(body: &[char], env: &Vec<TrustFunctionSummary>, semantics: Option<&TrustFunctionSemantics>) -> (r: Option<Vec<char>>)
    ensures
        semantics is None ==> r is None,
        r matches Some(c) ==> needs_call_coverage(c@),
        (semantics matches Some(s) && call_obligation_total(s.calls@, env@) == 0 && straight_call_body(body@)) ==> forall|
            i: int,
            f: int,
            p: int,
        | #[trigger] uncovered_call_site(tokens_spec(body@), env@, i, f, p) ==> r is Some,
{
    if semantics.is_none() {
        return None;
    }
    let semantic = semantic_call_obligations(semantics, env);
    let mut conditions: Vec<Vec<char>> = Vec::new();
    let mut i: usize = 0;
    while i < semantic.len()
        invariant
            conditions@.len() == i,
            i <= semantic@.len(),
        decreases semantic.len() - i,
    {
        conditions.push(normalize(&semantic[i].condition));
        i += 1;
    }
    let tokens_obs = unambiguous_call_obligations(body, env);
    let mut j: usize = 0;
    while j < tokens_obs.len()
        invariant
            j <= tokens_obs@.len(),
            semantic@.len() == 0 ==> forall|q: int| 0 <= q < j ==> !needs_call_coverage(#[trigger] tokens_obs@[q].condition@),
        decreases tokens_obs.len() - j,
    {
        let c = &tokens_obs[j].condition;
        if token_call_obligation_needs_semantic_coverage(c) && !texts_contain(&conditions, &normalize(c)) {
            return Some(copy(c));
        }
        proof {
            if semantic@.len() == 0 {
                assert(views(conditions@).len() == 0);
                assert(!views(conditions@).contains(crate::text::strip_ws(c@)));
            }
        }
        j += 1;
    }
    proof {
        if semantics is Some && call_obligation_total(semantics->0.calls@, env@) == 0 && straight_call_body(body@) {
            assert(semantic@.len() == 0);
            assert forall|ii: int, f: int, p: int| #[trigger] uncovered_call_site(tokens_spec(body@), env@, ii, f, p)
                implies false by {
                let sm = env@[f];
                assert(instantiated(tokens_obs@, sm, p));
                let k = choose|k: int| 0 <= k < tokens_obs@.len() && (#[trigger] tokens_obs@[k]).callee@ == sm.name@
                    && exists|args: Seq<Seq<char>>| args.len() == sm.params@.len() && tokens_obs@[k].condition@ == substituted(
                    tokens_spec(sm.preconditions@[p]@), sm.params@, args);
                let args = choose|args: Seq<Seq<char>>| args.len() == sm.params@.len() && tokens_obs@[k].condition@
                    == substituted(tokens_spec(sm.preconditions@[p]@), sm.params@, args);
                assert(needs_call_coverage(substituted(tokens_spec(sm.preconditions@[p]@), sm.params@, args)));
                assert(!needs_call_coverage(tokens_obs@[k].condition@));
            }
        }
    }
    None
}

/// A call site of precondition `p` of `env[f]` whose instantiated
/// condition needs the compiler's cover whatever the arguments.
pub open spec fn uncovered_call_site(t: Seq<Seq<char>>, env: Seq<TrustFunctionSummary>, i: int, f: int, p: int) -> bool {
    &&& call_site(t, env, false, i, f)
    &&& 0 <= p < env[f].preconditions@.len()
    &&& forall|args: Seq<Seq<char>>| args.len() == env[f].params@.len() ==> needs_call_coverage(
        #[trigger] substituted(tokens_spec(env[f].preconditions@[p]@), env[f].params@, args))
}

/// A call condition the compiler's facts are expected to cover: no braces
/// and no `let`.
pub open spec fn needs_call_coverage(c: Seq<char>) -> bool {
    !c.contains('{') && !c.contains('}') && !tokens_spec(c).contains("let"@)
}

/// A proof body step other than `assert`: a macro other than `assert!`, or
/// a free call other than `assert`, `int`, `old`, `forall`, `exists`, `implies`.
pub open spec fn unsupported_step_at(t: Seq<Seq<char>>, idx: int) -> bool {
    &&& 0 <= idx && idx + 3 <= t.len()
    &&& ((t[idx + 1] == "!"@ && t[idx + 2] == "("@ && t[idx] != "assert"@) || (t[idx + 1] == "("@ && ident_spec(t[idx])
        && !(idx > 0 && t[idx - 1] == "."@) && !(t[idx] == "assert"@ || t[idx] == "int"@ || t[idx] == "old"@ || t[idx]
        == "forall"@ || t[idx] == "exists"@ || t[idx] == "implies"@)))
}

pub fn contains_unsupported_proof_step(body: &[char]) -> (r: bool)
    ensures
        r == exists|idx: int| unsupported_step_at(tokens_spec(body@), idx),
{
    let t = tokens(body);
    let ghost tv = views(t@);
    proof { reveal_strlit("!"); reveal_strlit("("); reveal_strlit("."); }
    let mut idx: usize = 0;
    while idx < t.len() && t.len() - idx >= 3
        invariant
            tv == views(t@),
            tv == tokens_spec(body@),
            "!"@ == seq!['!'],
            "("@ == seq!['('],
            "."@ == seq!['.'],
            forall|j: int| 0 <= j < idx ==> !unsupported_step_at(tv, j),
        decreases t.len() - idx,
    {
        let name = &t[idx];
        if tok_char(&t, idx + 1, '!') && tok_char(&t, idx + 2, '(') && !is_lit(name, "assert") {
            assert(unsupported_step_at(tv, idx as int));
            return true;
        }
        if tok_char(&t, idx + 1, '(') && is_ident(name) && !(idx > 0 && tok_char(&t, idx - 1, '.'))
            && !(is_lit(name, "assert") || is_lit(name, "int") || is_lit(name, "old") || is_lit(name, "forall")
            || is_lit(name, "exists") || is_lit(name, "implies")) {
            assert(unsupported_step_at(tv, idx as int));
            return true;
        }
        idx += 1;
    }
    assert forall|j: int| !unsupported_step_at(tv, j) by {
        if 0 <= j < idx {
        }
    }
    false
}

/// `assert(..)` or `assert!(..)` at `idx`, its parentheses at `open` and
/// `close`, asserting `target` up to whitespace.
pub open spec fn asserts_at(t: Seq<Seq<char>>, idx: int, open: int, close: int, target: Seq<char>) -> bool {
    &&& 0 <= idx && idx < open < close < t.len()
    &&& t[idx] == "assert"@
    &&& (open == idx + 1 || (open == idx + 2 && t[idx + 1] == "!"@))
    &&& t[open] == "("@
    &&& t[close] == ")"@
    &&& crate::text::strip_ws(crate::tokens::joined(t.subrange(open + 1, close))) == crate::text::strip_ws(target)
}

/// Where the parentheses of an `assert` at `idx` open.
pub open spec fn assert_open(t: Seq<Seq<char>>, idx: int) -> Option<int> {
    if 0 <= idx && idx + 2 < t.len() && t[idx + 1] == "!"@ && t[idx + 2] == "("@ {
        Some(idx + 2)
    } else if 0 <= idx && idx + 1 < t.len() && t[idx + 1] == "("@ {
        Some(idx + 1)
    } else {
        None
    }
}

/// Where the parentheses of an `assert` at `idx` close.
pub open spec fn assert_close(t: Seq<Seq<char>>, idx: int) -> Option<int> {
    match assert_open(t, idx) {
        Some(o) => crate::tokens::token_group_close(t, '(', ')', o, 0),
        None => None,
    }
}

/// `assert(..)` or `assert!(..)` at `idx` with balanced parentheses.
pub open spec fn assert_group_at(t: Seq<Seq<char>>, idx: int) -> bool {
    0 <= idx < t.len() && t[idx] == "assert"@ && assert_close(t, idx) is Some
}

/// The assertion at `idx` is of `target`, and no assertion before it
/// encloses it.
pub open spec fn visible_assert_of(t: Seq<Seq<char>>, idx: int, target: Seq<char>) -> bool {
    &&& assert_group_at(t, idx)
    &&& asserts_at(t, idx, assert_open(t, idx)->0, assert_close(t, idx)->0, target)
    &&& forall|j: int| 0 <= j < idx && #[trigger] assert_group_at(t, j) ==> assert_close(t, j)->0 < idx
}

/// Whether the body holds `assert(c)` or `assert!(c)` with `c` the
/// obligation up to whitespace.
pub fn proof_body_asserts(body: &[char], obligation: &[char]) -> (r: bool)
    ensures
        r ==> exists|idx: int, open: int, close: int| asserts_at(tokens_spec(body@), idx, open, close, obligation@),
        !crate::tokens::has_token(tokens_spec(body@), "assert"@) ==> !r,
        (exists|idx: int| #[trigger] visible_assert_of(tokens_spec(body@), idx, obligation@)) ==> r,
{
    proof {
        reveal_strlit("!");
        reveal_strlit("(");
        reveal_strlit(")");
    }
    let t = tokens(body);
    let ghost tv = views(t@);
    let target = normalize(obligation);
    let mut idx: usize = 0;
    while idx < t.len() && t.len() - idx >= 2
        invariant
            tv == views(t@),
            tv == tokens_spec(body@),
            target@ == crate::text::strip_ws(obligation@),
            "!"@ == seq!['!'],
            "("@ == seq!['('],
            ")"@ == seq![')'],
            forall|i0: int| #[trigger] visible_assert_of(tv, i0, obligation@) ==> idx <= i0,
        decreases t.len() - idx,
    {
        if !is_lit(&t[idx], "assert") {
            idx += 1;
            continue;
        }
        let open_idx = if tok_char(&t, idx + 1, '!') && tok_char(&t, idx + 2, '(') {
            idx + 2
        } else if tok_char(&t, idx + 1, '(') {
            idx + 1
        } else {
            idx += 1;
            continue;
        };
        let close_idx = match matching_token_group(&t, open_idx, '(', ')') {
            Some(c) => c,
            None => {
                idx += 1;
                continue;
            },
        };
        let assertion = token_expression(&token_range(&t, open_idx + 1, close_idx));
        assert(assert_open(tv, idx as int) == Some(open_idx as int));
        assert(assert_close(tv, idx as int) == Some(close_idx as int));
        assert(assert_group_at(tv, idx as int));
        if same(&normalize(&assertion), &target) {
            assert(tv[idx as int] == "assert"@);
            assert(crate::tokens::has_token(tv, "assert"@));
            assert(asserts_at(tv, idx as int, open_idx as int, close_idx as int, obligation@));
            return true;
        }
        assert forall|i0: int| #[trigger] visible_assert_of(tv, i0, obligation@) implies close_idx + 1 <= i0 by {
            if i0 == idx {
                assert(asserts_at(tv, idx as int, open_idx as int, close_idx as int, obligation@));
            }
        }
        idx = close_idx + 1;
    }
    false
}

} // verus!
