//! Signatures of Trust functions: their parameters and return type, read
//! from the source or from the compiler's facts, and which types the
//! verifier can reason about.

use crate::arith::is_supported_integer;
use crate::index::slice_element_type;
use crate::metadata::TrustMetadata;
use crate::semantics::{SemanticContractBindingKind, TrustFunctionSemantics};
use crate::solver::Param;
use crate::text::{
    append_lit, chars_of, chars_of_string, contains_lit, find_char, is_lit, same, slice_of, split_once_lit,
    starts_with_lit, starts_with_spec, strip_prefix_lit, strip_suffix_lit, trim, trim_spec, views, first_index,
    lemma_first_index, find_spec, pieces_at,
};
use crate::tokens::{tokens, type_name_tail};
use vstd::prelude::*;

verus! {

fn copy(v: &[char]) -> (r: Vec<char>)
    ensures
        r@ == v@,
{
    let r = slice_of(v, 0, v.len());
    assert(v@.subrange(0, v@.len() as int) =~= v@);
    r
}

/// The text between the first `(` and the next `)`, and the index just
/// past that `)`.
pub open spec fn param_list_spec(source: Seq<char>) -> Option<(Seq<char>, int)> {
    match first_index(source, '(', 0) {
        None => None,
        Some(s) => match first_index(source.skip(s + 1), ')', 0) {
            None => None,
            Some(e) => Some((source.skip(s + 1).take(e), s + 1 + e + 1)),
        },
    }
}

fn param_list(source: &[char]) -> (r: Option<(Vec<char>, usize)>)
    ensures
        r is None ==> param_list_spec(source@) is None,
        r matches Some((l, after)) ==> param_list_spec(source@) == Some((l@, after as int)),
        r matches Some((l, after)) ==> after <= source@.len() && l@.len() + 2 <= source@.len(),
        !source@.contains('(') ==> r is None,
{
    let start = match find_char(source, '(') {
        Some(s) => s,
        None => {
            proof {
                lemma_first_index(source@, '(', 0, None);
            }
            return None;
        },
    };
    proof {
        lemma_first_index(source@, '(', 0, Some(start as int));
    }
    let sl = source.len();
    let rest = slice_of(source, start + 1, sl);
    assert(rest@ =~= source@.skip(start + 1));
    let end = match find_char(&rest, ')') {
        Some(e) => e,
        None => {
            proof {
                lemma_first_index(rest@, ')', 0, None);
            }
            return None;
        },
    };
    proof {
        lemma_first_index(rest@, ')', 0, Some(end as int));
    }
    let l = slice_of(&rest, 0, end);
    assert(l@ =~= source@.skip(start + 1).take(end as int));
    Some((l, start + 1 + end + 1))
}

/// A parameter piece `name: ty` as a name and a type; a name loses a
/// leading `mut`; `None` without a `:`.
pub open spec fn param_piece(p: Seq<char>) -> Option<(Seq<char>, Seq<char>)> {
    match find_spec(p, ":"@) {
        None => None,
        Some(j) => {
            let name = trim_spec(p.take(j));
            Some((if starts_with_spec(name, "mut"@) { name.skip("mut"@.len() as int) } else { name }, trim_spec(p.skip(j + ":"@.len()))))
        },
    }
}

/// The parameters of the pieces that have a `:`, in order.
pub open spec fn params_of_pieces(ps: Seq<Seq<char>>) -> Seq<(Seq<char>, Seq<char>)>
    decreases ps.len(),
{
    if ps.len() == 0 {
        seq![]
    } else {
        match param_piece(ps[0]) {
            Some(p) => seq![p] + params_of_pieces(ps.skip(1)),
            None => params_of_pieces(ps.skip(1)),
        }
    }
}

/// The parameters of a signature text.
pub open spec fn params_spec(source: Seq<char>) -> Seq<(Seq<char>, Seq<char>)> {
    match param_list_spec(source) {
        None => seq![],
        Some((l, _)) => params_of_pieces(pieces_at(l, ',')),
    }
}

/// Each parameter as its name and type.
pub open spec fn param_pairs(ps: Seq<Param>) -> Seq<(Seq<char>, Seq<char>)> {
    Seq::new(ps.len(), |k: int| (ps[k].name@, ps[k].ty@))
}

proof fn lemma_params_of_pieces_push(a: Seq<Seq<char>>, p: Seq<char>, rest: Seq<Seq<char>>)
    ensures
        params_of_pieces(seq![p] + rest) == (match param_piece(p) {
            Some(x) => seq![x],
            None => seq![],
        }) + params_of_pieces(rest),
{
    let s = seq![p] + rest;
    assert(s[0] == p);
    assert(s.skip(1) =~= rest);
    match param_piece(p) {
        Some(x) => {},
        None => {
            assert(Seq::<(Seq<char>, Seq<char>)>::empty() + params_of_pieces(rest) =~= params_of_pieces(rest));
        },
    }
}

/// `name: ty` pairs between the first `(` and the next `)`, split at
/// commas; a name loses a leading `mut`; pieces without `:` are skipped.
pub fn parse_params(source: &[char]) -> (r: Vec<Param>)
    ensures
        param_pairs(r@) == params_spec(source@),
        !source@.contains('(') ==> r@.len() == 0,
{
    let mut out: Vec<Param> = Vec::new();
    let list = match param_list(source) {
        Some((l, _)) => l,
        None => {
            assert(param_pairs(out@) =~= params_spec(source@));
            return out;
        },
    };
    let ghost all = params_of_pieces(pieces_at(list@, ','));
    let mut start: usize = 0;
    let mut i: usize = 0;
    let n = list.len();
    assert(list@.skip(0) =~= list@);
    while i <= n
        invariant_except_break
            start <= i <= n,
            n == list@.len(),
            n + 2 <= source@.len(),
            all == params_of_pieces(pieces_at(list@, ',')),
            params_spec(source@) == all,
            all == param_pairs(out@) + params_of_pieces(pieces_at(list@.skip(start as int), ',')),
            forall|k: int| start <= k < i ==> list@[k] != ',',
        ensures
            params_spec(source@) == param_pairs(out@),
        decreases n + 1 - i,
    {
        if i == n || list[i] == ',' {
            let piece = slice_of(&list, start, i);
            proof {
                crate::text::lemma_pieces_step(list@, ',', start as int, i as int);
                lemma_params_of_pieces_push(seq![], piece@, if i == n { seq![] } else { pieces_at(list@.skip(i + 1), ',') });
                assert(piece@ =~= list@.subrange(start as int, i as int));
                if i == n {
                    assert(seq![piece@] =~= seq![piece@] + Seq::<Seq<char>>::empty());
                }
            }
            let ghost before = out@;
            match split_once_lit(&piece, ":") {
                Some((name, ty)) => {
                    let name = trim(&name);
                    let name = match strip_prefix_lit(&name, "mut") {
                        Some(rest) => rest,
                        None => name,
                    };
                    out.push(Param { name, ty: trim(&ty) });
                    assert(param_pairs(out@) =~= param_pairs(before) + seq![param_piece(piece@)->0]);
                },
                None => {},
            }
            if i == n {
                assert(all =~= param_pairs(out@));
                break;
            }
            start = i + 1;
        }
        i += 1;
    }
    out
}

/// The return type of a signature text: after `->` right behind the
/// parameters, up to the body's `{`, trimmed; `()` otherwise.
pub open spec fn return_type_spec(source: Seq<char>) -> Seq<char> {
    match param_list_spec(source) {
        None => "()"@,
        Some((_, after)) => {
            let rest = source.skip(after);
            if starts_with_spec(rest, "->"@) {
                let a = rest.skip("->"@.len() as int);
                match find_spec(a, "{"@) {
                    Some(i) => trim_spec(a.take(i)),
                    None => trim_spec(a),
                }
            } else {
                "()"@
            }
        },
    }
}

/// The text after `->` up to the body's `{`, trimmed; `()` when the
/// signature has no `->` right after the parameters.
pub fn parse_return_type(source: &[char]) -> (r: Vec<char>)
    ensures
        r@ == return_type_spec(source@),
        !source@.contains('(') ==> r@ == "()"@,
{
    let unit = chars_of("()");
    let after = match param_list(source) {
        Some((_, after)) => after,
        None => return unit,
    };
    let sl = source.len();
    let rest = slice_of(source, after, sl);
    assert(rest@ =~= source@.skip(after as int));
    let after_arrow = match strip_prefix_lit(&rest, "->") {
        Some(a) => a,
        None => return unit,
    };
    match split_once_lit(&after_arrow, "{") {
        Some((ty, _)) => trim(&ty),
        None => trim(&after_arrow),
    }
}

/// The compiler's parameters when it reports any, else those of the source.
pub fn verification_params(source: &[char], semantics: Option<&TrustFunctionSemantics>) -> (r: Vec<Param>)
    ensures
        semantics is None ==> param_pairs(r@) == params_spec(source@),
        semantics is Some && semantics.unwrap().params@.len() > 0 ==> r@.len() == semantics.unwrap().params@.len()
            && forall|k: int| 0 <= k < r@.len() ==> r@[k].name@ == semantics.unwrap().params@[k].name@ && r@[k].ty@
                == semantics.unwrap().params@[k].ty@,
{
    match semantics {
        Some(s) => {
            if s.params.len() > 0 {
                let mut out: Vec<Param> = Vec::new();
                let mut i: usize = 0;
                while i < s.params.len()
                    invariant
                        i <= s.params@.len(),
                        out@.len() == i,
                        forall|k: int| 0 <= k < i ==> out@[k].name@ == s.params@[k].name@ && out@[k].ty@
                            == s.params@[k].ty@,
                    decreases s.params.len() - i,
                {
                    out.push(Param { name: chars_of_string(&s.params[i].name), ty: chars_of_string(&s.params[i].ty) });
                    i += 1;
                }
                return out;
            }
            parse_params(source)
        },
        None => parse_params(source),
    }
}

/// The compiler's return type when facts are given, else the source's.
pub fn verification_return_type(source: &[char], semantics: Option<&TrustFunctionSemantics>) -> (r: Vec<char>)
    ensures
        semantics is None ==> r@ == return_type_spec(source@),
        semantics matches Some(s) ==> r@ == s.return_type@,
{
    match semantics {
        Some(s) => chars_of_string(&s.return_type),
        None => parse_return_type(source),
    }
}

/// The types of the locals the compiler reports; none without facts.
pub fn verification_local_types(semantics: Option<&TrustFunctionSemantics>) -> (r: Vec<Vec<char>>)
    ensures
        semantics is None ==> r@.len() == 0,
        semantics matches Some(s) ==> r@.len() == s.local_types@.len() && forall|k: int|
            0 <= k < r@.len() ==> r@[k]@ == s.local_types@[k]@,
{
    let mut out: Vec<Vec<char>> = Vec::new();
    match semantics {
        Some(s) => {
            let mut i: usize = 0;
            while i < s.local_types.len()
                invariant
                    i <= s.local_types@.len(),
                    out@.len() == i,
                    forall|k: int| 0 <= k < i ==> out@[k]@ == s.local_types@[k]@,
                decreases s.local_types.len() - i,
            {
                out.push(chars_of_string(&s.local_types[i]));
                i += 1;
            }
            out
        },
        None => out,
    }
}

/// How far the verifier can reason about values of a type.
pub enum MvpTypeSupport {
    Supported,
    /// Values pass through but their contents cannot be reasoned about.
    Opaque,
    /// The type cannot appear at all; carries the offending type.
    Unsupported(Vec<char>),
}

/// The arguments between `<` and `>` after a type's name (bare, or under
/// `core::`/`std::` `option`/`result`), trimmed.
/// The names a type may go by: bare, or under `core::`/`std::`
/// `option`/`result`.
pub open spec fn type_prefixes(name: Seq<char>) -> Seq<Seq<char>> {
    seq![name, "core::option::"@ + name, "std::option::"@ + name, "core::result::"@ + name, "std::result::"@ + name]
}

/// The arguments after the first of the names `t` starts with, from the
/// `k`-th on: what lies between a leading `<` and a trailing `>`, trimmed.
pub open spec fn type_args_from(t: Seq<char>, ps: Seq<Seq<char>>, k: int) -> Option<Seq<char>>
    decreases ps.len() - k,
{
    if k < 0 || k >= ps.len() {
        None
    } else if starts_with_spec(t, ps[k]) {
        let args = t.skip(ps[k].len() as int);
        if starts_with_spec(args, "<"@) {
            let a = args.skip("<"@.len() as int);
            if crate::text::ends_with_spec(a, ">"@) {
                Some(trim_spec(a.take(a.len() - ">"@.len())))
            } else {
                None
            }
        } else {
            None
        }
    } else {
        type_args_from(t, ps, k + 1)
    }
}

pub fn type_args(ty: &[char], name: &str) -> (r: Option<Vec<char>>)
    ensures
        r matches Some(a) ==> a@.len() + 2 <= ty@.len(),
        r is Some == type_args_from(trim_spec(ty@), type_prefixes(name@), 0) is Some,
        r matches Some(a) ==> type_args_from(trim_spec(ty@), type_prefixes(name@), 0) == Some(a@),
{
    proof {
        reveal_strlit("<");
        reveal_strlit(">");
    }
    let t = trim(ty);
    let mut prefixes: Vec<Vec<char>> = Vec::new();
    prefixes.push(chars_of(name));
    let mut p = chars_of("core::option::");
    append_lit(&mut p, name);
    prefixes.push(p);
    let mut p = chars_of("std::option::");
    append_lit(&mut p, name);
    prefixes.push(p);
    let mut p = chars_of("core::result::");
    append_lit(&mut p, name);
    prefixes.push(p);
    let mut p = chars_of("std::result::");
    append_lit(&mut p, name);
    prefixes.push(p);
    assert(views(prefixes@) =~= type_prefixes(name@));
    let mut k: usize = 0;
    while k < prefixes.len()
        invariant
            t@.len() <= ty@.len(),
            t@ == trim_spec(ty@),
            views(prefixes@) == type_prefixes(name@),
            k <= prefixes@.len(),
            type_args_from(t@, type_prefixes(name@), 0) == type_args_from(t@, type_prefixes(name@), k as int),
        decreases prefixes.len() - k,
    {
        assert(views(prefixes@)[k as int] == prefixes@[k as int]@);
        if crate::text::starts_with(&t, &prefixes[k]) {
            let pl = prefixes[k].len();
            let tl = t.len();
            let args = slice_of(&t, pl, tl);
            assert(args@ =~= t@.skip(pl as int));
            proof {
                reveal_strlit("<");
                reveal_strlit(">");
            }
            return match strip_prefix_lit(&args, "<") {
                Some(a) => match strip_suffix_lit(&a, ">") {
                    Some(inner) => Some(trim(&inner)),
                    None => None,
                },
                None => None,
            };
        }
        k += 1;
    }
    None
}

/// Top-level comma-separated parts of a type-argument list, trimmed,
/// empty parts dropped.
/// The part `a[start..end]`, trimmed, when not empty.
pub open spec fn kept_part(a: Seq<char>, start: int, end: int) -> Seq<Seq<char>> {
    if trim_spec(a.subrange(start, end)).len() > 0 {
        seq![trim_spec(a.subrange(start, end))]
    } else {
        seq![]
    }
}

/// The top-level parts from position `i` on, the current part starting
/// at `start` at nesting `depth`.
pub open spec fn type_arg_parts(a: Seq<char>, i: int, start: int, depth: int) -> Seq<Seq<char>>
    decreases a.len() - i,
{
    if i < 0 || i >= a.len() {
        kept_part(a, start, a.len() as int)
    } else if a[i] == '<' {
        type_arg_parts(a, i + 1, start, depth + 1)
    } else if a[i] == '>' {
        type_arg_parts(a, i + 1, start, if depth > 0 { depth - 1 } else { 0 })
    } else if a[i] == ',' && depth == 0 {
        kept_part(a, start, i) + type_arg_parts(a, i + 1, i + 1, depth)
    } else {
        type_arg_parts(a, i + 1, start, depth)
    }
}

pub fn split_type_args(args: &[char]) -> (r: Vec<Vec<char>>)
    ensures
        forall|k: int| 0 <= k < r@.len() ==> (#[trigger] r@[k])@.len() <= args@.len(),
        views(r@) == type_arg_parts(args@, 0, 0, 0),
{
    let mut parts: Vec<Vec<char>> = Vec::new();
    let mut start: usize = 0;
    let mut depth: usize = 0;
    let mut i: usize = 0;
    while i < args.len()
        invariant
            start <= i <= args.len(),
            depth <= i,
            forall|k: int| 0 <= k < parts@.len() ==> (#[trigger] parts@[k])@.len() <= args@.len(),
            type_arg_parts(args@, 0, 0, 0) == views(parts@) + type_arg_parts(args@, i as int, start as int, depth as int),
        decreases args.len() - i,
    {
        let ghost before = parts@;
        if args[i] == '<' {
            depth = depth.saturating_add(1);
        } else if args[i] == '>' {
            depth = depth.saturating_sub(1);
        } else if args[i] == ',' && depth == 0 {
            let part = trim(&slice_of(args, start, i));
            if part.len() > 0 {
                parts.push(part);
            }
            proof {
                assert(views(parts@) =~= views(before) + kept_part(args@, start as int, i as int));
                assert(views(before) + (kept_part(args@, start as int, i as int) + type_arg_parts(args@, i + 1, i + 1, 0))
                    =~= views(parts@) + type_arg_parts(args@, i + 1, i + 1, 0));
            }
            start = i + 1;
        }
        i += 1;
    }
    let al = args.len();
    let ghost before = parts@;
    let part = trim(&slice_of(args, start, al));
    if part.len() > 0 {
        parts.push(part);
    }
    assert(views(parts@) =~= views(before) + kept_part(args@, start as int, al as int));
    parts
}

/// The one type argument of `name<..>`.
pub open spec fn single_type_arg_spec(ty: Seq<char>, name: Seq<char>) -> Option<Seq<char>> {
    match type_args_from(trim_spec(ty), type_prefixes(name), 0) {
        Some(a) => if type_arg_parts(a, 0, 0, 0).len() == 1 {
            Some(type_arg_parts(a, 0, 0, 0)[0])
        } else {
            None
        },
        None => None,
    }
}

pub fn single_type_arg(ty: &[char], name: &str) -> (r: Option<Vec<char>>)
    ensures
        r matches Some(a) ==> a@.len() < ty@.len(),
        r is Some == single_type_arg_spec(ty@, name@) is Some,
        r matches Some(a) ==> single_type_arg_spec(ty@, name@) == Some(a@),
{
    match type_args(ty, name) {
        Some(args) => {
            let parts = split_type_args(&args);
            assert(views(parts@).len() == parts@.len());
            if parts.len() == 1 {
                assert(views(parts@)[0] == parts@[0]@);
                Some(copy(&parts[0]))
            } else {
                None
            }
        },
        None => None,
    }
}

/// Whether a type names one of the `TrustModel` types (by its last path
/// segment).
fn is_model_type(ty: &[char], model_types: &Vec<Vec<char>>) -> (r: bool)
    ensures
        r == views(model_types@).contains(crate::tokens::type_name_tail_spec(ty@)),
{
    let tail = type_name_tail(ty);
    crate::text::texts_contain(model_types, &tail)
}

/// The first unsupported part, else opaque when any part is opaque.
pub open spec fn combine_spec(s: Seq<MvpTypeSupport>, i: int, saw_opaque: bool) -> MvpTypeSupport
    decreases s.len() - i,
{
    if i < 0 || i >= s.len() {
        if saw_opaque {
            MvpTypeSupport::Opaque
        } else {
            MvpTypeSupport::Supported
        }
    } else {
        match s[i] {
            MvpTypeSupport::Unsupported(t) => MvpTypeSupport::Unsupported(t),
            MvpTypeSupport::Opaque => combine_spec(s, i + 1, true),
            MvpTypeSupport::Supported => combine_spec(s, i + 1, saw_opaque),
        }
    }
}

/// What a type's parts make it, as far as is known.
pub open spec fn support_view(s: MvpTypeSupport) -> Option<Seq<char>> {
    match s {
        MvpTypeSupport::Unsupported(t) => Some(t@),
        _ => None,
    }
}

/// Unsupported when any part is, else opaque when any part is.
pub fn combine_type_support(supports: Vec<MvpTypeSupport>) -> (r: MvpTypeSupport)
    ensures
        (r is Unsupported) == (combine_spec(supports@, 0, false) is Unsupported),
        (r is Opaque) == (combine_spec(supports@, 0, false) is Opaque),
        support_view(r) == support_view(combine_spec(supports@, 0, false)),
{
    let mut saw_opaque = false;
    let mut i: usize = 0;
    while i < supports.len()
        invariant
            i <= supports@.len(),
            combine_spec(supports@, 0, false) == combine_spec(supports@, i as int, saw_opaque),
        decreases supports.len() - i,
    {
        match &supports[i] {
            MvpTypeSupport::Unsupported(t) => return MvpTypeSupport::Unsupported(copy(t)),
            MvpTypeSupport::Opaque => {
                saw_opaque = true;
            },
            MvpTypeSupport::Supported => {},
        }
        i += 1;
    }
    if saw_opaque {
        MvpTypeSupport::Opaque
    } else {
        MvpTypeSupport::Supported
    }
}

/// Unit, `bool`, checked integers and model types (by last path
/// segment), after trimming.
pub open spec fn plainly_supported(t: Seq<char>, model_types: Seq<Seq<char>>) -> bool {
    t.len() == 0 || t == "()"@ || t == "bool"@ || crate::arith::int_type_spec(t) || model_types.contains(
        crate::tokens::type_name_tail_spec(t))
}

/// Floats, raw pointers, `&mut` and trait objects, after trimming.
pub open spec fn plainly_unsupported(t: Seq<char>) -> bool {
    t == "f32"@ || t == "f64"@ || starts_with_spec(t, "*const "@) || starts_with_spec(t, "*mut "@) || starts_with_spec(
        t, "&mut "@) || starts_with_spec(t, "dyn "@) || crate::text::find_spec(t, " dyn "@) is Some
}

/// A type the verifier carries without reading: neither plainly supported
/// nor plainly unsupported, and no slice, `Option` or `Result`.
pub open spec fn plainly_opaque(t: Seq<char>, model_types: Seq<Seq<char>>) -> bool {
    &&& !plainly_supported(t, model_types)
    &&& !plainly_unsupported(t)
    &&& crate::index::slice_element_spec(t) is None
    &&& single_type_arg_spec(t, "Option"@) is None
    &&& single_type_arg_spec(t, "Some"@) is None
    &&& type_args_from(trim_spec(t), type_prefixes("Result"@), 0) is None
}

/// All the tokens of the contracts, in order.
pub open spec fn contract_tokens_spec(cs: Seq<String>) -> Seq<Seq<char>>
    decreases cs.len(),
{
    if cs.len() == 0 {
        seq![]
    } else {
        contract_tokens_spec(cs.drop_last()) + crate::tokens::tokens_spec(cs.last()@)
    }
}

/// Unit, `bool`, checked integers and model types are supported; floats,
/// raw pointers, `&mut` and trait objects are not; slices, `Option` and
/// `Result` are what their arguments are; anything else is opaque.
pub fn mvp_type_support(ty: &[char], model_types: &Vec<Vec<char>>) -> (r: MvpTypeSupport)
    ensures
        plainly_supported(trim_spec(ty@), views(model_types@)) ==> r is Supported,
        !plainly_supported(trim_spec(ty@), views(model_types@)) && plainly_unsupported(trim_spec(ty@)) ==> support_view(r)
            == Some(trim_spec(ty@)),
        plainly_opaque(trim_spec(ty@), views(model_types@)) ==> r is Opaque,
    decreases ty@.len(),
{
    let t = trim(ty);
    if t.len() == 0 || is_lit(&t, "()") || is_lit(&t, "bool") || is_supported_integer(&t) || is_model_type(&t, model_types) {
        return MvpTypeSupport::Supported;
    }
    if is_lit(&t, "f32") || is_lit(&t, "f64") || starts_with_lit(&t, "*const ") || starts_with_lit(&t, "*mut ")
        || starts_with_lit(&t, "&mut ") || starts_with_lit(&t, "dyn ") || contains_lit(&t, " dyn ") {
        return MvpTypeSupport::Unsupported(t);
    }
    if let Some(element) = slice_element_type(&t) {
        return mvp_type_support(&element, model_types);
    }
    if let Some(inner) = single_type_arg(&t, "Option") {
        return mvp_type_support(&inner, model_types);
    }
    if let Some(inner) = single_type_arg(&t, "Some") {
        return mvp_type_support(&inner, model_types);
    }
    if let Some(args) = type_args(&t, "Result") {
        let parts = split_type_args(&args);
        let mut supports: Vec<MvpTypeSupport> = Vec::new();
        let mut i: usize = 0;
        while i < parts.len()
            invariant
                t@.len() <= ty@.len(),
                args@.len() + 2 <= t@.len(),
                forall|k: int| 0 <= k < parts@.len() ==> (#[trigger] parts@[k])@.len() <= args@.len(),
            decreases parts.len() - i,
        {
            supports.push(mvp_type_support(&parts[i], model_types));
            i += 1;
        }
        return combine_type_support(supports);
    }
    MvpTypeSupport::Opaque
}

/// The offending type when the type cannot appear at all.
pub fn unsupported_mvp_type(ty: &[char], model_types: &Vec<Vec<char>>) -> (r: Option<Vec<char>>)
    ensures
        plainly_supported(trim_spec(ty@), views(model_types@)) ==> r is None,
        !plainly_supported(trim_spec(ty@), views(model_types@)) && plainly_unsupported(trim_spec(ty@)) ==> (r matches Some(t)
            && t@ == trim_spec(ty@)),
{
    match mvp_type_support(ty, model_types) {
        MvpTypeSupport::Unsupported(t) => Some(t),
        _ => None,
    }
}

/// A type the verifier refuses outright: one it cannot reason about
/// (a float, a raw pointer, `&mut`, a trait object) and not a plainly
/// supported one.
pub open spec fn refused_type(t: Seq<char>, model_types: Seq<Seq<char>>) -> bool {
    !plainly_supported(t, model_types) && plainly_unsupported(t)
}

/// The first unsupported type among the parameters, the return type and
/// the locals, in that order.
pub fn unsupported_function_type(params: &Vec<Param>, return_type: &[char], local_types: &Vec<Vec<char>>, model_types: &Vec<Vec<char>>) -> (r: Option<Vec<char>>)
    ensures
        r is None ==> (forall|k: int| 0 <= k < params@.len() ==> !refused_type(trim_spec(#[trigger] params@[k].ty@), views(
            model_types@))) && !refused_type(trim_spec(return_type@), views(model_types@)) && (forall|k: int| 0 <= k
            < local_types@.len() ==> !refused_type(trim_spec(#[trigger] local_types@[k]@), views(model_types@))),
        (forall|k: int| 0 <= k < params@.len() ==> plainly_supported(trim_spec(#[trigger] params@[k].ty@), views(model_types@)))
            && plainly_supported(trim_spec(return_type@), views(model_types@)) && (forall|k: int| 0 <= k < local_types@.len()
            ==> plainly_supported(trim_spec(#[trigger] local_types@[k]@), views(model_types@))) ==> r is None,
{
    let mut i: usize = 0;
    while i < params.len()
        invariant
            forall|k: int| 0 <= k < i ==> !refused_type(trim_spec(#[trigger] params@[k].ty@), views(model_types@)),
        decreases params.len() - i,
    {
        if let Some(t) = unsupported_mvp_type(&params[i].ty, model_types) {
            return Some(t);
        }
        i += 1;
    }
    if let Some(t) = unsupported_mvp_type(return_type, model_types) {
        return Some(t);
    }
    let mut i: usize = 0;
    while i < local_types.len()
        invariant
            forall|k: int| 0 <= k < i ==> !refused_type(trim_spec(#[trigger] local_types@[k]@), views(model_types@)),
        decreases local_types.len() - i,
    {
        if let Some(t) = unsupported_mvp_type(&local_types[i], model_types) {
            return Some(t);
        }
        i += 1;
    }
    None
}

fn is_opaque(support: &MvpTypeSupport) -> (r: bool)
    ensures
        r == (support is Opaque),
{
    match support {
        MvpTypeSupport::Opaque => true,
        _ => false,
    }
}

/// An opaque type that a contract mentions: the return type when a
/// contract names `out`, else the first parameter a contract names.
#[verifier::loop_isolation(false)]
pub fn opaque_contract_type(params: &Vec<Param>, return_type: &[char], metadata: &TrustMetadata, model_types: &Vec<Vec<char>>) -> (r: Option<Vec<char>>)
    ensures
        metadata.contracts_normalized@.len() == 0 ==> r is None,
        contract_tokens_spec(metadata.contracts_normalized@).contains("out"@) && plainly_opaque(trim_spec(return_type@),
            views(model_types@)) ==> (r matches Some(t) && t@ == trim_spec(return_type@)),
        r matches Some(t) ==> (t@ == trim_spec(return_type@) && contract_tokens_spec(metadata.contracts_normalized@).contains(
            "out"@)) || exists|k: int| 0 <= k < params@.len() && t@ == trim_spec(params@[k].ty@)
            && contract_tokens_spec(metadata.contracts_normalized@).contains(params@[k].name@),
        r matches Some(t) ==> !plainly_supported(t@, views(model_types@)),
{
    let mut contract_tokens: Vec<Vec<char>> = Vec::new();
    let mut i: usize = 0;
    while i < metadata.contracts_normalized.len()
        invariant
            metadata.contracts_normalized@.len() == 0 ==> contract_tokens@.len() == 0,
            i <= metadata.contracts_normalized@.len(),
            views(contract_tokens@) == contract_tokens_spec(metadata.contracts_normalized@.subrange(0, i as int)),
        decreases metadata.contracts_normalized.len() - i,
    {
        proof {
            assert(metadata.contracts_normalized@.subrange(0, i + 1).drop_last() =~= metadata.contracts_normalized@.subrange(
                0,
                i as int,
            ));
        }
        let ghost base = views(contract_tokens@);
        let t = tokens(&chars_of_string(&metadata.contracts_normalized[i]));
        let mut j: usize = 0;
        while j < t.len()
            invariant
                metadata.contracts_normalized@.len() > 0,
                j <= t@.len(),
                views(contract_tokens@) == base + views(t@).subrange(0, j as int),
            decreases t.len() - j,
        {
            let ghost before = contract_tokens@;
            contract_tokens.push(copy(&t[j]));
            assert(views(contract_tokens@) =~= views(before).push(t@[j as int]@));
            assert(views(t@)[j as int] == t@[j as int]@);
            assert(views(contract_tokens@) =~= base + views(t@).subrange(0, j + 1));
            j += 1;
        }
        assert(views(t@).subrange(0, t@.len() as int) =~= views(t@));
        i += 1;
    }
    assert(metadata.contracts_normalized@.subrange(0, metadata.contracts_normalized@.len() as int)
        =~= metadata.contracts_normalized@);
    if contract_tokens.len() == 0 {
        return None;
    }
    if crate::text::texts_contain(&contract_tokens, &chars_of("out")) && is_opaque(&mvp_type_support(return_type, model_types)) {
        return Some(trim(return_type));
    }
    let mut k: usize = 0;
    while k < params.len()
        invariant
            views(contract_tokens@) == contract_tokens_spec(metadata.contracts_normalized@),
        decreases params.len() - k,
    {
        if crate::text::texts_contain(&contract_tokens, &params[k].name) && is_opaque(&mvp_type_support(&params[k].ty, model_types)) {
            return Some(trim(&params[k].ty));
        }
        k += 1;
    }
    None
}

fn has_param_named(params: &Vec<Param>, name: &[char]) -> (r: bool)
    ensures
        r == exists|k: int| 0 <= k < params@.len() && (#[trigger] params@[k]).name@ == name@,
{
    let mut i: usize = 0;
    while i < params.len()
        invariant
            forall|k: int| 0 <= k < i ==> (#[trigger] params@[k]).name@ != name@,
        decreases params.len() - i,
    {
        if same(&params[i].name, name) {
            return true;
        }
        i += 1;
    }
    false
}

/// The parameters, then each field access and each field or local
/// contract binding the compiler reports, under its expression or name,
/// unless that name is already there.
pub fn verification_value_params(params: &Vec<Param>, semantics: Option<&TrustFunctionSemantics>) -> (r: Vec<Param>)
    ensures
        r@.len() >= params@.len(),
        forall|k: int| 0 <= k < params@.len() ==> r@[k].name@ == params@[k].name@ && r@[k].ty@ == params@[k].ty@,
        semantics is None ==> r@.len() == params@.len(),
{
    let mut out: Vec<Param> = Vec::new();
    let mut i: usize = 0;
    while i < params.len()
        invariant
            i <= params@.len(),
            out@.len() == i,
            forall|k: int| 0 <= k < i ==> out@[k].name@ == params@[k].name@ && out@[k].ty@ == params@[k].ty@,
        decreases params.len() - i,
    {
        out.push(Param { name: copy(&params[i].name), ty: copy(&params[i].ty) });
        i += 1;
    }
    let s = match semantics {
        Some(s) => s,
        None => return out,
    };
    let mut f: usize = 0;
    while f < s.field_accesses.len()
        invariant
            out@.len() >= params@.len(),
            forall|k: int| 0 <= k < params@.len() ==> out@[k].name@ == params@[k].name@ && out@[k].ty@ == params@[k].ty@,
        decreases s.field_accesses.len() - f,
    {
        let name = chars_of_string(&s.field_accesses[f].expression);
        if !has_param_named(&out, &name) {
            out.push(Param { name, ty: chars_of_string(&s.field_accesses[f].field_type) });
        }
        f += 1;
    }
    let mut b: usize = 0;
    while b < s.contract_bindings.len()
        invariant
            out@.len() >= params@.len(),
            forall|k: int| 0 <= k < params@.len() ==> out@[k].name@ == params@[k].name@ && out@[k].ty@ == params@[k].ty@,
        decreases s.contract_bindings.len() - b,
    {
        let binding = &s.contract_bindings[b];
        let kind_ok = match binding.kind {
            SemanticContractBindingKind::Field => true,
            SemanticContractBindingKind::Local => true,
            _ => false,
        };
        let name = chars_of_string(&binding.name);
        if kind_ok && !has_param_named(&out, &name) {
            out.push(Param { name, ty: chars_of_string(&binding.ty) });
        }
        b += 1;
    }
    out
}

} // verus!
