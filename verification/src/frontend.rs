//! What the Trust macros check and produce from the source they are given:
//! the contract blocks of `trust::total!`, `trust::spec!` and
//! `trust::proof!`, the shape of `#[trust::module]` bodies and of
//! `TrustModel` structs, the function with its run-time assertions, and
//! the metadata record of each item.

use crate::text::{
    first_index, last_index, lemma_first_index, lemma_last_index, contains_char, contains_lit, append, append_lit, ascii_alnum, ascii_alpha, chars_of, chars_of_string, find_char, is_ascii_alnum,
    is_ascii_alpha, is_lit, is_word_char, is_ws, rfind_char, same, slice_of, starts_with_lit, starts_with_spec,
    string_of, strip_prefix_lit, trim, trim_spec, trim_start, trim_start_spec, views, whitespace, word_char,
};
use crate::tokens::{tok_char, tok_is};
use vstd::prelude::*;

verus! {

/// The macros' lexer, as each character is read: the tokens so far and
/// the identifier being read. An identifier starts with an ASCII letter
/// or `_` and continues with ASCII letters, digits and `_`; whitespace is
/// skipped; any other character is a token of its own.
pub open spec fn lex_state(s: Seq<char>) -> (Seq<Seq<char>>, Seq<char>)
    decreases s.len(),
{
    if s.len() == 0 {
        (seq![], seq![])
    } else {
        let (t, cur) = lex_state(s.drop_last());
        let c = s.last();
        if cur.len() > 0 && is_word_char(c) {
            (t, cur.push(c))
        } else {
            let flushed = if cur.len() > 0 {
                t.push(cur)
            } else {
                t
            };
            if is_ws(c) {
                (flushed, seq![])
            } else if is_ascii_alpha(c) || c == '_' {
                (flushed, seq![c])
            } else {
                (flushed.push(seq![c]), seq![])
            }
        }
    }
}

pub open spec fn lex_spec(s: Seq<char>) -> Seq<Seq<char>> {
    let (t, cur) = lex_state(s);
    if cur.len() > 0 {
        t.push(cur)
    } else {
        t
    }
}

/// Splits macro input into identifiers and single punctuation characters
/// (a digit is punctuation here); see `lex_spec`.
pub fn lex(s: &[char]) -> (r: Vec<Vec<char>>)
    ensures
        views(r@) == lex_spec(s@),
{
    let mut toks: Vec<Vec<char>> = Vec::new();
    let mut current: Vec<char> = Vec::new();
    let mut i: usize = 0;
    while i < s.len()
        invariant
            i <= s.len(),
            (views(toks@), current@) == lex_state(s@.take(i as int)),
        decreases s.len() - i,
    {
        let c = s[i];
        proof {
            assert(s@.take(i + 1).drop_last() =~= s@.take(i as int));
        }
        let ghost before = toks@;
        if current.len() > 0 && word_char(c) {
            current.push(c);
        } else {
            if current.len() > 0 {
                let cur = current;
                current = Vec::new();
                toks.push(cur);
                assert(views(toks@) =~= views(before).push(cur@));
            }
            let ghost mid = toks@;
            if whitespace(c) {
            } else if ascii_alpha(c) || c == '_' {
                current = vec![c];
                assert(current@ =~= seq![c]);
            } else {
                let one = vec![c];
                assert(one@ =~= seq![c]);
                toks.push(one);
                assert(views(toks@) =~= views(mid).push(seq![c]));
            }
        }
        i += 1;
    }
    assert(s@.take(s.len() as int) =~= s@);
    if current.len() > 0 {
        let ghost before = toks@;
        toks.push(current);
        assert(views(toks@) =~= views(before).push(current@));
    }
    toks
}

/// Whether an identifier token equal to `name` comes before `end`.
pub fn has_ident_before(t: &[Vec<char>], end: usize, name: &str) -> (r: bool)
    requires
        end <= t@.len(),
    ensures
        r == exists|k: int| 0 <= k < end && (#[trigger] t@[k])@ == name@,
{
    let mut k: usize = 0;
    while k < end
        invariant
            end <= t@.len(),
            forall|j: int| 0 <= j < k ==> (#[trigger] t@[j])@ != name@,
        decreases end - k,
    {
        if is_lit(&t[k], name) {
            return true;
        }
        k += 1;
    }
    false
}

/// Whether some token is `{`.
pub fn has_body_group(t: &[Vec<char>]) -> (r: bool)
    ensures
        r == exists|k: int| 0 <= k < t@.len() && (#[trigger] t@[k])@ == seq!['{'],
{
    let mut k: usize = 0;
    while k < t.len()
        invariant
            forall|j: int| 0 <= j < k ==> (#[trigger] t@[j])@ != seq!['{'],
        decreases t.len() - k,
    {
        if tok_char(t, k, '{') {
            return true;
        }
        k += 1;
    }
    false
}

/// The first `{` token at or after `i`.
pub open spec fn first_brace_from(t: Seq<Seq<char>>, i: int) -> Option<int>
    decreases t.len() - i,
{
    if i < 0 || i >= t.len() {
        None
    } else if t[i] == seq!['{'] {
        Some(i)
    } else {
        first_brace_from(t, i + 1)
    }
}

/// The index after a `name! { .. }` invocation that starts at `i`: past
/// its matching `}` (or the end); just past the name when no `!` follows
/// or no `{` comes after it.
pub open spec fn macro_group_end(t: Seq<Seq<char>>, i: int) -> int {
    if i + 1 >= t.len() || t[i + 1] != seq!['!'] {
        i + 1
    } else {
        match first_brace_from(t, i + 2) {
            None => i + 1,
            Some(o) => match crate::tokens::token_group_close(t, '{', '}', o + 1, 1) {
                Some(c) => c + 1,
                None => t.len() as int,
            },
        }
    }
}

/// The index after a `name! { .. }` invocation that starts at
/// `ident_idx`: past its matching `}` (or the end); just past the name
/// when no `!` follows or no `{` comes after it.
pub fn skip_macro_invocation_group(t: &[Vec<char>], ident_idx: usize) -> (r: usize)
    requires
        ident_idx < t@.len(),
    ensures
        ident_idx < r <= t@.len(),
        r == macro_group_end(views(t@), ident_idx as int),
{
    let ghost tv = views(t@);
    let n = t.len();
    if ident_idx + 1 >= n || !tok_char(t, ident_idx + 1, '!') {
        return ident_idx + 1;
    }
    let mut open_idx = ident_idx + 2;
    while open_idx < n && !tok_char(t, open_idx, '{')
        invariant
            n == t@.len(),
            ident_idx + 2 <= open_idx <= n,
            tv == views(t@),
            first_brace_from(tv, ident_idx + 2) == first_brace_from(tv, open_idx as int),
        decreases n - open_idx,
    {
        open_idx += 1;
    }
    if open_idx >= n {
        return ident_idx + 1;
    }
    let mut depth: usize = 0;
    let mut idx = open_idx;
    while idx < t.len()
        invariant
            open_idx <= idx <= t@.len(),
            open_idx < t@.len(),
            t@[open_idx as int]@ == seq!['{'],
            ident_idx < open_idx,
            idx > open_idx ==> depth >= 1,
            idx > open_idx ==> depth <= idx - open_idx,
            tv == views(t@),
            first_brace_from(tv, ident_idx + 2) == Some(open_idx as int),
            tv[ident_idx + 1] == seq!['!'],
            idx > open_idx ==> crate::tokens::token_group_close(tv, '{', '}', open_idx + 1, 1)
                == crate::tokens::token_group_close(tv, '{', '}', idx as int, depth as int),
            idx == open_idx ==> depth == 0,
        decreases t.len() - idx,
    {
        if tok_char(t, idx, '{') {
            depth = depth.saturating_add(1);
        } else if tok_char(t, idx, '}') {
            depth = depth.saturating_sub(1);
            if depth == 0 {
                return idx + 1;
            }
        }
        idx += 1;
    }
    t.len()
}

/// The text after `keyword` at the start of the input (leading whitespace
/// skipped), when the keyword is not followed by an identifier character.
pub open spec fn strip_keyword_spec(input: Seq<char>, keyword: Seq<char>) -> Option<Seq<char>> {
    let t = trim_start_spec(input);
    if starts_with_spec(t, keyword) {
        let rest = t.skip(keyword.len() as int);
        if rest.len() == 0 || !(is_ascii_alnum(rest[0]) || rest[0] == '_') {
            Some(rest)
        } else {
            None
        }
    } else {
        None
    }
}

pub fn strip_keyword(input: &[char], keyword: &str) -> (r: Option<Vec<char>>)
    ensures
        r is Some == strip_keyword_spec(input@, keyword@) is Some,
        r matches Some(rest) ==> strip_keyword_spec(input@, keyword@) == Some(rest@),
        r matches Some(rest) ==> rest@.len() + keyword@.len() <= input@.len(),
{
    let t = trim_start(input);
    match strip_prefix_lit(&t, keyword) {
        Some(rest) => {
            if rest.len() == 0 || !(ascii_alnum(rest[0]) || rest[0] == '_') {
                Some(rest)
            } else {
                None
            }
        },
        None => None,
    }
}

/// The text inside the braces that open the input (leading whitespace
/// skipped) and the text after the matching `}`.
/// The braced group at the start of the input (after leading whitespace),
/// up to the `}` that closes it: its inside and what follows it.
pub open spec fn braced_spec(input: Seq<char>) -> Option<(Seq<char>, Seq<char>)> {
    let t = trim_start_spec(input);
    if t.len() > 0 && t[0] == '{' {
        match crate::tokens::char_group_close(t, '{', '}', 0, 0) {
            Some(e) => Some((t.subrange(1, e), t.skip(e + 1))),
            None => None,
        }
    } else {
        None
    }
}

pub fn extract_braced(input: &[char]) -> (r: Option<(Vec<char>, Vec<char>)>)
    ensures
        r is Some == braced_spec(input@) is Some,
        r matches Some((body, after)) ==> braced_spec(input@) == Some((body@, after@)),
        r is Some ==> trim_start_spec(input@).len() > 0 && trim_start_spec(input@)[0] == '{',
        r matches Some((body, after)) ==> exists|e: int| 0 < e < trim_start_spec(input@).len() && trim_start_spec(
            input@)[e] == '}' && body@ == trim_start_spec(input@).subrange(1, e) && after@ == trim_start_spec(
            input@).skip(e + 1),
        r matches Some((body, after)) ==> body@.len() < input@.len() && after@.len() < input@.len(),
{
    let t = trim_start(input);
    if t.len() == 0 || t[0] != '{' {
        return None;
    }
    let mut depth: usize = 0;
    let mut idx: usize = 0;
    while idx < t.len()
        invariant
            idx <= t@.len(),
            t@.len() > 0,
            t@[0] == '{',
            t@ == trim_start_spec(input@),
            t@.len() <= input@.len(),
            idx > 0 ==> depth >= 1,
            idx == 0 ==> depth == 0,
            depth <= idx,
            crate::tokens::char_group_close(t@, '{', '}', 0, 0) == crate::tokens::char_group_close(t@, '{', '}', idx as int,
                depth as int),
        decreases t.len() - idx,
    {
        if t[idx] == '{' {
            depth = depth.saturating_add(1);
        } else if t[idx] == '}' {
            depth = depth - 1;
            if depth == 0 {
                let tl = t.len();
                return Some((slice_of(&t, 1, idx), slice_of(&t, idx + 1, tl)));
            }
        }
        idx += 1;
    }
    None
}

/// The braced body that starts at the first `{` of the input.
pub open spec fn fn_body_spec(input: Seq<char>) -> Option<(Seq<char>, Seq<char>)> {
    match crate::text::first_index(input, '{', 0) {
        None => None,
        Some(s) => braced_spec(input.skip(s)),
    }
}

pub fn extract_fn_body(input: &[char]) -> (r: Option<(Vec<char>, Vec<char>)>)
    ensures
        r is Some == fn_body_spec(input@) is Some,
        r matches Some((body, after)) ==> fn_body_spec(input@) == Some((body@, after@)),
        r matches Some((body, after)) ==> body@.len() < input@.len() && after@.len() < input@.len(),
        !input@.contains('{') ==> r is None,
{
    let start = match find_char(input, '{') {
        Some(s) => s,
        None => {
            proof {
                crate::text::lemma_first_index(input@, '{', 0, None);
            }
            return None;
        },
    };
    proof {
        crate::text::lemma_first_index(input@, '{', 0, Some(start as int));
    }
    let il = input.len();
    let sl = slice_of(input, start, il);
    assert(sl@ =~= input@.skip(start as int));
    extract_braced(&sl)
}

/// A `|binder|` at the start of the input (leading whitespace skipped):
/// the trimmed binder, which must not be empty, and the text after it.
pub open spec fn pipe_binder_spec(input: Seq<char>) -> Option<(Seq<char>, Seq<char>)> {
    let t = trim_start_spec(input);
    if t.len() > 0 && t[0] == '|' {
        let a = t.skip(1);
        if exists|k: int| 0 <= k < a.len() && a[k] == '|' {
            let close = choose|k: int| 0 <= k < a.len() && a[k] == '|' && forall|j: int| 0 <= j < k ==> a[j] != '|';
            let binder = trim_spec(a.take(close));
            if binder.len() == 0 {
                None
            } else {
                Some((binder, a.skip(close + 1)))
            }
        } else {
            None
        }
    } else {
        None
    }
}

pub fn extract_pipe_binder(input: &[char]) -> (r: Option<(Vec<char>, Vec<char>)>)
    ensures
        r matches Some((b, a)) ==> a@.len() < input@.len(),
        r is Some ==> pipe_binder_spec(input@) is Some,
        r matches Some((b, a)) ==> pipe_binder_spec(input@) == Some((b@, a@)),
        r is None ==> pipe_binder_spec(input@) is None,
{
    let t = trim_start(input);
    if t.len() == 0 || t[0] != '|' {
        return None;
    }
    let tl = t.len();
    let after_open = slice_of(&t, 1, tl);
    assert(after_open@ == t@.skip(1));
    let close = match find_char(&after_open, '|') {
        Some(c) => c,
        None => return None,
    };
    proof {
        let a = after_open@;
        let k = close as int;
        assert(0 <= k < a.len() && a[k] == '|' && forall|j: int| 0 <= j < k ==> a[j] != '|');
        let c = choose|k: int| 0 <= k < a.len() && a[k] == '|' && forall|j: int| 0 <= j < k ==> a[j] != '|';
        if c < k {
            assert(a[c] != '|');
        } else if c > k {
            assert(a[k] != '|');
        }
        assert(c == k);
    }
    let binder = trim(&slice_of(&after_open, 0, close));
    if binder.len() == 0 {
        return None;
    }
    let al = after_open.len();
    Some((binder, slice_of(&after_open, close + 1, al)))
}

/// The trimmed, non-empty pieces, in order.
pub open spec fn kept_expressions(ps: Seq<Seq<char>>) -> Seq<Seq<char>>
    decreases ps.len(),
{
    if ps.len() == 0 {
        seq![]
    } else {
        (if trim_spec(ps[0]).len() > 0 {
            seq![trim_spec(ps[0])]
        } else {
            seq![]
        }) + kept_expressions(ps.skip(1))
    }
}

proof fn lemma_kept_push(p: Seq<char>, rest: Seq<Seq<char>>)
    ensures
        kept_expressions(seq![p] + rest) == (if trim_spec(p).len() > 0 {
            seq![trim_spec(p)]
        } else {
            seq![]
        }) + kept_expressions(rest),
{
    let s = seq![p] + rest;
    assert(s[0] == p);
    assert(s.skip(1) =~= rest);
}

/// The expressions of a contract block: its `;`-separated pieces, trimmed,
/// empty ones dropped.
pub fn split_contract_expressions(block: &[char]) -> (r: Vec<Vec<char>>)
    ensures
        views(r@) == kept_expressions(crate::text::pieces_at(block@, ';')),
        forall|k: int| 0 <= k < r@.len() ==> (#[trigger] r@[k])@.len() > 0,
{
    let mut out: Vec<Vec<char>> = Vec::new();
    let ghost all = kept_expressions(crate::text::pieces_at(block@, ';'));
    let mut start: usize = 0;
    let mut i: usize = 0;
    let n = block.len();
    assert(block@.skip(0) =~= block@);
    while i <= n
        invariant_except_break
            start <= i <= n,
            n == block@.len(),
            forall|k: int| 0 <= k < out@.len() ==> (#[trigger] out@[k])@.len() > 0,
            all == kept_expressions(crate::text::pieces_at(block@, ';')),
            all == views(out@) + kept_expressions(crate::text::pieces_at(block@.skip(start as int), ';')),
            forall|k: int| start <= k < i ==> block@[k] != ';',
        ensures
            views(out@) == kept_expressions(crate::text::pieces_at(block@, ';')),
            forall|k: int| 0 <= k < out@.len() ==> (#[trigger] out@[k])@.len() > 0,
        decreases n + 1 - i,
    {
        if i == n || block[i] == ';' {
            let piece = trim(&slice_of(block, start, i));
            proof {
                crate::text::lemma_pieces_step(block@, ';', start as int, i as int);
                lemma_kept_push(block@.subrange(start as int, i as int), if i == n {
                    seq![]
                } else {
                    crate::text::pieces_at(block@.skip(i + 1), ';')
                });
                if i == n {
                    assert(seq![block@.subrange(start as int, i as int)] =~= seq![block@.subrange(start as int, i as int)]
                        + Seq::<Seq<char>>::empty());
                    assert(kept_expressions(Seq::<Seq<char>>::empty()) =~= Seq::<Seq<char>>::empty());
                }
            }
            let ghost before = out@;
            if piece.len() > 0 {
                out.push(piece);
                assert(views(out@) =~= views(before) + seq![piece@]);
            }
            if i == n {
                assert(all =~= views(out@));
                break;
            }
            start = i + 1;
        }
        i += 1;
    }
    out
}

/// `str::replace`: each occurrence of `from`, left to right and without
/// overlap, replaced by `to`.
pub open spec fn replace_spec(s: Seq<char>, from: Seq<char>, to: Seq<char>) -> Seq<char>
    decreases s.len(),
{
    if s.len() == 0 || from.len() == 0 {
        s
    } else if starts_with_spec(s, from) {
        to + replace_spec(s.skip(from.len() as int), from, to)
    } else {
        seq![s[0]] + replace_spec(s.skip(1), from, to)
    }
}

pub fn replace_all(s: &[char], from: &str, to: &str) -> (r: Vec<char>)
    ensures
        r@ == replace_spec(s@, from@, to@),
{
    let f = chars_of(from);
    let tt = chars_of(to);
    if f.len() == 0 {
        return slice_of(s, 0, s.len());
    }
    let mut out: Vec<char> = Vec::new();
    let mut i: usize = 0;
    assert(s@.skip(0) =~= s@);
    assert(out@ + replace_spec(s@.skip(0), from@, to@) =~= replace_spec(s@, from@, to@));
    while i < s.len()
        invariant
            i <= s@.len(),
            f@ == from@,
            tt@ == to@,
            f@.len() > 0,
            out@ + replace_spec(s@.skip(i as int), from@, to@) == replace_spec(s@, from@, to@),
        decreases s.len() - i,
    {
        let rest = slice_of(s, i, s.len());
        assert(rest@ == s@.skip(i as int));
        if crate::text::starts_with(&rest, &f) {
            proof {
                assert(s@.skip(i as int).skip(f@.len() as int) =~= s@.skip(i + f@.len()));
                assert(out@ + to@ + replace_spec(s@.skip(i + f@.len()), from@, to@) =~= out@ + (to@
                    + replace_spec(s@.skip(i as int).skip(f@.len() as int), from@, to@)));
            }
            append(&mut out, &tt);
            i = i + f.len();
        } else {
            proof {
                assert(s@.skip(i as int).skip(1) =~= s@.skip(i + 1));
                assert(out@.push(s@[i as int]) + replace_spec(s@.skip(i + 1), from@, to@) =~= out@ + (seq![
                    s@.skip(i as int)[0]] + replace_spec(s@.skip(i as int).skip(1), from@, to@)));
            }
            out.push(s[i]);
            i += 1;
        }
    }
    proof {
        assert(s@.skip(i as int).len() == 0);
        assert(out@ + seq![] =~= out@);
    }
    out
}

/// The contract as displayed: spaces around `.` and inside brackets that
/// the token printer adds are dropped.
pub open spec fn display_spec(e: Seq<char>) -> Seq<char> {
    replace_spec(
        replace_spec(
            replace_spec(replace_spec(replace_spec(replace_spec(e, " . "@, "."@), " ("@, "("@), "( "@, "("@), " )"@, ")"@),
            "[ "@,
            "["@,
        ),
        " ]"@,
        "]"@,
    )
}

pub fn normalize_contract_display(e: &[char]) -> (r: Vec<char>)
    ensures
        r@ == display_spec(e@),
{
    let a = replace_all(e, " . ", ".");
    let b = replace_all(&a, " (", "(");
    let c = replace_all(&b, "( ", "(");
    let d = replace_all(&c, " )", ")");
    let f = replace_all(&d, "[ ", "[");
    replace_all(&f, " ]", "]")
}

/// The tokens written together with `out` replaced by `__trust_out`.
pub open spec fn binder_joined(t: Seq<Seq<char>>) -> Seq<char>
    decreases t.len(),
{
    if t.len() == 0 {
        seq![]
    } else {
        binder_joined(t.drop_last()) + if t.last() == "out"@ {
            "__trust_out"@
        } else {
            t.last()
        }
    }
}

pub fn replace_result_binder(e: &[char]) -> (r: Vec<char>)
    ensures
        r@ == binder_joined(lex_spec(e@)),
{
    let t = lex(e);
    let mut out: Vec<char> = Vec::new();
    let mut i: usize = 0;
    while i < t.len()
        invariant
            i <= t@.len(),
            views(t@) == lex_spec(e@),
            out@ == binder_joined(views(t@).take(i as int)),
        decreases t.len() - i,
    {
        assert(views(t@).take(i + 1).drop_last() =~= views(t@).take(i as int));
        if is_lit(&t[i], "out") {
            append_lit(&mut out, "__trust_out");
        } else {
            append(&mut out, &t[i]);
        }
        i += 1;
    }
    assert(views(t@).take(t@.len() as int) =~= views(t@));
    out
}

/// An identifier token: it starts with an ASCII letter or `_`.
pub open spec fn is_ident_token(t: Seq<char>) -> bool {
    t.len() > 0 && (is_ascii_alpha(t[0]) || t[0] == '_')
}

/// The error a token of an executable contract raises, if any: a
/// quantifier, a closure bar, or a call other than `.len()`.
pub open spec fn contract_token_error(t: Seq<Seq<char>>, idx: int) -> Option<Seq<char>> {
    if t[idx] == "forall"@ || t[idx] == "exists"@ {
        Some("error[trust]: quantifiers are not supported in executable preconditions"@)
    } else if t[idx] == "|"@ {
        Some("error[trust]: closures are not supported in executable preconditions"@)
    } else if t[idx] == "("@ && idx > 0 && is_ident_token(t[idx - 1]) && !(idx >= 2 && t[idx - 2] == "."@
        && t[idx - 1] == "len"@) {
        Some("error[trust]: unsupported function call in executable precondition"@)
    } else {
        None
    }
}

/// The first error raised by a token at or after `k`.
pub open spec fn first_contract_error(t: Seq<Seq<char>>, k: int) -> Option<Seq<char>>
    decreases t.len() - k,
{
    if k < 0 || k >= t.len() {
        None
    } else {
        match contract_token_error(t, k) {
            Some(m) => Some(m),
            None => first_contract_error(t, k + 1),
        }
    }
}

/// An executable contract must be checkable at run time: no quantifiers,
/// no closures, and no calls but `.len()`.
pub fn validate_executable_contract(e: &[char]) -> (r: Result<(), &'static str>)
    ensures
        r is Ok == (first_contract_error(lex_spec(e@), 0) is None),
        r matches Err(m) ==> first_contract_error(lex_spec(e@), 0) == Some(m@),
{
    proof {
        reveal_strlit("forall");
        reveal_strlit("exists");
        reveal_strlit("|");
        reveal_strlit("(");
        reveal_strlit(".");
        reveal_strlit("len");
    }
    let t = lex(e);
    let ghost tv = views(t@);
    let mut idx: usize = 0;
    while idx < t.len()
        invariant
            idx <= t@.len(),
            tv == views(t@),
            tv == lex_spec(e@),
            first_contract_error(tv, 0) == first_contract_error(tv, idx as int),
        decreases t.len() - idx,
    {
        if is_lit(&t[idx], "forall") || is_lit(&t[idx], "exists") {
            return Err("error[trust]: quantifiers are not supported in executable preconditions");
        }
        if is_lit(&t[idx], "|") {
            return Err("error[trust]: closures are not supported in executable preconditions");
        }
        if is_lit(&t[idx], "(") && idx > 0 {
            let callee = &t[idx - 1];
            let is_ident = callee.len() > 0 && (ascii_alpha(callee[0]) || callee[0] == '_');
            if is_ident {
                let is_method = idx >= 2 && is_lit(&t[idx - 2], ".");
                if !is_method || !is_lit(callee, "len") {
                    return Err("error[trust]: unsupported function call in executable precondition");
                }
            }
        }
        assert(contract_token_error(tv, idx as int) is None);
        idx += 1;
    }
    Ok(())
}

/// A function's name and whether it is `pub`.
#[derive(Debug)]
pub struct FnInfo {
    pub name: String,
    pub visibility: &'static str,
}

/// One contract of a Trust item: its class (`given executable`, `given
/// ghost`, `gives executable`, `gives ghost`), its code, and its text as
/// shown in diagnostics and metadata.
#[derive(Debug)]
pub struct Contract {
    pub class: &'static str,
    pub expression_code: String,
    pub expression_display: String,
}

#[derive(Debug)]
pub struct TotalExpansion {
    pub fn_source: String,
    pub fn_info: FnInfo,
    pub contracts: Vec<Contract>,
}

#[derive(Debug)]
pub struct SpecExpansion {
    pub kind: &'static str,
    pub fn_source: String,
    pub fn_info: FnInfo,
}

#[derive(Debug)]
pub struct ProofExpansion {
    pub fn_info: FnInfo,
    pub contracts: Vec<Contract>,
}

#[derive(Debug)]
pub struct ModuleInfo {
    pub name: String,
    pub visibility: &'static str,
}

#[derive(Debug)]
pub struct ModelInfo {
    pub name: String,
}

/// The position of the first `fn` token and whether another follows.
fn fn_positions(t: &[Vec<char>]) -> (r: (Option<usize>, bool))
    ensures
        r.0 matches Some(i) ==> i < t@.len() && t@[i as int]@ == "fn"@ && forall|k: int| 0 <= k < i ==> (#[trigger] t@[k])@ != "fn"@,
        r.0 is None ==> forall|k: int| 0 <= k < t@.len() ==> (#[trigger] t@[k])@ != "fn"@,
        r.1 <==> (r.0 matches Some(i) && exists|k: int| i < k < t@.len() && (#[trigger] t@[k])@ == "fn"@),
{
    let mut first: Option<usize> = None;
    let mut k: usize = 0;
    while k < t.len()
        invariant
            k <= t@.len(),
            first is None ==> forall|j: int| 0 <= j < k ==> (#[trigger] t@[j])@ != "fn"@,
            first matches Some(i) ==> i < k && t@[i as int]@ == "fn"@ && (forall|j: int| 0 <= j < i ==> (#[trigger] t@[j])@ != "fn"@) && (forall|j: int| i < j < k ==> (#[trigger] t@[j])@ != "fn"@),
        decreases t.len() - k,
    {
        if is_lit(&t[k], "fn") {
            match first {
                Some(i) => {
                    return (Some(i), true);
                },
                None => {
                    first = Some(k);
                },
            }
        }
        k += 1;
    }
    (first, false)
}

/// The message for refusing a function at check `k` (see `fn_rejection`),
/// for `trust::total!` (false) or `trust::spec!` (true).
pub open spec fn fn_check_text(spec: bool, k: int) -> Seq<char> {
    if !spec {
        if k == 0 {
            "error[trust]: trust::total! requires exactly one Rust fn item"@
        } else if k == 1 {
            "error[trust]: trust::total! accepts exactly one Rust fn item"@
        } else if k == 2 {
            "error[trust]: trust::total! could not read function name"@
        } else if k == 3 {
            "error[trust]: async functions are not supported in Trust MVP"@
        } else if k == 4 {
            "error[trust]: unsafe functions are not supported in Trust MVP"@
        } else if k == 5 {
            "error[trust]: extern functions are not supported in Trust MVP"@
        } else if k == 6 {
            "error[trust]: generic total functions are not supported in MVP"@
        } else {
            "error[trust]: trust::total! requires a function body"@
        }
    } else {
        if k == 0 {
            "error[trust]: trust::spec! requires exactly one Rust fn item"@
        } else if k == 1 {
            "error[trust]: trust::spec! accepts exactly one Rust fn item"@
        } else if k == 2 {
            "error[trust]: trust::spec! could not read function name"@
        } else if k == 3 {
            "error[trust]: async spec functions are not supported in Trust MVP"@
        } else if k == 4 {
            "error[trust]: unsafe spec functions are not supported in Trust MVP"@
        } else if k == 5 {
            "error[trust]: extern spec functions are not supported in Trust MVP"@
        } else if k == 6 {
            "error[trust]: generic spec functions are not supported in MVP"@
        } else {
            "error[trust]: trust::spec! requires a function body"@
        }
    }
}

/// The messages of the function checks, in check order.
fn fn_check_message(spec: bool, k: usize) -> (m: &'static str)
    ensures
        m@ == fn_check_text(spec, k as int),
{
    if !spec {
        if k == 0 {
            "error[trust]: trust::total! requires exactly one Rust fn item"
        } else if k == 1 {
            "error[trust]: trust::total! accepts exactly one Rust fn item"
        } else if k == 2 {
            "error[trust]: trust::total! could not read function name"
        } else if k == 3 {
            "error[trust]: async functions are not supported in Trust MVP"
        } else if k == 4 {
            "error[trust]: unsafe functions are not supported in Trust MVP"
        } else if k == 5 {
            "error[trust]: extern functions are not supported in Trust MVP"
        } else if k == 6 {
            "error[trust]: generic total functions are not supported in MVP"
        } else {
            "error[trust]: trust::total! requires a function body"
        }
    } else {
        if k == 0 {
            "error[trust]: trust::spec! requires exactly one Rust fn item"
        } else if k == 1 {
            "error[trust]: trust::spec! accepts exactly one Rust fn item"
        } else if k == 2 {
            "error[trust]: trust::spec! could not read function name"
        } else if k == 3 {
            "error[trust]: async spec functions are not supported in Trust MVP"
        } else if k == 4 {
            "error[trust]: unsafe spec functions are not supported in Trust MVP"
        } else if k == 5 {
            "error[trust]: extern spec functions are not supported in Trust MVP"
        } else if k == 6 {
            "error[trust]: generic spec functions are not supported in MVP"
        } else {
            "error[trust]: trust::spec! requires a function body"
        }
    }
}

/// Token `i` is the only `fn`, and an identifier follows it.
pub open spec fn sole_fn_at(t: Seq<Seq<char>>, i: int) -> bool {
    &&& 0 <= i && i + 1 < t.len()
    &&& t[i] == "fn"@
    &&& is_ident_token(t[i + 1])
    &&& forall|k: int| 0 <= k < t.len() && k != i ==> (#[trigger] t[k]) != "fn"@
}

/// Which check a function's tokens fail, in the order they are made, or
/// `None` when it passes them all: 0 no `fn`, 1 more than one, 2 no name
/// after it, 3 `async`, 4 `unsafe`, 5 `extern` in front of it, 6 generic
/// parameters after the name, 7 no body.
pub open spec fn fn_rejection(t: Seq<Seq<char>>) -> Option<int> {
    if !(exists|i: int| 0 <= i < t.len() && #[trigger] t[i] == "fn"@) {
        Some(0)
    } else if exists|i: int, j: int| 0 <= i < j < t.len() && #[trigger] t[i] == "fn"@ && #[trigger] t[j] == "fn"@ {
        Some(1)
    } else {
        let i = choose|i: int| 0 <= i < t.len() && #[trigger] t[i] == "fn"@;
        if i + 1 >= t.len() || !is_ident_token(t[i + 1]) {
            Some(2)
        } else if exists|k: int| 0 <= k < i && #[trigger] t[k] == "async"@ {
            Some(3)
        } else if exists|k: int| 0 <= k < i && #[trigger] t[k] == "unsafe"@ {
            Some(4)
        } else if exists|k: int| 0 <= k < i && #[trigger] t[k] == "extern"@ {
            Some(5)
        } else if i + 2 < t.len() && t[i + 2] == seq!['<'] {
            Some(6)
        } else if !(exists|k: int| 0 <= k < t.len() && #[trigger] t[k] == seq!['{']) {
            Some(7)
        } else {
            None
        }
    }
}

/// The checks shared by `trust::total!` and `trust::spec!`: exactly one
/// `fn`, followed by its name, not `async`/`unsafe`/`extern`, not
/// generic, with a body. Public when the first token is `pub`.
fn inspect_fn(input: &[char], spec: bool) -> (r: Result<FnInfo, &'static str>)
    ensures
        r is Ok <==> fn_rejection(lex_spec(input@)) is None,
        r matches Err(m) ==> (fn_rejection(lex_spec(input@)) matches Some(k) && m@ == fn_check_text(spec, k)),
        r matches Ok(info) ==> (exists|i: int| #[trigger] sole_fn_at(lex_spec(input@), i) && info.name@ == lex_spec(input@)[i + 1]),
        r matches Ok(info) ==> (info.visibility@ == "public"@ <==> (lex_spec(input@).len() > 0 && lex_spec(input@)[0] == "pub"@)),
        r matches Ok(info) ==> info.visibility@ == "public"@ || info.visibility@ == "private"@,
{
    proof {
        reveal_strlit("public");
        reveal_strlit("private");
        reveal_strlit("pub");
        assert("public"@[1] != "private"@[1]);
    }
    let t = lex(input);
    let ghost tv = views(t@);
    let (first, more) = fn_positions(&t);
    let fn_idx = match first {
        Some(i) => i,
        None => {
            assert(!(exists|i: int| 0 <= i < tv.len() && #[trigger] tv[i] == "fn"@)) by {
                assert forall|i: int| 0 <= i < tv.len() implies #[trigger] tv[i] != "fn"@ by {
                    assert(tv[i] == t@[i]@);
                }
            }
            return Err(fn_check_message(spec, 0));
        },
    };
    assert(tv[fn_idx as int] == "fn"@);
    if more {
        let ghost j = choose|j: int| fn_idx < j < t@.len() && (#[trigger] t@[j])@ == "fn"@;
        assert(tv[j] == "fn"@);
        return Err(fn_check_message(spec, 1));
    }
    proof {
        assert forall|k: int| 0 <= k < tv.len() && k != fn_idx implies (#[trigger] tv[k]) != "fn"@ by {
            assert(tv[k] == t@[k]@);
        }
        assert(!exists|i: int, j: int| 0 <= i < j < tv.len() && #[trigger] tv[i] == "fn"@ && #[trigger] tv[j] == "fn"@);
        let c = choose|i: int| 0 <= i < tv.len() && #[trigger] tv[i] == "fn"@;
        assert(c == fn_idx);
    }
    let n = t.len();
    if fn_idx + 1 >= n {
        return Err(fn_check_message(spec, 2));
    }
    let name_tok = &t[fn_idx + 1];
    if !(name_tok.len() > 0 && (ascii_alpha(name_tok[0]) || name_tok[0] == '_')) {
        assert(!is_ident_token(tv[fn_idx + 1]));
        return Err(fn_check_message(spec, 2));
    }
    assert(is_ident_token(tv[fn_idx + 1]));
    let name = string_of(name_tok);
    if has_ident_before(&t, fn_idx, "async") {
        let ghost k = choose|k: int| 0 <= k < fn_idx && (#[trigger] t@[k])@ == "async"@;
        assert(tv[k] == "async"@);
        return Err(fn_check_message(spec, 3));
    }
    assert(!exists|k: int| 0 <= k < fn_idx && #[trigger] tv[k] == "async"@) by {
        assert forall|k: int| 0 <= k < fn_idx implies #[trigger] tv[k] != "async"@ by {
            assert(tv[k] == t@[k]@);
        }
    }
    if has_ident_before(&t, fn_idx, "unsafe") {
        let ghost k = choose|k: int| 0 <= k < fn_idx && (#[trigger] t@[k])@ == "unsafe"@;
        assert(tv[k] == "unsafe"@);
        return Err(fn_check_message(spec, 4));
    }
    assert(!exists|k: int| 0 <= k < fn_idx && #[trigger] tv[k] == "unsafe"@) by {
        assert forall|k: int| 0 <= k < fn_idx implies #[trigger] tv[k] != "unsafe"@ by {
            assert(tv[k] == t@[k]@);
        }
    }
    if has_ident_before(&t, fn_idx, "extern") {
        let ghost k = choose|k: int| 0 <= k < fn_idx && (#[trigger] t@[k])@ == "extern"@;
        assert(tv[k] == "extern"@);
        return Err(fn_check_message(spec, 5));
    }
    assert(!exists|k: int| 0 <= k < fn_idx && #[trigger] tv[k] == "extern"@) by {
        assert forall|k: int| 0 <= k < fn_idx implies #[trigger] tv[k] != "extern"@ by {
            assert(tv[k] == t@[k]@);
        }
    }
    if tok_char(&t, fn_idx + 2, '<') {
        return Err(fn_check_message(spec, 6));
    }
    if !has_body_group(&t) {
        assert(!exists|k: int| 0 <= k < tv.len() && #[trigger] tv[k] == seq!['{']) by {
            assert forall|k: int| 0 <= k < tv.len() implies #[trigger] tv[k] != seq!['{'] by {
                assert(tv[k] == t@[k]@);
            }
        }
        return Err(fn_check_message(spec, 7));
    }
    let ghost kb = choose|k: int| 0 <= k < t@.len() && (#[trigger] t@[k])@ == seq!['{'];
    assert(tv[kb] == seq!['{']);
    let visibility = if t.len() > 0 && is_lit(&t[0], "pub") {
        "public"
    } else {
        "private"
    };
    assert(sole_fn_at(tv, fn_idx as int));
    Ok(FnInfo { name, visibility })
}

/// The function of a `trust::total!`.
pub fn inspect_total_fn(input: &[char]) -> (r: Result<FnInfo, &'static str>)
    ensures
        r is Ok <==> fn_rejection(lex_spec(input@)) is None,
        r matches Err(m) ==> (fn_rejection(lex_spec(input@)) matches Some(k) && m@ == fn_check_text(false, k)),
        r matches Ok(info) ==> (exists|i: int| #[trigger] sole_fn_at(lex_spec(input@), i) && info.name@ == lex_spec(input@)[i + 1]),
        r matches Ok(info) ==> info.visibility@ == "public"@ || info.visibility@ == "private"@,
        r matches Ok(info) ==> (info.visibility@ == "public"@ <==> (lex_spec(input@).len() > 0 && lex_spec(input@)[0] == "pub"@)),
{
    inspect_fn(input, false)
}

/// The function of a `trust::spec!`.
pub fn inspect_spec_fn(input: &[char]) -> (r: Result<FnInfo, &'static str>)
    ensures
        r is Ok <==> fn_rejection(lex_spec(input@)) is None,
        r matches Err(m) ==> (fn_rejection(lex_spec(input@)) matches Some(k) && m@ == fn_check_text(true, k)),
        r matches Ok(info) ==> (exists|i: int| #[trigger] sole_fn_at(lex_spec(input@), i) && info.name@ == lex_spec(input@)[i + 1]),
        r matches Ok(info) ==> (info.visibility@ == "public"@ <==> (lex_spec(input@).len() > 0 && lex_spec(input@)[0] == "pub"@)),
        r matches Ok(info) ==> info.visibility@ == "public"@ || info.visibility@ == "private"@,
{
    inspect_fn(input, true)
}

/// The class and the text after `executable` or `ghost` for a block
/// introduced by `keyword` (`given` or `gives`).
pub fn proof_contract_kind(input: &[char], given: bool) -> (r: Result<(&'static str, Vec<char>), &'static str>)
    ensures
        r matches Ok((class, rest)) ==> rest@.len() < input@.len() && (given ==> (class@ == "given executable"@
            || class@ == "given ghost"@)) && (!given ==> (class@ == "gives executable"@ || class@ == "gives ghost"@)),
        r matches Err(m) ==> m@ == "error[trust]: proof contracts must be executable or ghost"@,
        r is Ok <==> contract_kind_spec(input@, given) is Some,
        r matches Ok((class, rest)) ==> contract_kind_spec(input@, given) == Some((class@, rest@)),
{
    proof {
        reveal_strlit("executable");
        reveal_strlit("ghost");
        reveal_strlit("given executable");
        reveal_strlit("given ghost");
        reveal_strlit("gives executable");
        reveal_strlit("gives ghost");
    }
    if let Some(rest) = strip_keyword(input, "executable") {
        Ok((if given { "given executable" } else { "gives executable" }, rest))
    } else if let Some(rest) = strip_keyword(input, "ghost") {
        Ok((if given { "given ghost" } else { "gives ghost" }, rest))
    } else {
        Err("error[trust]: proof contracts must be executable or ghost")
    }
}

/// One contract with its display text.
fn make_contract(class: &'static str, code: Vec<char>) -> (c: Contract)
    ensures
        c.class == class,
        c.expression_code@ == code@,
        c.expression_display@ == display_spec(code@),
{
    let display = normalize_contract_display(&code);
    Contract { class, expression_display: string_of(&display), expression_code: string_of(&code) }
}

/// Whether every contract is well-formed for its class: known class, and
/// an executable `given` passes `validate_executable_contract`.
pub open spec fn contracts_well_formed(contracts: Seq<Contract>) -> bool {
    forall|k: int| 0 <= k < contracts.len() ==> {
        let c = #[trigger] contracts[k];
        &&& (c.class@ == "given executable"@ || c.class@ == "given ghost"@ || c.class@ == "gives executable"@
            || c.class@ == "gives ghost"@)
        &&& c.expression_display@ == display_spec(c.expression_code@)
        &&& c.expression_code@.len() > 0
        &&& (c.class@ == "given executable"@ ==> first_contract_error(lex_spec(c.expression_code@), 0) is None)
    }
}

/// The class and code of each contract.
pub open spec fn contract_views(cs: Seq<Contract>) -> Seq<(Seq<char>, Seq<char>)> {
    Seq::new(cs.len(), |k: int| (cs[k].class@, cs[k].expression_code@))
}

/// The contracts a block gives under a class: each kept expression.
pub open spec fn block_contracts(class: Seq<char>, block: Seq<char>) -> Seq<(Seq<char>, Seq<char>)> {
    let ks = kept_expressions(crate::text::pieces_at(block, ';'));
    Seq::new(ks.len(), |k: int| (class, ks[k]))
}

/// A block is accepted: unless its class is `given executable`, always;
/// else when every expression passes the executable contract check.
pub open spec fn block_ok(class: Seq<char>, block: Seq<char>) -> bool {
    let ks = kept_expressions(crate::text::pieces_at(block, ';'));
    class != "given executable"@ || forall|k: int| 0 <= k < ks.len() ==> first_contract_error(lex_spec(#[trigger] ks[k]), 0)
        is None
}

/// Adds the expressions of a block under one class, checking executable
/// `given` contracts.
fn push_block(contracts: &mut Vec<Contract>, class: &'static str, block: &[char]) -> (r: Result<(), &'static str>)
    requires
        contracts_well_formed(old(contracts)@),
        class@ == "given executable"@ || class@ == "given ghost"@ || class@ == "gives executable"@ || class@ == "gives ghost"@,
    ensures
        contracts_well_formed(final(contracts)@),
        final(contracts)@.len() >= old(contracts)@.len(),
        forall|k: int| 0 <= k < old(contracts)@.len() ==> final(contracts)@[k] == old(contracts)@[k],
        forall|k: int| old(contracts)@.len() <= k < final(contracts)@.len() ==> (#[trigger] final(contracts)@[k]).class == class,
        r is Ok ==> final(contracts)@.len() == old(contracts)@.len() + kept_expressions(crate::text::pieces_at(block@, ';')).len(),
        r is Ok ==> forall|k: int| 0 <= k < kept_expressions(crate::text::pieces_at(block@, ';')).len() ==> (
            #[trigger] final(contracts)@[old(contracts)@.len() + k]).expression_code@ == kept_expressions(
            crate::text::pieces_at(block@, ';'))[k],
        class@ != "given executable"@ ==> r is Ok,
        r matches Err(m) ==> class@ == "given executable"@ && exists|k: int| 0 <= k < kept_expressions(
            crate::text::pieces_at(block@, ';')).len() && first_contract_error(lex_spec(#[trigger] kept_expressions(
            crate::text::pieces_at(block@, ';'))[k]), 0) == Some(m@),
        r is Ok <==> block_ok(class@, block@),
        r is Ok ==> contract_views(final(contracts)@) == contract_views(old(contracts)@) + block_contracts(class@, block@),
{
    let exprs = split_contract_expressions(block);
    let mut i: usize = 0;
    while i < exprs.len()
        invariant
            contracts_well_formed(contracts@),
            contracts@.len() >= old(contracts)@.len(),
            forall|k: int| 0 <= k < old(contracts)@.len() ==> contracts@[k] == old(contracts)@[k],
            forall|k: int| old(contracts)@.len() <= k < contracts@.len() ==> (#[trigger] contracts@[k]).class == class,
            class@ == "given executable"@ || class@ == "given ghost"@ || class@ == "gives executable"@ || class@ == "gives ghost"@,
            forall|k: int| 0 <= k < exprs@.len() ==> (#[trigger] exprs@[k])@.len() > 0,
            i <= exprs@.len(),
            views(exprs@) == kept_expressions(crate::text::pieces_at(block@, ';')),
            contracts@.len() == old(contracts)@.len() + i,
            forall|k: int| 0 <= k < i ==> (#[trigger] contracts@[old(contracts)@.len() + k]).expression_code@ == exprs@[k]@,
            class@ == "given executable"@ ==> forall|k: int| 0 <= k < i ==> first_contract_error(lex_spec(#[trigger] exprs@[k]@),
                0) is None,
        decreases exprs.len() - i,
    {
        let code = slice_of(&exprs[i], 0, exprs[i].len());
        assert(code@ =~= exprs@[i as int]@);
        if is_lit(&chars_of(class), "given executable") {
            match validate_executable_contract(&code) {
                Ok(()) => {},
                Err(m) => {
                    assert(views(exprs@)[i as int] == exprs@[i as int]@);
                    return Err(m);
                },
            }
        }
        let c = make_contract(class, code);
        let ghost before = contracts@;
        contracts.push(c);
        proof {
            assert forall|k: int| 0 <= k < contracts@.len() implies {
                let c = #[trigger] contracts@[k];
                &&& (c.class@ == "given executable"@ || c.class@ == "given ghost"@ || c.class@ == "gives executable"@
                    || c.class@ == "gives ghost"@)
                &&& c.expression_display@ == display_spec(c.expression_code@)
                &&& c.expression_code@.len() > 0
                &&& (c.class@ == "given executable"@ ==> first_contract_error(lex_spec(c.expression_code@), 0) is None)
            } by {
                if k < before.len() {
                    assert(contracts@[k] == before[k]);
                }
            }
        }
        i += 1;
    }
    proof {
        let ks = kept_expressions(crate::text::pieces_at(block@, ';'));
        assert forall|k: int| 0 <= k < ks.len() implies class@ == "given executable"@ ==> first_contract_error(lex_spec(
            #[trigger] ks[k]), 0) is None by {
            assert(views(exprs@)[k] == exprs@[k]@);
        }
        assert(contract_views(contracts@) =~= contract_views(old(contracts)@) + block_contracts(class@, block@)) by {
            assert forall|k: int| 0 <= k < contracts@.len() implies contract_views(contracts@)[k] == (contract_views(
                old(contracts)@) + block_contracts(class@, block@))[k] by {
                if k >= old(contracts)@.len() {
                    let j = k - old(contracts)@.len();
                    assert(contracts@[old(contracts)@.len() + j].expression_code@ == exprs@[j]@);
                    assert(views(exprs@)[j] == exprs@[j]@);
                }
            }
        }
    }
    Ok(())
}

/// Whether some contract has the class.
fn any_class(contracts: &Vec<Contract>, class: &str) -> (r: bool)
    ensures
        r == exists|k: int| 0 <= k < contracts@.len() && (#[trigger] contracts@[k]).class@ == class@,
{
    let mut k: usize = 0;
    while k < contracts.len()
        invariant
            forall|j: int| 0 <= j < k ==> (#[trigger] contracts@[j]).class@ != class@,
        decreases contracts.len() - k,
    {
        if is_lit(&chars_of(contracts[k].class), class) {
            return true;
        }
        k += 1;
    }
    false
}

/// The class and the text after `executable` or `ghost`, for a block
/// opened by `given` (when `given` holds) or `gives`.
pub open spec fn contract_kind_spec(a: Seq<char>, given: bool) -> Option<(Seq<char>, Seq<char>)> {
    match strip_keyword_spec(a, "executable"@) {
        Some(x) => Some((if given { "given executable"@ } else { "gives executable"@ }, x)),
        None => match strip_keyword_spec(a, "ghost"@) {
            Some(x) => Some((if given { "given ghost"@ } else { "gives ghost"@ }, x)),
            None => None,
        },
    }
}

/// The contracts read so far put in front of what the rest gives.
pub open spec fn after_blocks(done: Seq<(Seq<char>, Seq<char>)>, rest: Option<(Seq<(Seq<char>, Seq<char>)>, Seq<char>)>) -> Option<
    (Seq<(Seq<char>, Seq<char>)>, Seq<char>),
> {
    match rest {
        None => None,
        Some((cs, f)) => Some((done + cs, f)),
    }
}

/// Reading the `given`/`gives` blocks in front of a `trust::total!`
/// function: the contracts they give, in order, and the text left for the
/// function; `None` when a block is refused (a missing kind, binder or
/// braces, or an executable `given` that fails the contract check).
pub open spec fn total_blocks(rest: Seq<char>) -> Option<(Seq<(Seq<char>, Seq<char>)>, Seq<char>)>
    decreases rest.len(),
{
    if rest.len() == 0 {
        Some((seq![], rest))
    } else {
        let given = strip_keyword_spec(rest, "given"@) is Some;
        let after_kw = if given {
            strip_keyword_spec(rest, "given"@)
        } else {
            strip_keyword_spec(rest, "gives"@)
        };
        match after_kw {
            None => Some((seq![], rest)),
            Some(a) => match contract_kind_spec(a, given) {
                None => None,
                Some((class, ak)) => {
                    let before_block = if given {
                        Some(trim_start_spec(ak))
                    } else {
                        match pipe_binder_spec(trim_start_spec(ak)) {
                            Some((_, b)) => Some(trim_start_spec(b)),
                            None => None,
                        }
                    };
                    match before_block {
                        None => None,
                        Some(bb) => match braced_spec(bb) {
                            None => None,
                            Some((block, after)) => if !block_ok(class, block) || trim_start_spec(after).len() >= rest.len() {
                                None
                            } else {
                                after_blocks(block_contracts(class, block), total_blocks(trim_start_spec(after)))
                            },
                        },
                    }
                },
            },
        }
    }
}

/// The text starts with `pub`.
pub open spec fn starts_public(f: Seq<char>) -> bool {
    lex_spec(f).len() > 0 && lex_spec(f)[0] == "pub"@
}

/// A `trust::total!` is accepted: its blocks read, the function passes,
/// and a public function has no `given ghost` contract.
pub open spec fn total_accepted(source: Seq<char>) -> bool {
    total_blocks(trim_spec(source)) matches Some((cs, f)) && fn_rejection(lex_spec(f)) is None && !(starts_public(f) && exists|
        k: int| 0 <= k < cs.len() && (#[trigger] cs[k]).0 == "given ghost"@)
}

/// The source opens with neither a `given` nor a `gives` block.
pub open spec fn no_contract_blocks(source: Seq<char>) -> bool {
    strip_keyword_spec(trim_spec(source), "given"@) is None && strip_keyword_spec(trim_spec(source), "gives"@) is None
}

/// Reads one `given` or `gives` block at the start of `rest` into the
/// contracts: the text after it, or `None` when `rest` opens with neither
/// keyword; an error when the block is refused.
#[verifier::rlimit(30)]
fn read_total_block(rest: &[char], contracts: &mut Vec<Contract>) -> (r: Result<Option<Vec<char>>, &'static str>)
    requires
        contracts_well_formed(old(contracts)@),
        rest@.len() > 0,
    ensures
        contracts_well_formed(final(contracts)@),
        r matches Ok(None) ==> total_blocks(rest@) == Some((Seq::<(Seq<char>, Seq<char>)>::empty(), rest@)) && final(
            contracts)@ == old(contracts)@,
        strip_keyword_spec(rest@, "given"@) is None && strip_keyword_spec(rest@, "gives"@) is None ==> r matches Ok(None),
        r matches Ok(Some(next)) ==> next@.len() < rest@.len() && after_blocks(contract_views(old(contracts)@), total_blocks(
            rest@)) == after_blocks(contract_views(final(contracts)@), total_blocks(next@)),
        r is Err ==> total_blocks(rest@) is None,
{
    proof {
        reveal_strlit("given");
        reveal_strlit("gives");
        reveal_strlit("executable");
        reveal_strlit("ghost");
        reveal_strlit("given executable");
        reveal_strlit("given ghost");
        reveal_strlit("gives executable");
        reveal_strlit("gives ghost");
    }
    let given = strip_keyword(rest, "given");
    let is_given = given.is_some();
    let after_kw = match given {
        Some(a) => a,
        None => match strip_keyword(rest, "gives") {
            Some(a) => a,
            None => {
                return Ok(None);
            },
        },
    };
    let (class, after_kind) = if let Some(a) = strip_keyword(&after_kw, "executable") {
        (if is_given { "given executable" } else { "gives executable" }, a)
    } else if let Some(a) = strip_keyword(&after_kw, "ghost") {
        (if is_given { "given ghost" } else { "gives ghost" }, a)
    } else {
        if is_given {
            return Err("error[trust]: `given` must be `given executable` or `given ghost`");
        }
        return Err("error[trust]: `gives` must be `gives executable` or `gives ghost`");
    };
    assert(contract_kind_spec(after_kw@, is_given) == Some((class@, after_kind@)));
    let before_block = if is_given {
        trim_start(&after_kind)
    } else {
        match extract_pipe_binder(&trim_start(&after_kind)) {
            Some((_, a)) => trim_start(&a),
            None => return Err("error[trust]: `gives` requires a result binder like `|out|`"),
        }
    };
    let (block, after_block) = match extract_braced(&before_block) {
        Some(p) => p,
        None => {
            if is_given {
                return Err("error[trust]: `given` requires a braced contract block");
            }
            return Err("error[trust]: `gives` requires a braced contract block");
        },
    };
    let ghost before = contracts@;
    match push_block(contracts, class, &block) {
        Ok(()) => {},
        Err(m) => return Err(m),
    }
    let next = trim_start(&after_block);
    proof {
        assert(total_blocks(rest@) == after_blocks(block_contracts(class@, block@), total_blocks(next@)));
        if let Some(x) = total_blocks(next@) {
            assert(contract_views(before) + (block_contracts(class@, block@) + x.0) =~= contract_views(contracts@) + x.0);
        }
    }
    Ok(Some(next))
}

/// Reads the `given`/`gives` blocks in front of a `trust::total!`
/// function, then checks the function. Executable `given` contracts must
/// be checkable at run time, `gives` blocks need a `|binder|`, and a
/// public function may not have a ghost `given`.
pub fn parse_total_source(source: &[char]) -> (r: Result<TotalExpansion, &'static str>)
    ensures
        r matches Ok(t) ==> fn_rejection(lex_spec(t.fn_source@)) is None,
        no_contract_blocks(source@) ==> (r is Ok <==> fn_rejection(lex_spec(trim_spec(source@))) is None),
        no_contract_blocks(source@) ==> (r matches Err(m) ==> (fn_rejection(lex_spec(trim_spec(source@))) matches Some(k)
            && m@ == fn_check_text(false, k))),
        no_contract_blocks(source@) ==> (r matches Ok(t) ==> t.fn_source@ == trim_spec(source@) && t.contracts@.len()
            == 0),
        r matches Ok(t) ==> contracts_well_formed(t.contracts@),
        r matches Ok(t) ==> t.fn_info.visibility@ == "public"@ ==> forall|k: int| 0 <= k < t.contracts@.len()
            ==> (#[trigger] t.contracts@[k]).class@ != "given ghost"@,
        r matches Ok(t) ==> t.fn_info.visibility@ == "public"@ || t.fn_info.visibility@ == "private"@,
        r is Ok <==> total_accepted(source@),
        r matches Ok(t) ==> total_blocks(trim_spec(source@)) == Some((contract_views(t.contracts@), t.fn_source@)),
{
    proof {
        reveal_strlit("given");
        reveal_strlit("gives");
        reveal_strlit("executable");
        reveal_strlit("ghost");
        reveal_strlit("given ghost");
        reveal_strlit("public");
    }
    let mut rest = trim(source);
    let mut contracts: Vec<Contract> = Vec::new();
    while rest.len() > 0
        invariant
            contracts_well_formed(contracts@),
            no_contract_blocks(source@) ==> rest@ == trim_spec(source@) && contracts@.len() == 0,
            total_blocks(trim_spec(source@)) == after_blocks(contract_views(contracts@), total_blocks(rest@)),
        ensures
            total_blocks(rest@) == Some((Seq::<(Seq<char>, Seq<char>)>::empty(), rest@)),
        decreases rest@.len(),
    {
        match read_total_block(&rest, &mut contracts) {
            Ok(Some(next)) => {
                rest = next;
            },
            Ok(None) => {
                break;
            },
            Err(m) => {
                return Err(m);
            },
        }
    }
    proof {
        assert(contract_views(contracts@) + Seq::<(Seq<char>, Seq<char>)>::empty() =~= contract_views(contracts@));
        assert(total_blocks(trim_spec(source@)) == Some((contract_views(contracts@), rest@)));
    }
    let fn_info = match inspect_total_fn(&rest) {
        Ok(info) => info,
        Err(m) => return Err(m),
    };
    if is_lit(&chars_of(fn_info.visibility), "public") && any_class(&contracts, "given ghost") {
        proof {
            let k = choose|k: int| 0 <= k < contracts@.len() && (#[trigger] contracts@[k]).class@ == "given ghost"@;
            assert(contract_views(contracts@)[k].0 == "given ghost"@);
        }
        return Err("error[trust]: public function has ghost-only precondition");
    }
    proof {
        assert forall|k: int| 0 <= k < contract_views(contracts@).len() implies (#[trigger] contract_views(contracts@)[k]).0
            != "given ghost"@ || !starts_public(rest@) by {
            if starts_public(rest@) {
                assert(contracts@[k].class@ != "given ghost"@);
            }
        }
    }
    Ok(TotalExpansion { fn_source: string_of(&rest), fn_info, contracts })
}

/// An executable spec's body must be a non-empty expression that passes
/// `validate_executable_contract`.
pub fn validate_executable_spec_body(fn_source: &[char]) -> (r: Result<(), &'static str>)
    ensures
        !fn_source@.contains('{') ==> (r matches Err(m) && m@ == "error[trust]: trust::spec! requires a function body"@),
        r is Ok ==> exists|b: Seq<char>| trim_spec(b).len() > 0 && first_contract_error(lex_spec(trim_spec(b)), 0) is None,
{
    let (b, _) = match extract_fn_body(fn_source) {
        Some(p) => p,
        None => return Err("error[trust]: trust::spec! requires a function body"),
    };
    let tb = trim(&b);
    if tb.len() == 0 {
        return Err("error[trust]: executable spec function requires a body expression");
    }
    let r = validate_executable_contract(&tb);
    assert(r is Ok ==> trim_spec(b@).len() > 0 && first_contract_error(lex_spec(trim_spec(b@)), 0) is None);
    r
}

/// `executable fn ..` or `ghost fn ..`: the kind and the function, which
/// `inspect_spec_fn` must accept; an executable spec's body must pass
/// `validate_executable_spec_body`.
pub fn parse_spec_source(source: &[char]) -> (r: Result<SpecExpansion, &'static str>)
    ensures
        strip_keyword_spec(trim_spec(source@), "executable"@) is None && strip_keyword_spec(trim_spec(source@), "ghost"@)
            is None ==> (r matches Err(m) && m@ == "error[trust]: trust::spec! must be `executable fn` or `ghost fn`"@),
        strip_keyword_spec(trim_spec(source@), "executable"@) matches Some(a) ==> (fn_rejection(
            lex_spec(trim_start_spec(a)),
        ) matches Some(k) ==> (r matches Err(m) && m@ == fn_check_text(true, k))),
        strip_keyword_spec(trim_spec(source@), "executable"@) is None ==> (strip_keyword_spec(trim_spec(source@), "ghost"@)
            matches Some(a) ==> (r is Ok <==> fn_rejection(lex_spec(trim_start_spec(a))) is None) && (r matches Err(m)
            ==> (fn_rejection(lex_spec(trim_start_spec(a))) matches Some(k) && m@ == fn_check_text(true, k))) && (
        r matches Ok(spec) ==> spec.kind@ == "ghost"@ && spec.fn_source@ == trim_start_spec(a))),
        r matches Ok(spec) ==> fn_rejection(lex_spec(spec.fn_source@)) is None,
        r matches Ok(spec) ==> (spec.kind@ == "executable"@ || spec.kind@ == "ghost"@),
        r matches Ok(spec) ==> strip_keyword_spec(trim_spec(source@), spec.kind@) is Some,
{
    let rest = trim(source);
    let (kind, fn_source) = if let Some(a) = strip_keyword(&rest, "executable") {
        ("executable", trim_start(&a))
    } else if let Some(a) = strip_keyword(&rest, "ghost") {
        ("ghost", trim_start(&a))
    } else {
        return Err("error[trust]: trust::spec! must be `executable fn` or `ghost fn`");
    };
    let fn_info = match inspect_spec_fn(&fn_source) {
        Ok(info) => info,
        Err(m) => return Err(m),
    };
    if is_lit(&chars_of(kind), "executable") {
        match validate_executable_spec_body(&fn_source) {
            Ok(()) => {},
            Err(m) => return Err(m),
        }
    }
    Ok(SpecExpansion { kind, fn_source: string_of(&fn_source), fn_info })
}

/// The text after the parameter list of the first `fn`: from the first `(`
/// after it to its matching `)`.
/// The text after the `)` that closes the first `(` after the first `fn`.
pub open spec fn after_signature_spec(source: Seq<char>) -> Option<Seq<char>> {
    match crate::text::find_spec(source, "fn"@) {
        None => None,
        Some(p) => match crate::text::first_index(source.skip(p + 2), '(', 0) {
            None => None,
            Some(o) => match crate::tokens::char_group_close(source, '(', ')', p + 2 + o, 0) {
                Some(c) => Some(source.skip(c + 1)),
                None => None,
            },
        },
    }
}

pub fn after_proof_signature(source: &[char]) -> (r: Option<Vec<char>>)
    ensures
        r matches Some(rest) ==> rest@.len() < source@.len(),
        r is Some == after_signature_spec(source@) is Some,
        r matches Some(rest) ==> after_signature_spec(source@) == Some(rest@),
{
    proof {
        reveal_strlit("fn");
    }
    let fn_pos = match crate::text::find(source, &chars_of("fn")) {
        Some(p) => p,
        None => return None,
    };
    assert(crate::text::occurs_at(source@, "fn"@, fn_pos as int));
    let sl = source.len();
    let after_fn = slice_of(source, fn_pos + 2, sl);
    assert(after_fn@ =~= source@.skip(fn_pos + 2));
    let open_offset = match find_char(&after_fn, '(') {
        Some(o) => o,
        None => {
            proof {
                crate::text::lemma_first_index(after_fn@, '(', 0, None);
            }
            return None;
        },
    };
    proof {
        crate::text::lemma_first_index(after_fn@, '(', 0, Some(open_offset as int));
    }
    let start = fn_pos + 2 + open_offset;
    let mut depth: usize = 0;
    let mut idx = start;
    while idx < sl
        invariant
            start <= idx <= sl,
            sl == source@.len(),
            start < sl,
            source@[start as int] == '(',
            idx > start ==> depth >= 1,
            idx == start ==> depth == 0,
            depth <= idx - start,
            crate::tokens::char_group_close(source@, '(', ')', start as int, 0) == crate::tokens::char_group_close(source@,
                '(', ')', idx as int, depth as int),
            after_signature_spec(source@) == match crate::tokens::char_group_close(source@, '(', ')', start as int, 0) {
                Some(c) => Some(source@.skip(c + 1)),
                None => None,
            },
        decreases sl - idx,
    {
        if source[idx] == '(' {
            depth = depth.saturating_add(1);
        } else if source[idx] == ')' {
            depth = depth - 1;
            if depth == 0 {
                return Some(slice_of(source, idx + 1, sl));
            }
        }
        idx += 1;
    }
    None
}

/// Whether some contract's class starts with `gives`.
fn any_gives(contracts: &Vec<Contract>) -> (r: bool)
    ensures
        r == exists|k: int| 0 <= k < contracts@.len() && starts_with_spec((#[trigger] contracts@[k]).class@, "gives"@),
{
    let mut k: usize = 0;
    while k < contracts.len()
        invariant
            forall|j: int| 0 <= j < k ==> !starts_with_spec((#[trigger] contracts@[j]).class@, "gives"@),
        decreases contracts.len() - k,
    {
        if starts_with_lit(&chars_of(contracts[k].class), "gives") {
            return true;
        }
        k += 1;
    }
    false
}

/// Which check the header of a `trust::proof!` function fails, or `None`
/// when it passes them all: 0 no `fn`, 1 `pub`, 2 `async`, 3 `unsafe`,
/// 4 `extern` in front of the first `fn`, 5 generic parameters after the
/// name, 6 no name after it.
pub open spec fn proof_fn_rejection(t: Seq<Seq<char>>) -> Option<int> {
    if !(exists|i: int| 0 <= i < t.len() && #[trigger] t[i] == "fn"@) {
        Some(0)
    } else {
        let i = choose|i: int| 0 <= i < t.len() && #[trigger] t[i] == "fn"@ && forall|k: int| 0 <= k < i ==> t[k] != "fn"@;
        if exists|k: int| 0 <= k < i && #[trigger] t[k] == "pub"@ {
            Some(1)
        } else if exists|k: int| 0 <= k < i && #[trigger] t[k] == "async"@ {
            Some(2)
        } else if exists|k: int| 0 <= k < i && #[trigger] t[k] == "unsafe"@ {
            Some(3)
        } else if exists|k: int| 0 <= k < i && #[trigger] t[k] == "extern"@ {
            Some(4)
        } else if i + 2 < t.len() && t[i + 2] == seq!['<'] {
            Some(5)
        } else if !(i + 1 < t.len() && is_ident_token(t[i + 1])) {
            Some(6)
        } else {
            None
        }
    }
}

/// The message for refusing a `trust::proof!` header at check `k`.
pub open spec fn proof_check_text(k: int) -> Seq<char> {
    if k == 0 {
        "error[trust]: trust::proof! requires a proof function"@
    } else if k == 1 {
        "error[trust]: proof functions are erased and cannot be public Rust APIs"@
    } else if k == 2 {
        "error[trust]: async proof functions are not supported in Trust MVP"@
    } else if k == 3 {
        "error[trust]: unsafe proof functions are not supported in Trust MVP"@
    } else if k == 4 {
        "error[trust]: extern proof functions are not supported in Trust MVP"@
    } else if k == 5 {
        "error[trust]: generic proof functions are not supported in MVP"@
    } else {
        "error[trust]: trust::proof! could not read function name"@
    }
}

/// Reading the `given`/`gives` blocks of a `trust::proof!` up to its body
/// (the first `{`): the contracts, in order, and the text from the body
/// on; `None` when a block is refused (neither keyword, a missing kind or
/// braces, or an executable `given` that fails the contract check).
pub open spec fn proof_blocks(rest: Seq<char>) -> Option<(Seq<(Seq<char>, Seq<char>)>, Seq<char>)>
    decreases rest.len(),
{
    if rest.len() == 0 || rest[0] == '{' {
        Some((seq![], rest))
    } else {
        let given = strip_keyword_spec(rest, "given"@) is Some;
        let after_kw = if given {
            strip_keyword_spec(rest, "given"@)
        } else {
            strip_keyword_spec(rest, "gives"@)
        };
        match after_kw {
            None => None,
            Some(a) => match contract_kind_spec(a, given) {
                None => None,
                Some((class, ak)) => match braced_spec(trim_start_spec(ak)) {
                    None => None,
                    Some((block, after)) => if !block_ok(class, block) || trim_start_spec(after).len() >= rest.len() {
                        None
                    } else {
                        after_blocks(block_contracts(class, block), proof_blocks(trim_start_spec(after)))
                    },
                },
            },
        }
    }
}

/// A `trust::proof!` is accepted: the header passes, a parameter list is
/// there, the blocks read, a braced body follows with nothing after it,
/// and an empty body gives nothing back.
pub open spec fn proof_accepted_source(source: Seq<char>) -> bool {
    let src = trim_spec(source);
    &&& proof_fn_rejection(lex_spec(src)) is None
    &&& after_signature_spec(src) matches Some(a) && proof_blocks(trim_start_spec(a)) matches Some((cs, rest)) && braced_spec(
        rest) matches Some((b, after)) && trim_spec(after).len() == 0 && !(trim_spec(b).len() == 0 && exists|k: int| 0 <= k
        < cs.len() && starts_with_spec((#[trigger] cs[k]).0, "gives"@))
}

/// The contracts are those the proof's blocks give.
pub open spec fn proof_contracts_read(source: Seq<char>, cs: Seq<(Seq<char>, Seq<char>)>) -> bool {
    after_signature_spec(trim_spec(source)) matches Some(a) && proof_blocks(trim_start_spec(a)) matches Some((c, _)) && c == cs
}

/// Reads one `given` or `gives` block at the start of `rest` (which does
/// not open the body) into the contracts, giving the text after it.
#[verifier::rlimit(30)]
fn read_proof_block(rest: &[char], contracts: &mut Vec<Contract>) -> (r: Result<Vec<char>, &'static str>)
    requires
        contracts_well_formed(old(contracts)@),
        rest@.len() > 0,
        rest@[0] != '{',
    ensures
        contracts_well_formed(final(contracts)@),
        r matches Ok(next) ==> next@.len() < rest@.len() && after_blocks(contract_views(old(contracts)@), proof_blocks(rest@))
            == after_blocks(contract_views(final(contracts)@), proof_blocks(next@)),
        r is Err ==> proof_blocks(rest@) is None,
{
    proof {
        reveal_strlit("given");
        reveal_strlit("gives");
    }
    let given = strip_keyword(rest, "given");
    let is_given = given.is_some();
    let after_kw = match given {
        Some(a) => a,
        None => match strip_keyword(rest, "gives") {
            Some(a) => a,
            None => return Err("error[trust]: proof contracts must be `given` or `gives` blocks"),
        },
    };
    let (class, after_kind) = match proof_contract_kind(&after_kw, is_given) {
        Ok(p) => p,
        Err(m) => return Err(m),
    };
    let (block, after_block) = match extract_braced(&trim_start(&after_kind)) {
        Some(p) => p,
        None => {
            if is_given {
                return Err("error[trust]: `given` requires a braced contract block");
            }
            return Err("error[trust]: `gives` requires a braced contract block");
        },
    };
    let ghost before = contracts@;
    match push_block(contracts, class, &block) {
        Ok(()) => {},
        Err(m) => return Err(m),
    }
    let next = trim_start(&after_block);
    proof {
        assert(proof_blocks(rest@) == after_blocks(block_contracts(class@, block@), proof_blocks(next@)));
        if let Some(x) = proof_blocks(next@) {
            assert(contract_views(before) + (block_contracts(class@, block@) + x.0) =~= contract_views(contracts@) + x.0);
        }
    }
    Ok(next)
}

/// A `trust::proof!`: a private, synchronous, safe, non-generic `fn` with
/// a parameter list, `given`/`gives` blocks, and a body that may be empty
/// only when nothing is given back.
pub fn parse_proof_source(source: &[char]) -> (r: Result<ProofExpansion, &'static str>)
    ensures
        r matches Ok(p) ==> contracts_well_formed(p.contracts@),
        r matches Ok(p) ==> p.fn_info.visibility@ == "private"@,
        proof_fn_rejection(lex_spec(trim_spec(source@))) matches Some(k) ==> (r matches Err(m) && m@ == proof_check_text(k)),
        r is Ok ==> proof_fn_rejection(lex_spec(trim_spec(source@))) is None,
        r is Ok <==> proof_accepted_source(source@),
        r matches Ok(p) ==> proof_contracts_read(source@, contract_views(p.contracts@)),
{
    let src = trim(source);
    let t = lex(&src);
    let ghost tv = views(t@);
    let mut fn_idx: usize = 0;
    while fn_idx < t.len() && !is_lit(&t[fn_idx], "fn")
        invariant
            fn_idx <= t@.len(),
            forall|k: int| 0 <= k < fn_idx ==> (#[trigger] t@[k])@ != "fn"@,
        decreases t.len() - fn_idx,
    {
        fn_idx += 1;
    }
    if fn_idx >= t.len() {
        assert(!(exists|i: int| 0 <= i < tv.len() && #[trigger] tv[i] == "fn"@)) by {
            assert forall|i: int| 0 <= i < tv.len() implies #[trigger] tv[i] != "fn"@ by {
                assert(tv[i] == t@[i]@);
            }
        }
        return Err("error[trust]: trust::proof! requires a proof function");
    }
    proof {
        assert(tv[fn_idx as int] == "fn"@);
        assert(forall|k: int| 0 <= k < fn_idx ==> tv[k] != "fn"@) by {
            assert forall|k: int| 0 <= k < fn_idx implies tv[k] != "fn"@ by {
                assert(tv[k] == t@[k]@);
            }
        }
        let c = choose|i: int| 0 <= i < tv.len() && #[trigger] tv[i] == "fn"@ && forall|k: int| 0 <= k < i ==> tv[k] != "fn"@;
        assert(c == fn_idx) by {
            if c < fn_idx {
                assert(tv[c] != "fn"@);
            } else if c > fn_idx {
                assert(tv[fn_idx as int] != "fn"@);
            }
        }
    }
    if has_ident_before(&t, fn_idx, "pub") {
        let ghost k = choose|k: int| 0 <= k < fn_idx && (#[trigger] t@[k])@ == "pub"@;
        assert(tv[k] == "pub"@);
        return Err("error[trust]: proof functions are erased and cannot be public Rust APIs");
    }
    assert(!exists|k: int| 0 <= k < fn_idx && #[trigger] tv[k] == "pub"@) by {
        assert forall|k: int| 0 <= k < fn_idx implies #[trigger] tv[k] != "pub"@ by {
            assert(tv[k] == t@[k]@);
        }
    }
    if has_ident_before(&t, fn_idx, "async") {
        let ghost k = choose|k: int| 0 <= k < fn_idx && (#[trigger] t@[k])@ == "async"@;
        assert(tv[k] == "async"@);
        return Err("error[trust]: async proof functions are not supported in Trust MVP");
    }
    assert(!exists|k: int| 0 <= k < fn_idx && #[trigger] tv[k] == "async"@) by {
        assert forall|k: int| 0 <= k < fn_idx implies #[trigger] tv[k] != "async"@ by {
            assert(tv[k] == t@[k]@);
        }
    }
    if has_ident_before(&t, fn_idx, "unsafe") {
        let ghost k = choose|k: int| 0 <= k < fn_idx && (#[trigger] t@[k])@ == "unsafe"@;
        assert(tv[k] == "unsafe"@);
        return Err("error[trust]: unsafe proof functions are not supported in Trust MVP");
    }
    assert(!exists|k: int| 0 <= k < fn_idx && #[trigger] tv[k] == "unsafe"@) by {
        assert forall|k: int| 0 <= k < fn_idx implies #[trigger] tv[k] != "unsafe"@ by {
            assert(tv[k] == t@[k]@);
        }
    }
    if has_ident_before(&t, fn_idx, "extern") {
        let ghost k = choose|k: int| 0 <= k < fn_idx && (#[trigger] t@[k])@ == "extern"@;
        assert(tv[k] == "extern"@);
        return Err("error[trust]: extern proof functions are not supported in Trust MVP");
    }
    assert(!exists|k: int| 0 <= k < fn_idx && #[trigger] tv[k] == "extern"@) by {
        assert forall|k: int| 0 <= k < fn_idx implies #[trigger] tv[k] != "extern"@ by {
            assert(tv[k] == t@[k]@);
        }
    }
    let n = t.len();
    if n - fn_idx > 2 && tok_char(&t, fn_idx + 2, '<') {
        return Err("error[trust]: generic proof functions are not supported in MVP");
    }
    let name = if n - fn_idx > 1 && t[fn_idx + 1].len() > 0 && (ascii_alpha(t[fn_idx + 1][0]) || t[fn_idx + 1][0] == '_') {
        assert(is_ident_token(tv[fn_idx + 1]));
        string_of(&t[fn_idx + 1])
    } else {
        assert(!(fn_idx + 1 < tv.len() && is_ident_token(tv[fn_idx + 1])));
        return Err("error[trust]: trust::proof! could not read function name");
    };
    assert(proof_fn_rejection(lex_spec(trim_spec(source@))) is None);
    let after_signature = match after_proof_signature(&src) {
        Some(a) => a,
        None => return Err("error[trust]: trust::proof! requires a parameter list"),
    };
    let mut rest = trim_start(&after_signature);
    let mut contracts: Vec<Contract> = Vec::new();
    assert(contract_views(contracts@) =~= Seq::<(Seq<char>, Seq<char>)>::empty());
    assert(after_blocks(contract_views(contracts@), proof_blocks(rest@)) == proof_blocks(rest@)) by {
        if let Some(x) = proof_blocks(rest@) {
            assert(Seq::<(Seq<char>, Seq<char>)>::empty() + x.0 =~= x.0);
        }
    }
    while rest.len() > 0 && rest[0] != '{'
        invariant
            contracts_well_formed(contracts@),
            proof_fn_rejection(lex_spec(trim_spec(source@))) is None,
            after_signature_spec(src@) == Some(after_signature@),
            src@ == trim_spec(source@),
            proof_blocks(trim_start_spec(after_signature@)) == after_blocks(contract_views(contracts@), proof_blocks(rest@)),
        decreases rest@.len(),
    {
        match read_proof_block(&rest, &mut contracts) {
            Ok(next) => {
                rest = next;
                continue;
            },
            Err(m) => {
                assert(proof_blocks(trim_start_spec(after_signature@)) is None);
                assert(src@ == trim_spec(source@));
                assert(!proof_accepted_source(source@));
                return Err(m);
            },
        }
    }
    let (b, after_body) = match extract_braced(&rest) {
        Some(p) => p,
        None => return Err("error[trust]: trust::proof! requires a proof body"),
    };
    if trim(&after_body).len() > 0 {
        return Err("error[trust]: unexpected tokens after proof body");
    }
    proof {
        assert(contract_views(contracts@) + Seq::<(Seq<char>, Seq<char>)>::empty() =~= contract_views(contracts@));
        assert(proof_blocks(rest@) == Some((Seq::<(Seq<char>, Seq<char>)>::empty(), rest@)));
        assert(proof_blocks(trim_start_spec(after_signature@)) == Some((contract_views(contracts@), rest@)));
        assert((exists|k: int| 0 <= k < contracts@.len() && starts_with_spec((#[trigger] contracts@[k]).class@, "gives"@)) <==> (
            exists|k: int| 0 <= k < contract_views(contracts@).len() && starts_with_spec((#[trigger] contract_views(
            contracts@)[k]).0, "gives"@))) by {
            if exists|k: int| 0 <= k < contracts@.len() && starts_with_spec((#[trigger] contracts@[k]).class@, "gives"@) {
                let k = choose|k: int| 0 <= k < contracts@.len() && starts_with_spec((#[trigger] contracts@[k]).class@, "gives"@);
                assert(contract_views(contracts@)[k].0 == contracts@[k].class@);
            }
        }
    }
    if trim(&b).len() == 0 && any_gives(&contracts) {
        return Err("error[trust]: empty proof body cannot prove a nontrivial lemma");
    }
    Ok(ProofExpansion { fn_info: FnInfo { name, visibility: "private" }, contracts })
}

/// The scalar types a `TrustModel` field may have: `bool`, `char` and the
/// primitive integers; nothing with `<`, `>`, `*`, `&`, parentheses,
/// `dyn`, `fn` or `UnsafeCell` in it.
pub open spec fn model_field_type_spec(ty: Seq<char>) -> bool {
    let bad = ty.contains('<') || ty.contains('>') || ty.contains('*') || ty.contains('&') || ty.contains('(')
        || ty.contains(')') || (exists|k: int| crate::text::occurs_at(ty, "dyn"@, k)) || (exists|k: int|
        crate::text::occurs_at(ty, "fn"@, k)) || (exists|k: int| crate::text::occurs_at(ty, "UnsafeCell"@, k));
    let t = trim_spec(ty);
    !bad && (t == "bool"@ || t == "char"@ || t == "i8"@ || t == "i16"@ || t == "i32"@ || t == "i64"@ || t
        == "i128"@ || t == "isize"@ || t == "u8"@ || t == "u16"@ || t == "u32"@ || t == "u64"@ || t == "u128"@
        || t == "usize"@)
}

pub fn is_supported_trust_model_field_type(ty: &[char]) -> (r: bool)
    ensures
        r == model_field_type_spec(ty@),
{
    if contains_char(ty, '<') || contains_char(ty, '>') || contains_char(ty, '*') || contains_char(ty, '&')
        || contains_char(ty, '(') || contains_char(ty, ')') || contains_lit(ty, "dyn") || contains_lit(ty, "fn")
        || contains_lit(ty, "UnsafeCell") {
        return false;
    }
    let t = trim(ty);
    is_lit(&t, "bool") || is_lit(&t, "char") || is_lit(&t, "i8") || is_lit(&t, "i16") || is_lit(&t, "i32")
        || is_lit(&t, "i64") || is_lit(&t, "i128") || is_lit(&t, "isize") || is_lit(&t, "u8") || is_lit(&t, "u16")
        || is_lit(&t, "u32") || is_lit(&t, "u64") || is_lit(&t, "u128") || is_lit(&t, "usize")
}

/// Each non-empty comma-separated field of the struct's braced body must
/// be `name: ty` with `ty` a supported scalar.
/// The text between commas at `x..y` of `b`, trimmed, is a field whose
/// type (after its last `:`) the models do not support.
pub open spec fn bad_field_type(b: Seq<char>, x: int, y: int) -> bool {
    let f = trim_spec(b.subrange(x, y));
    &&& 0 <= x <= y <= b.len()
    &&& forall|k: int| x <= k < y ==> b[k] != ','
    &&& exists|c: int| 0 <= c < f.len() && f[c] == ':' && (forall|k: int| c < k < f.len() ==> f[k] != ':')
        && !model_field_type_spec(trim_spec(f.subrange(c + 1, f.len() as int)))
}

/// The text between commas at `x..y` of `b`, trimmed, is a field without
/// a name.
pub open spec fn unnamed_field(b: Seq<char>, x: int, y: int) -> bool {
    let f = trim_spec(b.subrange(x, y));
    &&& 0 <= x <= y <= b.len()
    &&& forall|k: int| x <= k < y ==> b[k] != ','
    &&& f.len() > 0
    &&& forall|k: int| 0 <= k < f.len() ==> f[k] != ':'
}

/// Some field has a type the models do not support.
pub open spec fn has_bad_field_type(b: Seq<char>) -> bool {
    exists|x: int, y: int| bad_field_type(b, x, y)
}

/// Some field has no name.
pub open spec fn has_unnamed_field(b: Seq<char>) -> bool {
    exists|x: int, y: int| unnamed_field(b, x, y)
}

/// The braced body of the text from its first `{`.
pub open spec fn model_body(source: Seq<char>) -> Option<Seq<char>> {
    match crate::text::first_index(source, '{', 0) {
        Some(start) => match braced_spec(source.skip(start)) {
            Some(p) => Some(p.0),
            None => None,
        },
        None => None,
    }
}

pub fn validate_trust_model_fields(source: &[char]) -> (r: Result<(), &'static str>)
    ensures
        !source@.contains('{') ==> (r matches Err(m) && m@ == "error[trust]: TrustModel derive requires a braced struct body"@),
        r matches Err(m) && m@ == "error[trust]: field type is not supported by TrustModel MVP"@ ==> (model_body(source@) matches Some(
            b) && has_bad_field_type(b)),
        r matches Err(m) && m@ == "error[trust]: TrustModel derive supports named fields in this MVP"@ ==> (model_body(source@)
            matches Some(b) && has_unnamed_field(b)),
        r matches Err(m) ==> (m@ == "error[trust]: TrustModel derive requires a braced struct body"@ && model_body(source@) is None)
            || m@ == "error[trust]: field type is not supported by TrustModel MVP"@ || m@
            == "error[trust]: TrustModel derive supports named fields in this MVP"@,
        model_body(source@) matches Some(b) && !has_bad_field_type(b) && !has_unnamed_field(b) ==> r is Ok,
{
    proof {
        reveal_strlit("error[trust]: TrustModel derive requires a braced struct body");
        reveal_strlit("error[trust]: field type is not supported by TrustModel MVP");
        reveal_strlit("error[trust]: TrustModel derive supports named fields in this MVP");
        assert("error[trust]: TrustModel derive requires a braced struct body"@[14] != "error[trust]: field type is not supported by TrustModel MVP"@[14]);
        assert("error[trust]: TrustModel derive requires a braced struct body"@[32] != "error[trust]: TrustModel derive supports named fields in this MVP"@[32]);
        assert("error[trust]: field type is not supported by TrustModel MVP"@[14] != "error[trust]: TrustModel derive supports named fields in this MVP"@[14]);
    }
    let start = match find_char(source, '{') {
        Some(s) => s,
        None => {
            proof {
                crate::text::lemma_first_index(source@, '{', 0, None);
            }
            return Err("error[trust]: TrustModel derive requires a braced struct body");
        },
    };
    let sl = source.len();
    proof {
        crate::text::lemma_first_index(source@, '{', 0, Some(start as int));
        assert(source@.subrange(start as int, sl as int) =~= source@.skip(start as int));
    }
    let (b, _) = match extract_braced(&slice_of(source, start, sl)) {
        Some(p) => p,
        None => return Err("error[trust]: TrustModel derive requires a braced struct body"),
    };
    assert(source@.contains('{')) by {
        assert(source@[start as int] == '{');
    }
    assert(model_body(source@) == Some(b@));
    let mut begin: usize = 0;
    let mut i: usize = 0;
    let n = b.len();
    while i <= n
        invariant
            begin <= i <= n + 1,
            begin <= n,
            n == b@.len(),
            source@.contains('{'),
            model_body(source@) == Some(b@),
            i <= n ==> forall|k: int| begin <= k < i ==> b@[k] != ',',
        decreases n + 1 - i,
    {
        if i == n || b[i] == ',' {
            let field = trim(&slice_of(&b, begin, i));
            if field.len() > 0 {
                match rfind_char(&field, ':') {
                    Some(c) => {
                        let fl = field.len();
                        let ty = trim(&slice_of(&field, c + 1, fl));
                        if !is_supported_trust_model_field_type(&ty) {
                            assert(bad_field_type(b@, begin as int, i as int));
                            assert(has_bad_field_type(b@));
                            proof {
                                reveal_strlit("error[trust]: TrustModel derive requires a braced struct body");
                                reveal_strlit("error[trust]: field type is not supported by TrustModel MVP");
                                reveal_strlit("error[trust]: TrustModel derive supports named fields in this MVP");
                                assert("error[trust]: TrustModel derive requires a braced struct body"@[14] != "error[trust]: field type is not supported by TrustModel MVP"@[14]);
                                assert("error[trust]: TrustModel derive requires a braced struct body"@[32] != "error[trust]: TrustModel derive supports named fields in this MVP"@[32]);
                                assert("error[trust]: field type is not supported by TrustModel MVP"@[14] != "error[trust]: TrustModel derive supports named fields in this MVP"@[14]);
                            }
                            return Err("error[trust]: field type is not supported by TrustModel MVP");
                        }
                    },
                    None => {
                        assert(unnamed_field(b@, begin as int, i as int));
                        assert(has_unnamed_field(b@));
                        proof {
                            reveal_strlit("error[trust]: TrustModel derive requires a braced struct body");
                            reveal_strlit("error[trust]: field type is not supported by TrustModel MVP");
                            reveal_strlit("error[trust]: TrustModel derive supports named fields in this MVP");
                            assert("error[trust]: TrustModel derive requires a braced struct body"@[14] != "error[trust]: field type is not supported by TrustModel MVP"@[14]);
                            assert("error[trust]: TrustModel derive requires a braced struct body"@[32] != "error[trust]: TrustModel derive supports named fields in this MVP"@[32]);
                            assert("error[trust]: field type is not supported by TrustModel MVP"@[14] != "error[trust]: TrustModel derive supports named fields in this MVP"@[14]);
                        }
                        return Err("error[trust]: TrustModel derive supports named fields in this MVP");
                    },
                }
            }
            if i == n {
                break;
            }
            begin = i + 1;
        }
        i += 1;
    }
    Ok(())
}

/// A `#[derive(TrustModel)]` input: a non-generic braced `struct` whose
/// fields pass `validate_trust_model_fields`.
/// The first `struct` token is at `i`.
pub open spec fn first_struct(t: Seq<Seq<char>>, i: int) -> bool {
    0 <= i < t.len() && t[i] == "struct"@ && forall|j: int| 0 <= j < i ==> t[j] != "struct"@
}

/// The token after `struct` starts like a type name.
pub open spec fn struct_name_ok(t: Seq<Seq<char>>, i: int) -> bool {
    i + 1 < t.len() && t[i + 1].len() > 0 && (crate::text::is_ascii_alpha(t[i + 1][0]) || t[i + 1][0] == '_')
}

/// A `<` follows the type name.
pub open spec fn struct_generic(t: Seq<Seq<char>>, i: int) -> bool {
    i + 2 < t.len() && t[i + 2] == seq!['<']
}

/// The struct's braced body reads, and each of its fields is named and
/// of a supported type.
pub open spec fn model_fields_ok(source: Seq<char>) -> bool {
    model_body(source) matches Some(b) && !has_bad_field_type(b) && !has_unnamed_field(b)
}

pub fn parse_trust_model_source(source: &[char]) -> (r: Result<ModelInfo, &'static str>)
    ensures
        forall|i: int| #[trigger] first_struct(lex_spec(source@), i) && struct_name_ok(lex_spec(source@), i) && struct_generic(
            lex_spec(source@), i) ==> (r matches Err(m) && m@ == "error[trust]: generic TrustModel types are not supported in MVP"@),
        r is Ok ==> exists|i: int| #[trigger] first_struct(lex_spec(source@), i) && struct_name_ok(lex_spec(source@), i)
            && !struct_generic(lex_spec(source@), i) && lex_spec(source@).contains(seq!['{']),
        forall|i: int| #[trigger] first_struct(lex_spec(source@), i) && !struct_name_ok(lex_spec(source@), i) ==> (r matches Err(
            m) && m@ == "error[trust]: TrustModel derive could not read type name"@),
        (forall|i: int| 0 <= i < lex_spec(source@).len() ==> #[trigger] lex_spec(source@)[i] != "struct"@) ==> (r matches Err(
            m) && m@ == "error[trust]: TrustModel derive supports simple structs in this MVP"@),
        r matches Ok(m) ==> exists|i: int| 0 <= i && i + 1 < lex_spec(source@).len() && #[trigger] lex_spec(source@)[i]
            == "struct"@ && lex_spec(source@)[i + 1] == m.name@ && (forall|j: int| 0 <= j < i ==> lex_spec(source@)[j]
            != "struct"@),
        r matches Err(m) && m@ == "error[trust]: field type is not supported by TrustModel MVP"@ ==> (model_body(source@)
            matches Some(b) && has_bad_field_type(b)),
        forall|i: int| #[trigger] first_struct(lex_spec(source@), i) && struct_name_ok(lex_spec(source@), i) && !struct_generic(
            lex_spec(source@), i) && lex_spec(source@).contains(seq!['{']) && model_fields_ok(source@) ==> (r matches Ok(m)
            && m.name@ == lex_spec(source@)[i + 1]),
{
    proof {
        reveal_strlit("error[trust]: field type is not supported by TrustModel MVP");
        reveal_strlit("error[trust]: TrustModel derive supports simple structs in this MVP");
        assert("error[trust]: TrustModel derive supports simple structs in this MVP"@[14] != "error[trust]: field type is not supported by TrustModel MVP"@[14]);
        reveal_strlit("error[trust]: TrustModel derive could not read type name");
        assert("error[trust]: TrustModel derive could not read type name"@[14] != "error[trust]: field type is not supported by TrustModel MVP"@[14]);
        reveal_strlit("error[trust]: generic TrustModel types are not supported in MVP");
        assert("error[trust]: generic TrustModel types are not supported in MVP"@[14] != "error[trust]: field type is not supported by TrustModel MVP"@[14]);
        reveal_strlit("error[trust]: TrustModel derive requires a braced struct body");
        assert("error[trust]: TrustModel derive requires a braced struct body"@[14] != "error[trust]: field type is not supported by TrustModel MVP"@[14]);
    }
    let t = lex(source);
    let mut idx: usize = 0;
    while idx < t.len() && !is_lit(&t[idx], "struct")
        invariant
            idx <= t@.len(),
            views(t@) == lex_spec(source@),
            forall|j: int| 0 <= j < idx ==> lex_spec(source@)[j] != "struct"@,
        decreases t.len() - idx,
    {
        idx += 1;
    }
    if idx >= t.len() {
        return Err("error[trust]: TrustModel derive supports simple structs in this MVP");
    }
    assert(lex_spec(source@)[idx as int] == "struct"@);
    let n = t.len();
    let name = if n - idx > 1 && t[idx + 1].len() > 0 && (ascii_alpha(t[idx + 1][0]) || t[idx + 1][0] == '_') {
        string_of(&t[idx + 1])
    } else {
        return Err("error[trust]: TrustModel derive could not read type name");
    };
    assert(first_struct(lex_spec(source@), idx as int));
    assert(views(t@)[idx + 1] == t@[idx + 1]@);
    assert forall|i: int| #[trigger] first_struct(lex_spec(source@), i) implies i == idx by {
        if i < idx {
        } else if i > idx {
            assert(lex_spec(source@)[idx as int] == "struct"@);
        }
    }
    if n - idx > 2 && tok_char(&t, idx + 2, '<') {
        return Err("error[trust]: generic TrustModel types are not supported in MVP");
    }
    if !has_body_group(&t) {
        return Err("error[trust]: TrustModel derive requires a braced struct body");
    }
    proof {
        let k = choose|k: int| 0 <= k < t@.len() && (#[trigger] t@[k])@ == seq!['{'];
        assert(lex_spec(source@)[k] == seq!['{']);
    }
    match validate_trust_model_fields(source) {
        Ok(()) => Ok(ModelInfo { name }),
        Err(m) => Err(m),
    }
}

/// The name of the module a `#[trust::module]` is on, and whether `pub`
/// comes before `mod`.
/// What a `#[trust::module]` item's tokens give: the name after the first
/// `mod` and whether `pub` comes before it, or the message refusing it.
pub open spec fn module_info_spec(t: Seq<Seq<char>>) -> Result<(Seq<char>, Seq<char>), Seq<char>> {
    if !(exists|i: int| 0 <= i < t.len() && #[trigger] t[i] == "mod"@) {
        Err("error[trust]: #[trust::module] must be applied to a module"@)
    } else {
        let i = choose|i: int| 0 <= i < t.len() && #[trigger] t[i] == "mod"@ && forall|k: int| 0 <= k < i ==> t[k] != "mod"@;
        if !(i + 1 < t.len() && is_ident_token(t[i + 1])) {
            Err("error[trust]: #[trust::module] could not read module name"@)
        } else if exists|k: int| 0 <= k < i && #[trigger] t[k] == "pub"@ {
            Ok((t[i + 1], "public"@))
        } else {
            Ok((t[i + 1], "private"@))
        }
    }
}

pub fn inspect_module_info(input: &[char]) -> (r: Result<ModuleInfo, &'static str>)
    ensures
        r matches Ok(m) ==> m.visibility@ == "public"@ || m.visibility@ == "private"@,
        r matches Ok(m) ==> module_info_spec(lex_spec(input@)) == Ok::<(Seq<char>, Seq<char>), Seq<char>>((m.name@, m.visibility@)),
        r matches Err(e) ==> module_info_spec(lex_spec(input@)) == Err::<(Seq<char>, Seq<char>), Seq<char>>(e@),
{
    let t = lex(input);
    let ghost tv = views(t@);
    let mut idx: usize = 0;
    while idx < t.len() && !is_lit(&t[idx], "mod")
        invariant
            idx <= t@.len(),
            forall|k: int| 0 <= k < idx ==> (#[trigger] t@[k])@ != "mod"@,
        decreases t.len() - idx,
    {
        idx += 1;
    }
    if idx >= t.len() {
        assert(!(exists|i: int| 0 <= i < tv.len() && #[trigger] tv[i] == "mod"@)) by {
            assert forall|i: int| 0 <= i < tv.len() implies #[trigger] tv[i] != "mod"@ by {
                assert(tv[i] == t@[i]@);
            }
        }
        return Err("error[trust]: #[trust::module] must be applied to a module");
    }
    proof {
        assert(tv[idx as int] == "mod"@);
        assert(forall|k: int| 0 <= k < idx ==> tv[k] != "mod"@) by {
            assert forall|k: int| 0 <= k < idx implies tv[k] != "mod"@ by {
                assert(tv[k] == t@[k]@);
            }
        }
        let c = choose|i: int| 0 <= i < tv.len() && #[trigger] tv[i] == "mod"@ && forall|k: int| 0 <= k < i ==> tv[k] != "mod"@;
        assert(c == idx) by {
            if c < idx {
                assert(tv[c] != "mod"@);
            } else if c > idx {
                assert(tv[idx as int] != "mod"@);
            }
        }
    }
    let n = t.len();
    let name = if n - idx > 1 && t[idx + 1].len() > 0 && (ascii_alpha(t[idx + 1][0]) || t[idx + 1][0] == '_') {
        assert(is_ident_token(tv[idx + 1]));
        string_of(&t[idx + 1])
    } else {
        assert(!(idx + 1 < tv.len() && is_ident_token(tv[idx + 1])));
        return Err("error[trust]: #[trust::module] could not read module name");
    };
    proof {
        reveal_strlit("public");
        reveal_strlit("private");
    }
    let visibility = if has_ident_before(&t, idx, "pub") {
        let ghost k = choose|k: int| 0 <= k < idx && (#[trigger] t@[k])@ == "pub"@;
        assert(tv[k] == "pub"@);
        "public"
    } else {
        assert(!exists|k: int| 0 <= k < idx && #[trigger] tv[k] == "pub"@) by {
            assert forall|k: int| 0 <= k < idx implies #[trigger] tv[k] != "pub"@ by {
                assert(tv[k] == t@[k]@);
            }
        }
        "private"
    };
    Ok(ModuleInfo { name, visibility })
}

/// A Trust macro that may stand at the top level of a module.
pub open spec fn trust_macro_name(w: Seq<char>) -> bool {
    w == "total"@ || w == "spec"@ || w == "proof"@ || w == "trusted_model"@
}

/// Reading a module body from token `i` at brace depth `depth`: `0` when
/// the body closes (or the tokens end) with nothing refused, `1` at the
/// first top-level `unsafe`, `2` at the first top-level `fn`. Trust macro
/// invocations at the top level are skipped whole.
pub open spec fn module_scan(t: Seq<Seq<char>>, i: int, depth: int) -> int
    decreases t.len() - i,
{
    if i < 0 || i >= t.len() || depth <= 0 {
        0
    } else if depth == 1 && trust_macro_name(t[i]) {
        if i < macro_group_end(t, i) <= t.len() {
            module_scan(t, macro_group_end(t, i), depth)
        } else {
            0
        }
    } else if depth == 1 && t[i] == "unsafe"@ {
        1
    } else if depth == 1 && t[i] == "fn"@ {
        2
    } else if t[i] == seq!['{'] {
        module_scan(t, i + 1, depth + 1)
    } else if t[i] == seq!['}'] {
        module_scan(t, i + 1, depth - 1)
    } else {
        module_scan(t, i + 1, depth)
    }
}

/// What a module's tokens give: `3` when there is no `{` at all, else what
/// reading the body after the first `{` gives.
pub open spec fn module_verdict(t: Seq<Seq<char>>) -> int {
    match first_brace_from(t, 0) {
        None => 3,
        Some(s) => module_scan(t, s + 1, 1),
    }
}

/// The message refusing a module for verdict `v`.
pub open spec fn module_message(v: int) -> Seq<char> {
    if v == 1 {
        "error[trust]: unsafe items are not allowed inside #[trust::module] in the MVP"@
    } else if v == 2 {
        "error[trust]: unverified Rust functions are not allowed inside #[trust::module] in the MVP"@
    } else {
        "error[trust]: #[trust::module] must be applied to a module"@
    }
}

/// The top level of a `#[trust::module]` body may hold Trust macro
/// invocations (`total!`, `spec!`, `proof!`, `trusted_model!`, skipped
/// whole) and other items, but no `unsafe` and no plain `fn`.
pub fn inspect_module(input: &[char]) -> (r: Result<(), &'static str>)
    ensures
        r is Ok <==> module_verdict(lex_spec(input@)) == 0,
        r matches Err(m) ==> m@ == module_message(module_verdict(lex_spec(input@))),
{
    proof {
        reveal_strlit("error[trust]: unsafe items are not allowed inside #[trust::module] in the MVP");
        reveal_strlit("error[trust]: unverified Rust functions are not allowed inside #[trust::module] in the MVP");
        reveal_strlit("error[trust]: #[trust::module] must be applied to a module");
    }
    let t = lex(input);
    let ghost tv = views(t@);
    let mut start: usize = 0;
    while start < t.len() && !tok_char(&t, start, '{')
        invariant
            start <= t@.len(),
            tv == views(t@),
            views(t@) == lex_spec(input@),
            first_brace_from(tv, 0) == first_brace_from(tv, start as int),
        decreases t.len() - start,
    {
        start += 1;
    }
    if start >= t.len() {
        return Err("error[trust]: #[trust::module] must be applied to a module");
    }
    assert(first_brace_from(tv, 0) == Some(start as int));
    let mut idx = start + 1;
    let mut depth: usize = 1;
    while idx < t.len() && depth > 0
        invariant
            start < idx <= t@.len(),
            tv == views(t@),
            views(t@) == lex_spec(input@),
            first_brace_from(tv, 0) == Some(start as int),
            depth <= idx,
            module_scan(tv, idx as int, depth as int) == module_scan(tv, start + 1, 1),
        decreases t.len() - idx,
    {
        let at_top = depth == 1;
        if at_top && (is_lit(&t[idx], "total") || is_lit(&t[idx], "spec") || is_lit(&t[idx], "proof") || is_lit(&t[idx], "trusted_model")) {
            assert(trust_macro_name(tv[idx as int]));
            idx = skip_macro_invocation_group(&t, idx);
        } else if at_top && is_lit(&t[idx], "unsafe") {
            assert(tv[idx as int] == "unsafe"@);
            return Err("error[trust]: unsafe items are not allowed inside #[trust::module] in the MVP");
        } else if at_top && is_lit(&t[idx], "fn") {
            assert(tv[idx as int] == "fn"@);
            return Err("error[trust]: unverified Rust functions are not allowed inside #[trust::module] in the MVP");
        } else if tok_char(&t, idx, '{') {
            depth = depth + 1;
            idx += 1;
        } else if tok_char(&t, idx, '}') {
            depth = depth - 1;
            idx += 1;
        } else {
            idx += 1;
        }
    }
    Ok(())
}

/// The text Rust's `Debug` formatting gives a string: quoted and escaped.
pub uninterp spec fn debug_text(s: Seq<char>) -> Seq<char>;

/// `<str as Debug>::fmt`, through `format!("{:?}", s)`. Its result is
/// named by `debug_text` and nothing more is claimed of it.
#[verifier::external_body]
fn debug_quoted(s: &str) -> (r: String)
    ensures
        r@ == debug_text(s@),
{
    format!("{:?}", s)
}

/// A run-time assertion as emitted: under `debug`, only in debug builds.
pub open spec fn runtime_assertion_spec(policy: Seq<char>, assertion: Seq<char>) -> Seq<char> {
    if policy == "debug"@ {
        "if cfg!(debug_assertions) { "@ + assertion + " };"@
    } else {
        assertion
    }
}

pub fn render_runtime_assertion(policy: &str, assertion: &[char]) -> (r: Vec<char>)
    ensures
        r@ == runtime_assertion_spec(policy@, assertion@),
{
    if is_lit(&chars_of(policy), "debug") {
        let mut out = chars_of("if cfg!(debug_assertions) { ");
        append(&mut out, assertion);
        append_lit(&mut out, " };");
        out
    } else {
        slice_of(assertion, 0, assertion.len())
    }
}

/// The call that checks one contract at run time.
pub open spec fn check_call_spec(entry: Seq<char>, code: Seq<char>, name: Seq<char>, display: Seq<char>) -> Seq<char> {
    "::trust::__rt::"@ + entry + "(("@ + code + "), "@ + debug_text(name) + ", "@ + debug_text(display) + ");"@
}

/// The precondition checks of the executable `given` contracts, in order.
pub open spec fn precondition_checks(contracts: Seq<Contract>, policy: Seq<char>, name: Seq<char>) -> Seq<char>
    decreases contracts.len(),
{
    if contracts.len() == 0 {
        seq![]
    } else {
        let c = contracts.last();
        precondition_checks(contracts.drop_last(), policy, name) + if c.class@ == "given executable"@ {
            runtime_assertion_spec(policy, check_call_spec("assert_precondition"@, c.expression_code@, name, c.expression_display@))
        } else {
            seq![]
        }
    }
}

/// The postcondition checks of the executable `gives` contracts, in
/// order, with `out` read from `__trust_out`.
pub open spec fn postcondition_checks(contracts: Seq<Contract>, policy: Seq<char>, name: Seq<char>) -> Seq<char>
    decreases contracts.len(),
{
    if contracts.len() == 0 {
        seq![]
    } else {
        let c = contracts.last();
        postcondition_checks(contracts.drop_last(), policy, name) + if c.class@ == "gives executable"@ {
            runtime_assertion_spec(policy, check_call_spec("assert_postcondition"@, binder_joined(lex_spec(c.expression_code@)), name, c.expression_display@))
        } else {
            seq![]
        }
    }
}

fn check_call(entry: &str, code: &[char], name: &String, display: &String) -> (r: Vec<char>)
    ensures
        r@ == check_call_spec(entry@, code@, name@, display@),
{
    let mut out = chars_of("::trust::__rt::");
    append_lit(&mut out, entry);
    append_lit(&mut out, "((");
    append(&mut out, code);
    append_lit(&mut out, "), ");
    append(&mut out, &chars_of_string(&debug_quoted(name.as_str())));
    append_lit(&mut out, ", ");
    append(&mut out, &chars_of_string(&debug_quoted(display.as_str())));
    append_lit(&mut out, ");");
    out
}

/// The function with `pre` checks at the top of the body between its
/// first `{` and last `}`, and, when there are `post` checks, the body's
/// value bound to `__trust_out`, checked and returned; unchanged when the
/// braces are missing or out of order.
pub open spec fn render_spec(src: Seq<char>, pre: Seq<char>, post: Seq<char>) -> Seq<char> {
    match (first_index(src, '{', 0), last_index(src, '}', src.len() as int)) {
        (Some(bs), Some(be)) => if bs < be {
            if post.len() == 0 {
                src.take(bs + 1) + pre + src.skip(bs + 1)
            } else {
                src.take(bs + 1) + pre + "let __trust_out = { "@ + src.subrange(bs + 1, be) + " };"@ + post
                    + "__trust_out"@ + src.skip(be)
            }
        } else {
            src
        },
        _ => src,
    }
}

/// The function a `trust::total!` expands to under the assertion policy:
/// a public function with contracts gets run-time checks of its executable
/// `given` contracts at the top of its body and, when it has executable
/// `gives` contracts, its body's value bound to `__trust_out`, checked,
/// and returned. Under `assume`, or for a private function or one without
/// contracts, the function is unchanged.
pub fn render_function(total: &TotalExpansion, policy: &str) -> (r: String)
    ensures
        (total.fn_info.visibility@ != "public"@ || total.contracts@.len() == 0 || policy@ == "assume"@) ==> r@
            == total.fn_source@,
        !(total.fn_info.visibility@ != "public"@ || total.contracts@.len() == 0 || policy@ == "assume"@) ==> r@
            == render_spec(total.fn_source@, precondition_checks(total.contracts@, policy@, total.fn_info.name@),
            postcondition_checks(total.contracts@, policy@, total.fn_info.name@)),
{
    let src = chars_of_string(&total.fn_source);
    if !is_lit(&chars_of(total.fn_info.visibility), "public") || total.contracts.len() == 0 || is_lit(&chars_of(policy), "assume") {
        return total.fn_source.clone();
    }
    let fb = find_char(&src, '{');
    let lb = rfind_char(&src, '}');
    proof {
        match fb {
            Some(b) => lemma_first_index(src@, '{', 0, Some(b as int)),
            None => lemma_first_index(src@, '{', 0, None),
        }
        match lb {
            Some(e) => lemma_last_index(src@, '}', src@.len() as int, Some(e as int)),
            None => lemma_last_index(src@, '}', src@.len() as int, None),
        }
    }
    let bs = match fb {
        Some(b) => b,
        None => return total.fn_source.clone(),
    };
    let be = match lb {
        Some(e) => e,
        None => return total.fn_source.clone(),
    };
    if be <= bs {
        return total.fn_source.clone();
    }
    let ghost name = total.fn_info.name@;
    let mut pre: Vec<char> = Vec::new();
    let mut post: Vec<char> = Vec::new();
    let mut i: usize = 0;
    while i < total.contracts.len()
        invariant
            i <= total.contracts@.len(),
            name == total.fn_info.name@,
            pre@ == precondition_checks(total.contracts@.take(i as int), policy@, name),
            post@ == postcondition_checks(total.contracts@.take(i as int), policy@, name),
        decreases total.contracts.len() - i,
    {
        let c = &total.contracts[i];
        assert(total.contracts@.take(i + 1).drop_last() =~= total.contracts@.take(i as int));
        let class = chars_of(c.class);
        if is_lit(&class, "given executable") {
            let call = check_call("assert_precondition", &chars_of_string(&c.expression_code), &total.fn_info.name, &c.expression_display);
            append(&mut pre, &render_runtime_assertion(policy, &call));
        } else if is_lit(&class, "gives executable") {
            let code = replace_result_binder(&chars_of_string(&c.expression_code));
            let call = check_call("assert_postcondition", &code, &total.fn_info.name, &c.expression_display);
            append(&mut post, &render_runtime_assertion(policy, &call));
        }
        proof {
            reveal_strlit("given executable");
            reveal_strlit("gives executable");
            assert("given executable"@[4] != "gives executable"@[4]);
        }
        i += 1;
    }
    assert(total.contracts@.take(total.contracts@.len() as int) =~= total.contracts@);
    let sl = src.len();
    if post.len() == 0 {
        let mut out = slice_of(&src, 0, bs + 1);
        append(&mut out, &pre);
        append(&mut out, &slice_of(&src, bs + 1, sl));
        return string_of(&out);
    }
    let mut out = slice_of(&src, 0, bs + 1);
    append(&mut out, &pre);
    append_lit(&mut out, "let __trust_out = { ");
    append(&mut out, &slice_of(&src, bs + 1, be));
    append_lit(&mut out, " };");
    append(&mut out, &post);
    append_lit(&mut out, "__trust_out");
    append(&mut out, &slice_of(&src, be, sl));
    string_of(&out)
}

/// A character as it is written inside a JSON string.
pub open spec fn json_escape_char(c: char) -> Seq<char> {
    if c == '"' {
        seq!['\\', '"']
    } else if c == '\\' {
        seq!['\\', '\\']
    } else if c == '\n' {
        seq!['\\', 'n']
    } else if c == '\r' {
        seq!['\\', 'r']
    } else if c == '\t' {
        seq!['\\', 't']
    } else {
        seq![c]
    }
}

/// A text as it is written inside a JSON string.
pub open spec fn json_escape_spec(s: Seq<char>) -> Seq<char>
    decreases s.len(),
{
    if s.len() == 0 {
        seq![]
    } else {
        json_escape_spec(s.drop_last()) + json_escape_char(s.last())
    }
}

/// Escapes `"`, `\`, newline, carriage return and tab.
pub fn json_escape(input: &[char]) -> (r: Vec<char>)
    ensures
        r@ == json_escape_spec(input@),
{
    let mut out: Vec<char> = Vec::new();
    let mut i: usize = 0;
    while i < input.len()
        invariant
            i <= input@.len(),
            out@ == json_escape_spec(input@.take(i as int)),
        decreases input.len() - i,
    {
        assert(input@.take(i + 1).drop_last() =~= input@.take(i as int));
        let c = input[i];
        let ghost before = out@;
        if c == '"' {
            out.push('\\');
            out.push('"');
        } else if c == '\\' {
            out.push('\\');
            out.push('\\');
        } else if c == '\n' {
            out.push('\\');
            out.push('n');
        } else if c == '\r' {
            out.push('\\');
            out.push('r');
        } else if c == '\t' {
            out.push('\\');
            out.push('t');
        } else {
            out.push(c);
        }
        assert(out@ =~= before + json_escape_char(c));
        i += 1;
    }
    assert(input@.take(input@.len() as int) =~= input@);
    out
}

/// The texts as a JSON array of strings, in order.
pub open spec fn json_items(v: Seq<Seq<char>>) -> Seq<char>
    decreases v.len(),
{
    if v.len() == 0 {
        seq![]
    } else if v.len() == 1 {
        "\""@ + json_escape_spec(v[0]) + "\""@
    } else {
        json_items(v.drop_last()) + ","@ + "\""@ + json_escape_spec(v.last()) + "\""@
    }
}

pub open spec fn json_array_spec(v: Seq<Seq<char>>) -> Seq<char> {
    "["@ + json_items(v) + "]"@
}

pub fn json_string_array(values: &Vec<Vec<char>>) -> (r: Vec<char>)
    ensures
        r@ == json_array_spec(views(values@)),
{
    let mut items: Vec<char> = Vec::new();
    let mut i: usize = 0;
    while i < values.len()
        invariant
            i <= values@.len(),
            items@ == json_items(views(values@).take(i as int)),
        decreases values.len() - i,
    {
        assert(views(values@).take(i + 1).drop_last() =~= views(values@).take(i as int));
        if i > 0 {
            append_lit(&mut items, ",");
        }
        append_lit(&mut items, "\"");
        append(&mut items, &json_escape(&values[i]));
        append_lit(&mut items, "\"");
        proof {
            if i == 0 {
                assert(items@ =~= json_items(views(values@).take(1)));
            }
        }
        i += 1;
    }
    assert(views(values@).take(values@.len() as int) =~= views(values@));
    let mut out = chars_of("[");
    append(&mut out, &items);
    append_lit(&mut out, "]");
    out
}

/// Every character that is not an ASCII letter, digit or `_` replaced by `_`.
pub fn sanitize_ident(input: &[char]) -> (r: Vec<char>)
    ensures
        r@.len() == input@.len(),
        forall|k: int| 0 <= k < r@.len() ==> #[trigger] r@[k] == if is_word_char(input@[k]) {
            input@[k]
        } else {
            '_'
        },
{
    let mut out: Vec<char> = Vec::new();
    let mut i: usize = 0;
    while i < input.len()
        invariant
            i <= input@.len(),
            out@.len() == i,
            forall|k: int| 0 <= k < i ==> #[trigger] out@[k] == if is_word_char(input@[k]) {
                input@[k]
            } else {
                '_'
            },
        decreases input.len() - i,
    {
        if word_char(input[i]) {
            out.push(input[i]);
        } else {
            out.push('_');
        }
        i += 1;
    }
    out
}

/// A metadata record as the macros write it, from its pieces, each
/// already in its JSON form (strings escaped, arrays rendered).
pub open spec fn record_json_spec(
    version: Seq<char>,
    module_id: Seq<char>,
    item_id: Seq<char>,
    item_kind: Seq<char>,
    path: Seq<char>,
    visibility: Seq<char>,
    originals: Seq<char>,
    normalized: Seq<char>,
    classes: Seq<char>,
    policy: Seq<char>,
    source: Seq<char>,
    hash: Seq<char>,
) -> Seq<char> {
    "{\"schema_version\":1,\"trust_macro_version\":\""@ + version + "\",\"module_id\":\""@ + module_id
        + "\",\"item_id\":\""@ + item_id + "\",\"item_kind\":\""@ + item_kind
        + "\",\"source_span\":\"unknown\",\"rust_function_path\":\""@ + path + "\",\"visibility\":\""@
        + visibility + "\",\"contracts_original\":"@ + originals + ",\"contracts_normalized\":"@ + normalized
        + ",\"contract_classes\":"@ + classes + ",\"assertion_policy\":\""@ + policy
        + "\",\"function_source\":\""@ + source + "\",\"body_hash_placeholder\":\""@ + hash
        + "\",\"trust_model_dependencies\":[]}"@
}

fn record_json(
    version: &[char],
    module_id: &[char],
    item_id: &[char],
    item_kind: &str,
    path: &[char],
    visibility: &str,
    originals: &[char],
    normalized: &[char],
    classes: &[char],
    policy: &[char],
    source: &[char],
    hash: &[char],
) -> (r: String)
    ensures
        r@ == record_json_spec(version@, module_id@, item_id@, item_kind@, path@, visibility@, originals@,
            normalized@, classes@, policy@, source@, hash@),
{
    let mut out = chars_of("{\"schema_version\":1,\"trust_macro_version\":\"");
    append(&mut out, version);
    append_lit(&mut out, "\",\"module_id\":\"");
    append(&mut out, module_id);
    append_lit(&mut out, "\",\"item_id\":\"");
    append(&mut out, item_id);
    append_lit(&mut out, "\",\"item_kind\":\"");
    append_lit(&mut out, item_kind);
    append_lit(&mut out, "\",\"source_span\":\"unknown\",\"rust_function_path\":\"");
    append(&mut out, path);
    append_lit(&mut out, "\",\"visibility\":\"");
    append_lit(&mut out, visibility);
    append_lit(&mut out, "\",\"contracts_original\":");
    append(&mut out, originals);
    append_lit(&mut out, ",\"contracts_normalized\":");
    append(&mut out, normalized);
    append_lit(&mut out, ",\"contract_classes\":");
    append(&mut out, classes);
    append_lit(&mut out, ",\"assertion_policy\":\"");
    append(&mut out, policy);
    append_lit(&mut out, "\",\"function_source\":\"");
    append(&mut out, source);
    append_lit(&mut out, "\",\"body_hash_placeholder\":\"");
    append(&mut out, hash);
    append_lit(&mut out, "\",\"trust_model_dependencies\":[]}");
    string_of(&out)
}

/// `prefix` + `mid` + `suffix`.
fn join3(prefix: &str, mid: &[char], suffix: &[char]) -> (r: Vec<char>)
    ensures
        r@ == prefix@ + mid@ + suffix@,
{
    let mut out = chars_of(prefix);
    append(&mut out, mid);
    append(&mut out, suffix);
    out
}

fn colon_then(text: &[char]) -> (r: Vec<char>)
    ensures
        r@ == ":"@ + text@,
{
    join3(":", text, &Vec::new())
}

/// The display texts of the contracts, in order.
pub open spec fn displays_of(contracts: Seq<Contract>) -> Seq<Seq<char>> {
    Seq::new(contracts.len(), |k: int| contracts[k].expression_display@)
}

/// The classes of the contracts, in order.
pub open spec fn classes_of(contracts: Seq<Contract>) -> Seq<Seq<char>> {
    Seq::new(contracts.len(), |k: int| contracts[k].class@)
}

/// The display texts of the contracts, and their classes.
fn contract_texts(contracts: &Vec<Contract>) -> (r: (Vec<Vec<char>>, Vec<Vec<char>>))
    ensures
        views(r.0@) == displays_of(contracts@),
        views(r.1@) == classes_of(contracts@),
{
    let mut displays: Vec<Vec<char>> = Vec::new();
    let mut classes: Vec<Vec<char>> = Vec::new();
    let mut i: usize = 0;
    while i < contracts.len()
        invariant
            i <= contracts@.len(),
            displays@.len() == i,
            classes@.len() == i,
            forall|k: int| 0 <= k < i ==> (#[trigger] displays@[k])@ == contracts@[k].expression_display@,
            forall|k: int| 0 <= k < i ==> (#[trigger] classes@[k])@ == contracts@[k].class@,
        decreases contracts.len() - i,
    {
        displays.push(chars_of_string(&contracts[i].expression_display));
        classes.push(chars_of(contracts[i].class));
        i += 1;
    }
    assert(views(displays@) =~= displays_of(contracts@));
    assert(views(classes@) =~= classes_of(contracts@));
    (displays, classes)
}

/// The record of a `trust::total!` function: its displayed contracts (as
/// both original and normalized) and their classes, the assertion policy,
/// and the function's source, under `total:<name>:<hash>`.
pub fn metadata_json(fn_info: &FnInfo, hash: &str, version: &str, policy: &str, function_source: &str, contracts: &Vec<Contract>) -> (r: String)
    ensures
        r@ == record_json_spec(version@, "unknown"@, "total:"@ + json_escape_spec(fn_info.name@) + ":"@ + hash@,
            "total"@, json_escape_spec(fn_info.name@), fn_info.visibility@, json_array_spec(displays_of(contracts@)),
            json_array_spec(displays_of(contracts@)), json_array_spec(classes_of(contracts@)), json_escape_spec(policy@),
            json_escape_spec(function_source@), hash@),
{
    let name = json_escape(&chars_of_string(&fn_info.name));
    let h = chars_of(hash);
    let item_id = join3("total:", &name, &colon_then(&h));
    let (displays, classes) = contract_texts(contracts);
    let arr = json_string_array(&displays);
    let cls = json_string_array(&classes);
    record_json(&chars_of(version), &chars_of("unknown"), &item_id, "total", &name, fn_info.visibility, &arr, &arr, &cls,
        &json_escape(&chars_of(policy)), &json_escape(&chars_of(function_source)), &h)
}

/// The record of a `#[trust::module]`.
pub fn module_metadata_json(module: &ModuleInfo, source: &str, hash: &str, version: &str, policy: &str) -> (r: String)
    ensures
        r@ == record_json_spec(version@, json_escape_spec(module.name@), "module:"@ + json_escape_spec(module.name@)
            + ":"@ + hash@, "module"@, json_escape_spec(module.name@), module.visibility@, "[]"@, "[]"@, "[]"@,
            json_escape_spec(policy@), json_escape_spec(source@), hash@),
{
    let name = json_escape(&chars_of_string(&module.name));
    let h = chars_of(hash);
    let empty = chars_of("[]");
    record_json(&chars_of(version), &name, &join3("module:", &name, &colon_then(&h)), "module", &name, module.visibility,
        &empty, &empty, &empty, &json_escape(&chars_of(policy)), &json_escape(&chars_of(source)), &h)
}

/// The record of a `#[derive(TrustModel)]` type.
pub fn model_metadata_json(model: &ModelInfo, source: &str, hash: &str, version: &str) -> (r: String)
    ensures
        r@ == record_json_spec(version@, "unknown"@, "model:"@ + json_escape_spec(model.name@) + ":"@ + hash@,
            "trust_model"@, json_escape_spec(model.name@), "unknown"@, "[]"@, "[]"@, "[]"@, "always"@,
            json_escape_spec(source@), hash@),
{
    let name = json_escape(&chars_of_string(&model.name));
    let h = chars_of(hash);
    let empty = chars_of("[]");
    record_json(&chars_of(version), &chars_of("unknown"), &join3("model:", &name, &colon_then(&h)), "trust_model", &name,
        "unknown", &empty, &empty, &empty, &chars_of("always"), &json_escape(&chars_of(source)), &h)
}

/// The record of a `trust::trusted_model!`: an inert stub with no contracts.
pub fn trusted_model_metadata_json(source: &str, hash: &str, version: &str) -> (r: String)
    ensures
        r@ == record_json_spec(version@, "unknown"@, "trusted_model_stub:"@ + hash@, "trusted_model_stub"@,
            "trusted_model_stub"@, "unknown"@, "[]"@, "[]"@, "[]"@, "always"@, json_escape_spec(source@), hash@),
{
    let h = chars_of(hash);
    let empty = chars_of("[]");
    record_json(&chars_of(version), &chars_of("unknown"), &join3("trusted_model_stub:", &h, &Vec::new()),
        "trusted_model_stub", &chars_of("trusted_model_stub"), "unknown", &empty, &empty, &empty, &chars_of("always"),
        &json_escape(&chars_of(source)), &h)
}

/// The record of a `trust::spec!` function, under `spec:<kind>:<name>:<hash>`.
pub fn spec_metadata_json(spec: &SpecExpansion, hash: &str, version: &str) -> (r: String)
    ensures
        r@ == record_json_spec(version@, "unknown"@, "spec:"@ + spec.kind@ + ":"@ + json_escape_spec(
            spec.fn_info.name@) + ":"@ + hash@, "spec"@, json_escape_spec(spec.fn_info.name@), spec.fn_info.visibility@,
            "[]"@, "[]"@, "[]"@, "always"@, json_escape_spec(spec.fn_source@), hash@),
{
    let name = json_escape(&chars_of_string(&spec.fn_info.name));
    let h = chars_of(hash);
    let empty = chars_of("[]");
    let mut kind_part = chars_of(spec.kind);
    append_lit(&mut kind_part, ":");
    let item_id = join3("spec:", &kind_part, &join3("", &name, &colon_then(&h)));
    proof {
        reveal_strlit("");
    }
    record_json(&chars_of(version), &chars_of("unknown"), &item_id, "spec", &name, spec.fn_info.visibility, &empty,
        &empty, &empty, &chars_of("always"), &json_escape(&chars_of_string(&spec.fn_source)), &h)
}

/// The record of a `trust::proof!`: private, with its contracts, and the
/// whole macro input as its source.
pub fn proof_metadata_json(proof: &ProofExpansion, source: &str, hash: &str, version: &str) -> (r: String)
    ensures
        r@ == record_json_spec(version@, "unknown"@, "proof:"@ + json_escape_spec(proof.fn_info.name@) + ":"@ + hash@,
            "proof"@, json_escape_spec(proof.fn_info.name@), "private"@, json_array_spec(displays_of(proof.contracts@)),
            json_array_spec(displays_of(proof.contracts@)), json_array_spec(classes_of(proof.contracts@)), "always"@,
            json_escape_spec(source@), hash@),
{
    let name = json_escape(&chars_of_string(&proof.fn_info.name));
    let h = chars_of(hash);
    let item_id = join3("proof:", &name, &colon_then(&h));
    let (displays, classes) = contract_texts(&proof.contracts);
    let arr = json_string_array(&displays);
    let cls = json_string_array(&classes);
    record_json(&chars_of(version), &chars_of("unknown"), &item_id, "proof", &name, "private", &arr, &arr, &cls,
        &chars_of("always"), &json_escape(&chars_of(source)), &h)
}

} // verus!
