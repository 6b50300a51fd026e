//! Properties the text algebra, the metadata format and the rendered
//! run-time checks keep for every input.

use crate::frontend::{
    record_json_spec, json_items, json_array_spec, check_call_spec, json_escape_char, json_escape_spec, lex_spec, lex_state, precondition_checks, render_spec,
    runtime_assertion_spec, Contract,
};
use crate::metadata::{array_from, string_from, unescape};
use crate::text::{first_index, is_word_char, is_ws, last_index, occurs_at, strip_ws};
use crate::tokens::{
    canonical_spec, equivalent_spec, joined, outer_wrapped, paren_depth, strip_outer_spec, token_state,
    tokens_spec,
};
use crate::metadata::{string_views, TrustMetadata};
use crate::pipeline::{contracts_where, executable_contracts, given_contracts, is_given, is_given_executable, is_gives, keep_of,
    prepare_of};
use vstd::prelude::*;

verus! {

proof fn lemma_selection_prefix(
    o1: Seq<Seq<char>>,
    c1: Seq<Seq<char>>,
    o2: Seq<Seq<char>>,
    c2: Seq<Seq<char>>,
    keep: spec_fn(Seq<char>) -> bool,
    prepare: spec_fn(Seq<char>) -> Seq<char>,
    n: int,
)
    requires
        0 <= n <= o1.len() && n <= c1.len() && n <= o2.len() && n <= c2.len(),
        forall|j: int| 0 <= j < n ==> #[trigger] o2[j] == o1[j] && c2[j] == c1[j],
    ensures
        contracts_where(o2, c2, keep, prepare, n) == contracts_where(o1, c1, keep, prepare, n),
    decreases n,
{
    if n > 0 {
        lemma_selection_prefix(o1, c1, o2, c2, keep, prepare, n - 1);
    }
}

proof fn lemma_selection_skips(
    o1: Seq<Seq<char>>,
    c1: Seq<Seq<char>>,
    o2: Seq<Seq<char>>,
    c2: Seq<Seq<char>>,
    keep: spec_fn(Seq<char>) -> bool,
    prepare: spec_fn(Seq<char>) -> Seq<char>,
    n1: int,
    n: int,
)
    requires
        0 <= n1 <= n <= o2.len() && n <= c2.len() && n1 <= o1.len() && n1 <= c1.len(),
        forall|j: int| 0 <= j < n1 ==> #[trigger] o2[j] == o1[j] && c2[j] == c1[j],
        forall|j: int| n1 <= j < n ==> !keep(#[trigger] c2[j]),
    ensures
        contracts_where(o2, c2, keep, prepare, n) == contracts_where(o1, c1, keep, prepare, n1),
    decreases n,
{
    if n > n1 {
        lemma_selection_skips(o1, c1, o2, c2, keep, prepare, n1, n - 1);
    } else {
        lemma_selection_prefix(o1, c1, o2, c2, keep, prepare, n1);
    }
}

/// Adding `gives` contracts to a record never changes what the checks may
/// assume: its executable preconditions and its given preconditions stay
/// the same. Postconditions are checked, never assumed.
pub proof fn gives_contracts_are_never_assumed(m1: TrustMetadata, m2: TrustMetadata)
    requires
        m1.contracts_original@.len() == m1.contract_classes@.len(),
        m2.contracts_original@.len() == m2.contract_classes@.len(),
        m1.contracts_original@.len() <= m2.contracts_original@.len(),
        forall|j: int| 0 <= j < m1.contracts_original@.len() ==> m2.contracts_original@[j]@ == (
        #[trigger] m1.contracts_original@[j])@ && m2.contract_classes@[j]@ == m1.contract_classes@[j]@,
        forall|j: int| m1.contracts_original@.len() <= j < m2.contracts_original@.len() ==> is_gives(
            (#[trigger] m2.contract_classes@[j])@),
    ensures
        executable_contracts(m2) == executable_contracts(m1),
        given_contracts(m2) == given_contracts(m1),
{
    reveal_strlit("gives executable");
    reveal_strlit("gives ghost");
    reveal_strlit("given executable");
    reveal_strlit("given ghost");
    let o1 = string_views(m1.contracts_original@);
    let c1 = string_views(m1.contract_classes@);
    let o2 = string_views(m2.contracts_original@);
    let c2 = string_views(m2.contract_classes@);
    let n1 = m1.contracts_original@.len() as int;
    let n2 = m2.contracts_original@.len() as int;
    assert forall|j: int| 0 <= j < n1 implies #[trigger] o2[j] == o1[j] && c2[j] == c1[j] by {
        assert(m2.contracts_original@[j]@ == m1.contracts_original@[j]@);
    }
    assert forall|j: int| n1 <= j < n2 implies !keep_of(0)(#[trigger] c2[j]) && !keep_of(1)(c2[j]) by {
        assert(is_gives(m2.contract_classes@[j]@));
        let c = c2[j];
        assert(c[4] == 's');
        assert(!is_given_executable(c));
        assert(!is_given(c));
    }
    lemma_selection_skips(o1, c1, o2, c2, keep_of(0), prepare_of(true), n1, n2);
    lemma_selection_skips(o1, c1, o2, c2, keep_of(1), prepare_of(true), n1, n2);
}

/// Every condition is equivalent to itself.
pub proof fn conditions_equivalent_reflexive(c: Seq<char>)
    ensures
        equivalent_spec(c, c),
{
}

/// Equivalence of conditions does not depend on their order.
pub proof fn conditions_equivalent_symmetric(a: Seq<char>, b: Seq<char>)
    ensures
        equivalent_spec(a, b) == equivalent_spec(b, a),
{
}

proof fn lemma_strip_ws_of_clean(s: Seq<char>)
    requires
        forall|k: int| 0 <= k < s.len() ==> !is_ws(#[trigger] s[k]),
    ensures
        strip_ws(s) == s,
    decreases s.len(),
{
    if s.len() > 0 {
        lemma_strip_ws_of_clean(s.drop_last());
        assert(strip_ws(s.drop_last()).push(s.last()) =~= s);
    }
}

proof fn lemma_strip_ws_clean(s: Seq<char>)
    ensures
        forall|k: int| 0 <= k < strip_ws(s).len() ==> !is_ws(#[trigger] strip_ws(s)[k]),
    decreases s.len(),
{
    if s.len() > 0 {
        lemma_strip_ws_clean(s.drop_last());
        let p = strip_ws(s.drop_last());
        if !is_ws(s.last()) {
            assert forall|k: int| 0 <= k < strip_ws(s).len() implies !is_ws(#[trigger] strip_ws(s)[k]) by {
                if k < p.len() {
                    assert(strip_ws(s)[k] == p[k]);
                }
            }
        }
    }
}

/// How many enclosing pairs of parentheses are stripped.
spec fn strip_count(c: Seq<char>) -> int
    decreases c.len(),
{
    if outer_wrapped(c) {
        1 + strip_count(c.subrange(1, c.len() - 1))
    } else {
        0
    }
}

proof fn lemma_strip_outer_shape(c: Seq<char>)
    ensures
        !outer_wrapped(strip_outer_spec(c)),
        0 <= strip_count(c) && 2 * strip_count(c) <= c.len(),
        strip_outer_spec(c) == c.subrange(strip_count(c), c.len() - strip_count(c)),
    decreases c.len(),
{
    if outer_wrapped(c) {
        let inner = c.subrange(1, c.len() - 1);
        lemma_strip_outer_shape(inner);
        let n = strip_count(inner);
        assert(inner.subrange(n, inner.len() - n) =~= c.subrange(n + 1, c.len() - (n + 1)));
    } else {
        assert(c.subrange(0, c.len() as int) =~= c);
    }
}

/// Preparing a condition for comparison twice changes nothing more.
pub proof fn canonical_condition_idempotent(c: Seq<char>)
    ensures
        canonical_spec(canonical_spec(c)) == canonical_spec(c),
{
    let x = strip_ws(c);
    lemma_strip_ws_clean(c);
    lemma_strip_outer_shape(x);
    let y = strip_outer_spec(x);
    let i = strip_count(x);
    assert forall|k: int| 0 <= k < y.len() implies !is_ws(#[trigger] y[k]) by {
        assert(y[k] == x[i + k]);
    }
    lemma_strip_ws_of_clean(y);
}

proof fn lemma_joined_push(t: Seq<Seq<char>>, x: Seq<char>)
    ensures
        joined(t.push(x)) == joined(t) + x,
{
    assert(t.push(x).drop_last() =~= t);
}

proof fn lemma_token_state_text(s: Seq<char>)
    ensures
        joined(token_state(s).0) + token_state(s).1 == strip_ws(s),
    decreases s.len(),
{
    if s.len() > 0 {
        lemma_token_state_text(s.drop_last());
        let (t, cur) = token_state(s.drop_last());
        let c = s.last();
        if is_word_char(c) {
            assert(!is_ws(c));
            assert(joined(t) + cur.push(c) =~= (joined(t) + cur).push(c));
        } else {
            if cur.len() > 0 {
                lemma_joined_push(t, cur);
            }
            let flushed = if cur.len() > 0 {
                t.push(cur)
            } else {
                assert(joined(t) + cur =~= joined(t));
                t
            };
            assert(joined(flushed) == strip_ws(s.drop_last()));
            if !is_ws(c) {
                lemma_joined_push(flushed, seq![c]);
                assert(joined(flushed) + seq![c] =~= strip_ws(s.drop_last()).push(c));
            }
            assert(joined(token_state(s).0) + token_state(s).1 =~= strip_ws(s));
        }
    }
}

/// Splitting text into tokens and writing them back together gives the
/// text without its whitespace: tokens lose nothing else.
pub proof fn tokens_rejoin_to_normalized(s: Seq<char>)
    ensures
        joined(tokens_spec(s)) == strip_ws(s),
{
    lemma_token_state_text(s);
    let (t, cur) = token_state(s);
    if cur.len() > 0 {
        lemma_joined_push(t, cur);
    } else {
        assert(joined(t) + cur =~= joined(t));
    }
}

proof fn lemma_lex_state_text(s: Seq<char>)
    ensures
        joined(lex_state(s).0) + lex_state(s).1 == strip_ws(s),
    decreases s.len(),
{
    if s.len() > 0 {
        lemma_lex_state_text(s.drop_last());
        let (t, cur) = lex_state(s.drop_last());
        let c = s.last();
        if cur.len() > 0 && is_word_char(c) {
            assert(!is_ws(c));
            assert(joined(t) + cur.push(c) =~= (joined(t) + cur).push(c));
        } else {
            if cur.len() > 0 {
                lemma_joined_push(t, cur);
            }
            let flushed = if cur.len() > 0 {
                t.push(cur)
            } else {
                assert(joined(t) + cur =~= joined(t));
                t
            };
            assert(joined(flushed) == strip_ws(s.drop_last()));
            if !is_ws(c) {
                lemma_joined_push(flushed, seq![c]);
                assert(joined(flushed) + seq![c] =~= strip_ws(s.drop_last()).push(c));
            }
            assert(joined(lex_state(s).0) + lex_state(s).1 =~= strip_ws(s));
        }
    }
}

/// The macros' lexer also loses nothing but whitespace.
pub proof fn lex_rejoins_to_normalized(s: Seq<char>)
    ensures
        joined(lex_spec(s)) == strip_ws(s),
{
    lemma_lex_state_text(s);
    let (t, cur) = lex_state(s);
    if cur.len() > 0 {
        lemma_joined_push(t, cur);
    } else {
        assert(joined(t) + cur =~= joined(t));
    }
}

proof fn lemma_string_from_escaped(s: Seq<char>, rest: Seq<char>, out: Seq<char>)
    ensures
        string_from(json_escape_spec(s) + seq!['"'] + rest, 0, false, out) == Some(out + s),
    decreases s.len(),
{
    if s.len() == 0 {
        assert((json_escape_spec(s) + seq!['"'] + rest)[0] == '"');
        assert(out + s =~= out);
    } else {
        let c = s[0];
        let tail = s.skip(1);
        lemma_escape_first(s);
        let line = json_escape_spec(s) + seq!['"'] + rest;
        let e = json_escape_char(c);
        assert(line =~= e + (json_escape_spec(tail) + seq!['"'] + rest));
        lemma_string_from_escaped(tail, rest, out.push(c));
        lemma_string_from_shift(e, json_escape_spec(tail) + seq!['"'] + rest, out, c);
        assert(out.push(c) + tail =~= out + s);
    }
}

proof fn lemma_escape_append(a: Seq<char>, b: Seq<char>)
    ensures
        json_escape_spec(a + b) == json_escape_spec(a) + json_escape_spec(b),
    decreases b.len(),
{
    if b.len() == 0 {
        assert(a + b =~= a);
        assert(json_escape_spec(a) + json_escape_spec(b) =~= json_escape_spec(a));
    } else {
        lemma_escape_append(a, b.drop_last());
        assert((a + b).drop_last() =~= a + b.drop_last());
        assert((a + b).last() == b.last());
        assert(json_escape_spec(a + b) =~= json_escape_spec(a) + json_escape_spec(b));
    }
}

proof fn lemma_escape_first(s: Seq<char>)
    requires
        s.len() > 0,
    ensures
        json_escape_spec(s) == json_escape_char(s[0]) + json_escape_spec(s.skip(1)),
{
    assert(s =~= seq![s[0]] + s.skip(1));
    lemma_escape_append(seq![s[0]], s.skip(1));
    assert(seq![s[0]].drop_last() =~= Seq::<char>::empty());
    assert(json_escape_spec(Seq::<char>::empty()) == Seq::<char>::empty());
    assert(json_escape_spec(seq![s[0]]) == json_escape_spec(seq![s[0]].drop_last()) + json_escape_char(s[0]));
    assert(Seq::<char>::empty() + json_escape_char(s[0]) =~= json_escape_char(s[0]));
}

/// Reading past one escaped character appends the character itself.
proof fn lemma_string_from_shift(e: Seq<char>, more: Seq<char>, out: Seq<char>, c: char)
    requires
        e == json_escape_char(c),
    ensures
        string_from(e + more, 0, false, out) == string_from(more, 0, false, out.push(c)),
{
    let line = e + more;
    if c == '"' || c == '\\' || c == '\n' || c == '\r' || c == '\t' {
        assert(e.len() == 2);
        assert(line[0] == '\\');
        assert(unescape(line[1]) == c);
        assert(line.skip(2) =~= more);
        assert(string_from(line, 1, true, out) == string_from(line, 2, false, out.push(c)));
        lemma_string_from_offset(line, 2, more, false, out.push(c));
    } else {
        assert(e.len() == 1);
        assert(line[0] == c);
        assert(line.skip(1) =~= more);
        lemma_string_from_offset(line, 1, more, false, out.push(c));
    }
}

/// Reading from `k` in a text whose first `k` characters are `line.take(k)`
/// is reading `more` from its start.
proof fn lemma_string_from_offset(line: Seq<char>, k: int, more: Seq<char>, escaping: bool, out: Seq<char>)
    requires
        0 <= k <= line.len(),
        line.skip(k) == more,
    ensures
        string_from(line, k, escaping, out) == string_from(more, 0, escaping, out),
    decreases line.len() - k,
{
    if k < line.len() {
        assert(line[k] == more[0]);
        assert(line.skip(k + 1) =~= more.skip(1));
        lemma_string_from_offset(line, k + 1, more.skip(1), false, out.push(unescape(line[k])));
        lemma_string_from_offset(line, k + 1, more.skip(1), true, out);
        lemma_string_from_offset(line, k + 1, more.skip(1), false, out.push(line[k]));
        lemma_string_from_offset(more, 1, more.skip(1), false, out.push(unescape(line[k])));
        lemma_string_from_offset(more, 1, more.skip(1), true, out);
        lemma_string_from_offset(more, 1, more.skip(1), false, out.push(line[k]));
    }
}

/// A text written into a metadata record (escaped, then closed by a
/// quote) is read back as the same text, whatever follows it.
pub proof fn escaped_string_reads_back(s: Seq<char>, rest: Seq<char>)
    ensures
        string_from(json_escape_spec(s) + seq!['"'] + rest, 0, false, seq![]) == Some(s),
{
    lemma_string_from_escaped(s, rest, seq![]);
    assert(seq![] + s =~= s);
}

/// The run-time check of one executable precondition.
pub open spec fn precondition_check_of(c: Contract, policy: Seq<char>, name: Seq<char>) -> Seq<char> {
    runtime_assertion_spec(policy, check_call_spec("assert_precondition"@, c.expression_code@, name, c.expression_display@))
}

proof fn lemma_precondition_check_in(contracts: Seq<Contract>, policy: Seq<char>, name: Seq<char>, k: int)
    requires
        0 <= k < contracts.len(),
        contracts[k].class@ == "given executable"@,
    ensures
        exists|a: Seq<char>, b: Seq<char>| precondition_checks(contracts, policy, name) == a + precondition_check_of(
            contracts[k], policy, name) + b,
    decreases contracts.len(),
{
    let last = contracts.len() - 1;
    let tail = if contracts.last().class@ == "given executable"@ {
        precondition_check_of(contracts.last(), policy, name)
    } else {
        seq![]
    };
    assert(precondition_checks(contracts, policy, name) == precondition_checks(contracts.drop_last(), policy, name) + tail);
    if k == last {
        let a = precondition_checks(contracts.drop_last(), policy, name);
        assert(precondition_checks(contracts, policy, name) =~= a + precondition_check_of(contracts[k], policy, name) + seq![]);
    } else {
        assert(contracts.drop_last()[k] == contracts[k]);
        lemma_precondition_check_in(contracts.drop_last(), policy, name, k);
        let (a, b) = choose|a: Seq<char>, b: Seq<char>| precondition_checks(contracts.drop_last(), policy, name) == a
            + precondition_check_of(contracts[k], policy, name) + b;
        assert(precondition_checks(contracts, policy, name) =~= a + precondition_check_of(contracts[k], policy, name) + (b
            + tail));
    }
}

/// A public function rendered with run-time checks checks each of its
/// executable preconditions: the rendered text holds the check of every
/// `given executable` contract, whatever the function's braces enclose.
pub proof fn public_preconditions_checked_at_run_time(
    src: Seq<char>,
    contracts: Seq<Contract>,
    policy: Seq<char>,
    name: Seq<char>,
    post: Seq<char>,
    k: int,
)
    requires
        first_index(src, '{', 0) matches Some(open) && last_index(src, '}', src.len() as int) matches Some(close) && open
            < close,
        0 <= k < contracts.len(),
        contracts[k].class@ == "given executable"@,
    ensures
        exists|a: Seq<char>, b: Seq<char>| render_spec(src, precondition_checks(contracts, policy, name), post) == a
            + precondition_check_of(contracts[k], policy, name) + b,
{
    lemma_precondition_check_in(contracts, policy, name, k);
    let pre = precondition_checks(contracts, policy, name);
    let (a, b) = choose|a: Seq<char>, b: Seq<char>| pre == a + precondition_check_of(contracts[k], policy, name) + b;
    let open = first_index(src, '{', 0)->0;
    let close = last_index(src, '}', src.len() as int)->0;
    let check = precondition_check_of(contracts[k], policy, name);
    if post.len() == 0 {
        assert(render_spec(src, pre, post) =~= (src.take(open + 1) + a) + check + (b + src.skip(open + 1)));
    } else {
        assert(render_spec(src, pre, post) =~= (src.take(open + 1) + a) + check + (b + "let __trust_out = { "@
            + src.subrange(open + 1, close) + " };"@ + post + "__trust_out"@ + src.skip(close)));
    }
}

// ----- reading back a written record -----

/// A character of a record key.
pub open spec fn key_char(c: char) -> bool {
    ('a' <= c && c <= 'z') || c == '_'
}

/// A record key: a non-empty run of key characters.
pub open spec fn key_name(k: Seq<char>) -> bool {
    k.len() > 0 && forall|i: int| 0 <= i < k.len() ==> key_char(#[trigger] k[i])
}

/// `"k"`, as the reader looks for it.
pub open spec fn key_pattern(k: Seq<char>) -> Seq<char> {
    seq!['"'] + k + seq!['"']
}

/// `p` occurs nowhere in `s`.
pub open spec fn no_occ(s: Seq<char>, p: Seq<char>) -> bool {
    forall|j: int| !#[trigger] occurs_at(s, p, j)
}

proof fn lemma_no_occ_quote_free(x: Seq<char>, y: Seq<char>, k: Seq<char>)
    requires
        key_name(k),
        no_occ(x, key_pattern(k)),
        forall|i: int| 0 <= i < y.len() ==> #[trigger] y[i] != '"',
    ensures
        no_occ(x + y, key_pattern(k)),
{
    let p = key_pattern(k);
    let s = x + y;
    assert forall|j: int| !#[trigger] occurs_at(s, p, j) by {
        if occurs_at(s, p, j) {
            let last = j + p.len() - 1;
            assert(s.subrange(j, j + p.len())[p.len() - 1] == p[p.len() - 1]);
            assert(s[last] == '"');
            if last >= x.len() {
                assert(y[last - x.len()] == s[last]);
            } else {
                assert(x.subrange(j, j + p.len()) =~= s.subrange(j, j + p.len()));
                assert(occurs_at(x, p, j));
            }
        }
    }
}

proof fn lemma_no_occ_quote(x: Seq<char>, k: Seq<char>)
    requires
        key_name(k),
        no_occ(x, key_pattern(k)),
        x.len() == 0 || !key_char(x.last()),
    ensures
        no_occ(x + seq!['"'], key_pattern(k)),
{
    let p = key_pattern(k);
    let s = x + seq!['"'];
    assert forall|j: int| !#[trigger] occurs_at(s, p, j) by {
        if occurs_at(s, p, j) {
            if j + p.len() <= x.len() {
                assert(x.subrange(j, j + p.len()) =~= s.subrange(j, j + p.len()));
                assert(occurs_at(x, p, j));
            } else {
                assert(j + p.len() == s.len());
                assert(s.subrange(j, j + p.len())[p.len() - 2] == p[p.len() - 2]);
                assert(p[p.len() - 2] == k[k.len() - 1]);
                assert(s[s.len() - 2] == x.last());
            }
        }
    }
}

/// Every `"` of an escaped text follows a `\`.
pub open spec fn quotes_escaped(e: Seq<char>) -> bool {
    forall|i: int| 0 <= i < e.len() && #[trigger] e[i] == '"' ==> i > 0 && e[i - 1] == '\\'
}

proof fn lemma_escape_quotes(v: Seq<char>)
    ensures
        quotes_escaped(json_escape_spec(v)),
    decreases v.len(),
{
    if v.len() > 0 {
        lemma_escape_quotes(v.drop_last());
        let a = json_escape_spec(v.drop_last());
        let b = json_escape_char(v.last());
        let e = json_escape_spec(v);
        assert(e == a + b);
        assert forall|i: int| 0 <= i < e.len() && #[trigger] e[i] == '"' implies i > 0 && e[i - 1] == '\\' by {
            if i < a.len() {
                assert(a[i] == e[i]);
                assert(a[i - 1] == e[i - 1]);
            } else {
                assert(b[i - a.len()] == e[i]);
                if v.last() == '"' {
                    assert(i - a.len() == 1);
                    assert(e[i - 1] == b[0]);
                }
            }
        }
    }
}

proof fn lemma_no_occ_escaped(x: Seq<char>, e: Seq<char>, k: Seq<char>)
    requires
        key_name(k),
        no_occ(x, key_pattern(k)),
        quotes_escaped(e),
    ensures
        no_occ(x + e, key_pattern(k)),
{
    let p = key_pattern(k);
    let s = x + e;
    assert forall|j: int| !#[trigger] occurs_at(s, p, j) by {
        if occurs_at(s, p, j) {
            let q = j + p.len() - 1;
            assert(s.subrange(j, j + p.len())[p.len() - 1] == p[p.len() - 1]);
            assert(s.subrange(j, j + p.len())[p.len() - 2] == p[p.len() - 2]);
            assert(p[p.len() - 2] == k[k.len() - 1]);
            assert(key_char(k[k.len() - 1]));
            if q >= x.len() {
                assert(e[q - x.len()] == s[q]);
                assert(e[q - x.len()] == '"');
                if q - 1 >= x.len() {
                    assert(e[q - x.len() - 1] == s[q - 1]);
                }
            } else {
                assert(x.subrange(j, j + p.len()) =~= s.subrange(j, j + p.len()));
                assert(occurs_at(x, p, j));
            }
        }
    }
}

proof fn lemma_no_occ_close(z: Seq<char>, k: Seq<char>)
    requires
        key_name(k),
        no_occ(z, key_pattern(k)),
        !crate::text::ends_with_spec(z, seq!['"'] + k),
    ensures
        no_occ(z + seq!['"'], key_pattern(k)),
{
    let p = key_pattern(k);
    let s = z + seq!['"'];
    assert forall|j: int| !#[trigger] occurs_at(s, p, j) by {
        if occurs_at(s, p, j) {
            if j + p.len() <= z.len() {
                assert(z.subrange(j, j + p.len()) =~= s.subrange(j, j + p.len()));
                assert(occurs_at(z, p, j));
            } else {
                assert(z.skip(z.len() - (k.len() + 1)) =~= s.subrange(j, j + p.len() - 1));
                assert(s.subrange(j, j + p.len() - 1) =~= seq!['"'] + k);
            }
        }
    }
}

proof fn lemma_escape_nonempty(v: Seq<char>)
    requires
        v.len() > 0,
    ensures
        json_escape_spec(v).len() > 0,
{
    assert(json_escape_spec(v) == json_escape_spec(v.drop_last()) + json_escape_char(v.last()));
}

/// An escaped text is a key only when the text is that key.
proof fn lemma_escape_is_key(v: Seq<char>, k: Seq<char>)
    requires
        key_name(k),
        json_escape_spec(v) == k,
    ensures
        v == k,
    decreases v.len(),
{
    if v.len() == 0 {
        assert(json_escape_spec(v).len() == 0);
    } else {
        let a = json_escape_spec(v.drop_last());
        let c = v.last();
        assert(json_escape_spec(v) == a + json_escape_char(c));
        if c == '"' || c == '\\' || c == '\n' || c == '\r' || c == '\t' {
            assert(k[a.len() as int] == json_escape_char(c)[0]);
            assert(key_char(k[a.len() as int]));
        } else {
            assert(json_escape_char(c) == seq![c]);
            assert(a =~= k.drop_last());
            if k.len() == 1 {
                if v.drop_last().len() > 0 {
                    lemma_escape_nonempty(v.drop_last());
                }
                assert(v =~= seq![c]);
                assert(k =~= seq![c]);
            } else {
                assert(key_name(k.drop_last())) by {
                    assert forall|i: int| 0 <= i < k.drop_last().len() implies key_char(#[trigger] k.drop_last()[i]) by {
                        assert(k.drop_last()[i] == k[i]);
                    }
                }
                lemma_escape_is_key(v.drop_last(), k.drop_last());
                assert(v =~= v.drop_last().push(c));
                assert(k =~= k.drop_last().push(c));
            }
        }
    }
}

/// An escaped text ends with a quote and a key only when the text does.
proof fn lemma_escape_ends_with_quoted_key(v: Seq<char>, k: Seq<char>)
    requires
        key_name(k),
        crate::text::ends_with_spec(json_escape_spec(v), seq!['"'] + k),
    ensures
        crate::text::ends_with_spec(v, seq!['"'] + k),
    decreases v.len(),
{
    let e = json_escape_spec(v);
    let q = seq!['"'] + k;
    if v.len() == 0 {
        assert(e.len() == 0);
    } else {
        let a = json_escape_spec(v.drop_last());
        let c = v.last();
        assert(e == a + json_escape_char(c));
        assert(e.skip(e.len() - q.len()) == q);
        if c == '"' || c == '\\' || c == '\n' || c == '\r' || c == '\t' {
            assert(e[e.len() - 2] == '\\');
            assert(e[e.len() - 2] == q[q.len() - 2]);
            if k.len() == 1 {
                assert(q[0] == '"');
            } else {
                assert(q[q.len() - 2] == k[k.len() - 2]);
                assert(key_char(k[k.len() - 2]));
            }
        } else {
            assert(json_escape_char(c) == seq![c]);
            assert(c == k.last()) by {
                assert(e[e.len() - 1] == q[q.len() - 1]);
            }
            if k.len() == 1 {
                assert(a.len() >= 1);
                assert(a.last() == '"') by {
                    assert(e[e.len() - 2] == q[0]);
                    assert(e[e.len() - 2] == a[a.len() - 1]);
                }
                let v2 = v.drop_last();
                assert(v2.len() > 0) by {
                    if v2.len() == 0 {
                        assert(a.len() == 0);
                    }
                }
                assert(a == json_escape_spec(v2.drop_last()) + json_escape_char(v2.last()));
                let c2 = v2.last();
                assert(json_escape_char(c2).last() == '"');
                assert(c2 == '"');
                assert(v.skip(v.len() - 2) =~= seq![c2, c]);
                assert(q =~= seq!['"', c]);
            } else {
                let k2 = k.drop_last();
                assert(key_name(k2)) by {
                    assert forall|i: int| 0 <= i < k2.len() implies key_char(#[trigger] k2[i]) by {
                        assert(k2[i] == k[i]);
                    }
                }
                assert(crate::text::ends_with_spec(a, seq!['"'] + k2)) by {
                    assert(a.len() >= k2.len() + 1);
                    assert(a.skip(a.len() - (k2.len() + 1)) =~= e.skip(e.len() - q.len()).drop_last());
                    assert(q.drop_last() =~= seq!['"'] + k2);
                }
                lemma_escape_ends_with_quoted_key(v.drop_last(), k2);
                let v2 = v.drop_last();
                assert(v.skip(v.len() - q.len()) =~= v2.skip(v2.len() - (k2.len() + 1)).push(c));
                assert(q =~= (seq!['"'] + k2).push(c));
            }
        }
    }
}

/// A text the reader will not mistake for the key `k`: it is not the key
/// and does not end with a quote and the key.
pub open spec fn text_safe_for(t: Seq<char>, k: Seq<char>) -> bool {
    t != k && !crate::text::ends_with_spec(t, seq!['"'] + k)
}

proof fn lemma_no_occ_string(x: Seq<char>, v: Seq<char>, k: Seq<char>)
    requires
        key_name(k),
        no_occ(x, key_pattern(k)),
        x.len() > 0 && !key_char(x.last()),
        text_safe_for(v, k),
    ensures
        no_occ(x + seq!['"'] + json_escape_spec(v) + seq!['"'], key_pattern(k)),
{
    let e = json_escape_spec(v);
    let y = x + seq!['"'];
    lemma_no_occ_quote(x, k);
    lemma_escape_quotes(v);
    lemma_no_occ_escaped(y, e, k);
    let z = y + e;
    let q = seq!['"'] + k;
    assert(!crate::text::ends_with_spec(z, q)) by {
        if crate::text::ends_with_spec(z, q) {
            if e.len() >= q.len() {
                assert(e.skip(e.len() - q.len()) =~= z.skip(z.len() - q.len()));
                lemma_escape_ends_with_quoted_key(v, k);
            } else if e.len() == k.len() {
                assert(z.skip(z.len() - q.len()) =~= seq!['"'] + e);
                assert(e =~= q.skip(1));
                assert(q.skip(1) =~= k);
                lemma_escape_is_key(v, k);
            } else {
                let d = k.len() - e.len();
                assert(z[z.len() - e.len() - 1] == '"');
                assert(z.skip(z.len() - q.len())[d] == z[z.len() - e.len() - 1]);
                assert(q[d] == k[d - 1]);
                assert(key_char(k[d - 1]));
            }
        }
    }
    lemma_no_occ_close(z, k);
}

/// The key `kj` and its colon, written after a `{` or `,`, cannot hide the
/// key `k`.
proof fn lemma_no_occ_key(x: Seq<char>, kj: Seq<char>, k: Seq<char>)
    requires
        key_name(k),
        key_name(kj),
        kj != k,
        no_occ(x, key_pattern(k)),
        x.len() > 0 && !key_char(x.last()),
    ensures
        no_occ(x + key_pattern(kj) + seq![':'], key_pattern(k)),
{
    lemma_no_occ_quote(x, k);
    let y = x + seq!['"'];
    assert forall|i: int| 0 <= i < kj.len() implies #[trigger] kj[i] != '"' by {
        assert(key_char(kj[i]));
    }
    lemma_no_occ_quote_free(y, kj, k);
    let z = y + kj;
    let q = seq!['"'] + k;
    assert(!crate::text::ends_with_spec(z, q)) by {
        if crate::text::ends_with_spec(z, q) {
            if kj.len() >= q.len() {
                assert(z[z.len() - q.len()] == q[0]);
                assert(z[z.len() - q.len()] == kj[kj.len() - q.len()]);
                assert(key_char(kj[kj.len() - q.len()]));
            } else if kj.len() == k.len() {
                assert(z.skip(z.len() - q.len()) =~= seq!['"'] + kj);
                assert(kj =~= q.skip(1));
                assert(q.skip(1) =~= k);
            } else {
                let d = k.len() - kj.len();
                assert(z[z.len() - kj.len() - 1] == '"');
                assert(z.skip(z.len() - q.len())[d] == z[z.len() - kj.len() - 1]);
                assert(q[d] == k[d - 1]);
                assert(key_char(k[d - 1]));
            }
        }
    }
    lemma_no_occ_close(z, k);
    assert(z + seq!['"'] =~= x + key_pattern(kj));
    lemma_no_occ_quote_free(x + key_pattern(kj), seq![':'], k);
}

proof fn lemma_no_occ_items(x: Seq<char>, vs: Seq<Seq<char>>, k: Seq<char>)
    requires
        key_name(k),
        no_occ(x, key_pattern(k)),
        x.len() > 0 && !key_char(x.last()),
        forall|i: int| 0 <= i < vs.len() ==> text_safe_for(#[trigger] vs[i], k),
    ensures
        no_occ(x + json_items(vs), key_pattern(k)),
        vs.len() > 0 ==> (x + json_items(vs)).last() == '"',
    decreases vs.len(),
{
    reveal_strlit("\"");
    reveal_strlit(",");
    if vs.len() == 0 {
        assert(x + json_items(vs) =~= x);
    } else if vs.len() == 1 {
        assert(text_safe_for(vs[0], k));
        lemma_no_occ_string(x, vs[0], k);
        assert(x + json_items(vs) =~= x + seq!['"'] + json_escape_spec(vs[0]) + seq!['"']);
    } else {
        let front = vs.drop_last();
        assert forall|i: int| 0 <= i < front.len() implies text_safe_for(#[trigger] front[i], k) by {
            assert(front[i] == vs[i]);
        }
        lemma_no_occ_items(x, front, k);
        let y = x + json_items(front);
        lemma_no_occ_quote_free(y, seq![','], k);
        assert(text_safe_for(vs.last(), k));
        lemma_no_occ_string(y + seq![','], vs.last(), k);
        assert(x + json_items(vs) =~= y + seq![','] + seq!['"'] + json_escape_spec(vs.last()) + seq!['"']);
    }
}

/// A value of a record as the writer gives it: digits, a text, or a list of
/// texts.
pub enum FieldValue {
    Number(Seq<char>),
    Text(Seq<char>),
    Texts(Seq<Seq<char>>),
}

/// A value as the record holds it: digits as they are, a text escaped in
/// quotes, a list as a JSON array of such texts.
pub open spec fn value_written(v: FieldValue) -> Seq<char> {
    match v {
        FieldValue::Number(d) => d,
        FieldValue::Text(t) => seq!['"'] + json_escape_spec(t) + seq!['"'],
        FieldValue::Texts(ts) => json_array_spec(ts),
    }
}

/// No part of the value can be taken for the key `k`.
pub open spec fn value_safe_for(v: FieldValue, k: Seq<char>) -> bool {
    match v {
        FieldValue::Number(d) => forall|i: int| 0 <= i < d.len() ==> #[trigger] d[i] != '"',
        FieldValue::Text(t) => text_safe_for(t, k),
        FieldValue::Texts(ts) => forall|i: int| 0 <= i < ts.len() ==> text_safe_for(#[trigger] ts[i], k),
    }
}

/// `{` and the first `n` fields, each followed by a comma.
pub open spec fn fields_prefix(ks: Seq<Seq<char>>, vs: Seq<FieldValue>, n: int) -> Seq<char>
    decreases n,
{
    if n <= 0 {
        seq!['{']
    } else {
        fields_prefix(ks, vs, n - 1) + key_pattern(ks[n - 1]) + seq![':'] + value_written(vs[n - 1]) + seq![',']
    }
}

/// A record of the fields, in order.
pub open spec fn record_written(ks: Seq<Seq<char>>, vs: Seq<FieldValue>) -> Seq<char> {
    fields_prefix(ks, vs, ks.len() - 1) + key_pattern(ks.last()) + seq![':'] + value_written(vs.last()) + seq!['}']
}

proof fn lemma_prefix_no_occ(ks: Seq<Seq<char>>, vs: Seq<FieldValue>, n: int, k: Seq<char>)
    requires
        0 <= n <= ks.len(),
        vs.len() == ks.len(),
        key_name(k),
        forall|j: int| 0 <= j < n ==> key_name(#[trigger] ks[j]) && ks[j] != k && value_safe_for(vs[j], k),
    ensures
        no_occ(fields_prefix(ks, vs, n), key_pattern(k)),
        fields_prefix(ks, vs, n).len() > 0,
        fields_prefix(ks, vs, n).last() == '{' || fields_prefix(ks, vs, n).last() == ',',
    decreases n,
{
    if n == 0 {
        assert forall|j: int| !#[trigger] occurs_at(seq!['{'], key_pattern(k), j) by {}
    } else {
        lemma_prefix_no_occ(ks, vs, n - 1, k);
        let x = fields_prefix(ks, vs, n - 1);
        assert(key_name(ks[n - 1]) && ks[n - 1] != k && value_safe_for(vs[n - 1], k));
        lemma_no_occ_key(x, ks[n - 1], k);
        let y = x + key_pattern(ks[n - 1]) + seq![':'];
        match vs[n - 1] {
            FieldValue::Number(d) => {
                lemma_no_occ_quote_free(y, d, k);
            },
            FieldValue::Text(t) => {
                lemma_no_occ_string(y, t, k);
                assert(y + value_written(vs[n - 1]) =~= y + seq!['"'] + json_escape_spec(t) + seq!['"']);
            },
            FieldValue::Texts(ts) => {
                lemma_no_occ_quote_free(y, seq!['['], k);
                lemma_no_occ_items(y + seq!['['], ts, k);
                lemma_no_occ_quote_free(y + seq!['['] + json_items(ts), seq![']'], k);
                reveal_strlit("[");
                reveal_strlit("]");
                assert(json_array_spec(ts) =~= seq!['['] + json_items(ts) + seq![']']);
                assert(y + json_array_spec(ts) =~= y + seq!['['] + json_items(ts) + seq![']']);
            },
        }
        let z = y + value_written(vs[n - 1]);
        lemma_no_occ_quote_free(z, seq![','], k);
    }
}

proof fn lemma_prefix_grows(ks: Seq<Seq<char>>, vs: Seq<FieldValue>, m: int, n: int)
    requires
        0 <= m <= n,
    ensures
        fields_prefix(ks, vs, m).is_prefix_of(fields_prefix(ks, vs, n)),
    decreases n - m,
{
    if m < n {
        lemma_prefix_grows(ks, vs, m, n - 1);
        let a = fields_prefix(ks, vs, m);
        let b = fields_prefix(ks, vs, n - 1);
        let c = fields_prefix(ks, vs, n);
        assert(c.subrange(0, b.len() as int) =~= b);
        assert(c.subrange(0, a.len() as int) =~= b.subrange(0, a.len() as int));
    }
}

/// Field `i` stands right after the first `i` fields, followed by a comma
/// or the closing brace.
proof fn lemma_record_at(ks: Seq<Seq<char>>, vs: Seq<FieldValue>, i: int) -> (tail: Seq<char>)
    requires
        0 <= i < ks.len(),
        vs.len() == ks.len(),
    ensures
        tail.len() > 0 && (tail[0] == ',' || tail[0] == '}'),
        record_written(ks, vs) == fields_prefix(ks, vs, i) + key_pattern(ks[i]) + seq![':'] + value_written(vs[i]) + tail,
{
    let r = record_written(ks, vs);
    let a = fields_prefix(ks, vs, i);
    let field = key_pattern(ks[i]) + seq![':'] + value_written(vs[i]);
    if i == ks.len() - 1 {
        let tail = seq!['}'];
        assert(r =~= a + field + tail);
        tail
    } else {
        lemma_prefix_grows(ks, vs, i + 1, ks.len() - 1);
        let b = fields_prefix(ks, vs, i + 1);
        let whole = fields_prefix(ks, vs, ks.len() - 1);
        assert(b =~= a + field + seq![',']);
        let tail = seq![','] + whole.skip(b.len() as int) + key_pattern(ks.last()) + seq![':'] + value_written(vs.last()) + seq!['}'];
        assert(whole =~= b + whole.skip(b.len() as int));
        assert(r =~= a + field + tail);
        tail
    }
}

proof fn lemma_find_from_reaches(h: Seq<char>, p: Seq<char>, j: int, i: int)
    requires
        0 <= j <= i,
        occurs_at(h, p, i),
        forall|m: int| j <= m < i ==> !#[trigger] occurs_at(h, p, m),
    ensures
        crate::text::find_from(h, p, j) == Some(i),
    decreases i - j,
{
    if j < i {
        assert(!occurs_at(h, p, j));
        lemma_find_from_reaches(h, p, j + 1, i);
    }
}

proof fn lemma_find_at(h: Seq<char>, p: Seq<char>, i: int)
    requires
        p.len() >= 1,
        occurs_at(h, p, i),
        no_occ(h.take(i + p.len() - 1), p),
    ensures
        crate::text::find_spec(h, p) == Some(i),
{
    let t = h.take(i + p.len() - 1);
    assert forall|m: int| 0 <= m < i implies !#[trigger] occurs_at(h, p, m) by {
        if occurs_at(h, p, m) {
            assert(t.subrange(m, m + p.len()) =~= h.subrange(m, m + p.len()));
            assert(occurs_at(t, p, m));
        }
    }
    lemma_find_from_reaches(h, p, 0, i);
}

/// The fields a reader meets before field `i`: keys, none of them field
/// `i`'s, and values safe for its key.
pub open spec fn fields_before_safe(ks: Seq<Seq<char>>, vs: Seq<FieldValue>, i: int) -> bool {
    &&& key_name(ks[i])
    &&& forall|j: int| 0 <= j < i ==> key_name(#[trigger] ks[j]) && ks[j] != ks[i] && value_safe_for(vs[j], ks[i])
}

/// The reader finds field `i`'s key where it was written, and reads on
/// from its value.
proof fn lemma_after_key(ks: Seq<Seq<char>>, vs: Seq<FieldValue>, i: int) -> (tail: Seq<char>)
    requires
        0 <= i < ks.len(),
        vs.len() == ks.len(),
        fields_before_safe(ks, vs, i),
    ensures
        tail.len() > 0 && (tail[0] == ',' || tail[0] == '}'),
        crate::metadata::after_field_colon_spec(record_written(ks, vs), ks[i]) == Some(value_written(vs[i]) + tail),
{
    let k = ks[i];
    let tail = lemma_record_at(ks, vs, i);
    let r = record_written(ks, vs);
    let a = fields_prefix(ks, vs, i);
    let p = key_pattern(k);
    lemma_prefix_no_occ(ks, vs, i, k);
    lemma_no_occ_quote(a, k);
    assert forall|m: int| 0 <= m < k.len() implies #[trigger] k[m] != '"' by {
        assert(key_char(k[m]));
    }
    lemma_no_occ_quote_free(a + seq!['"'], k, k);
    assert(r.take(a.len() + p.len() - 1) =~= a + seq!['"'] + k);
    assert(p == crate::metadata::quoted(k));
    assert(r.subrange(a.len() as int, (a.len() + p.len()) as int) =~= p);
    lemma_find_at(r, p, a.len() as int);
    let after = r.skip((a.len() + p.len()) as int);
    assert(after =~= seq![':'] + (value_written(vs[i]) + tail));
    assert(after.subrange(0, 1) =~= seq![':']);
    assert(crate::text::find_spec(after, seq![':']) == Some(0int));
    assert(after.skip(1) =~= value_written(vs[i]) + tail);
    tail
}

/// Inside an array, an escaped text and its closing quote read back as the
/// text, added to the values read so far.
proof fn lemma_array_string(s: Seq<char>, i: int, v: Seq<char>, out: Seq<char>, values: Seq<Seq<char>>)
    requires
        0 <= i,
        i + json_escape_spec(v).len() + 1 <= s.len(),
        s.subrange(i, i + json_escape_spec(v).len() + 1) == json_escape_spec(v) + seq!['"'],
    ensures
        array_from(s, i, true, false, out, values) == array_from(s, i + json_escape_spec(v).len() + 1, false, false,
            seq![], values.push(out + v)),
    decreases v.len(),
{
    let e = json_escape_spec(v);
    if v.len() == 0 {
        assert(e.len() == 0);
        assert(s[i] == s.subrange(i, i + 1)[0]);
        assert(out + v =~= out);
    } else {
        let c = v[0];
        let rest = v.skip(1);
        lemma_escape_first(v);
        let ec = json_escape_char(c);
        let er = json_escape_spec(rest);
        assert(e == ec + er);
        assert(s[i] == (e + seq!['"'])[0]);
        assert(out.push(c) + rest =~= out + v);
        if c == '"' || c == '\\' || c == '\n' || c == '\r' || c == '\t' {
            assert(ec.len() == 2);
            assert(s[i] == '\\');
            assert(s[i + 1] == (e + seq!['"'])[1]);
            assert(unescape(s[i + 1]) == c);
            assert(array_from(s, i, true, false, out, values) == array_from(s, i + 1, true, true, out, values));
            assert(array_from(s, i + 1, true, true, out, values) == array_from(s, i + 2, true, false, out.push(c), values));
            assert(s.subrange(i + 2, i + 2 + er.len() + 1) =~= (e + seq!['"']).subrange(2, (e.len() + 1) as int));
            assert((e + seq!['"']).subrange(2, (e.len() + 1) as int) =~= er + seq!['"']);
            lemma_array_string(s, i + 2, rest, out.push(c), values);
        } else {
            assert(ec == seq![c]);
            assert(s[i] == c);
            assert(array_from(s, i, true, false, out, values) == array_from(s, i + 1, true, false, out.push(c), values));
            assert(s.subrange(i + 1, i + 1 + er.len() + 1) =~= (e + seq!['"']).subrange(1, (e.len() + 1) as int));
            assert((e + seq!['"']).subrange(1, (e.len() + 1) as int) =~= er + seq!['"']);
            lemma_array_string(s, i + 1, rest, out.push(c), values);
        }
    }
}

/// The items of an array read back as their texts, after those read before.
proof fn lemma_array_items(s: Seq<char>, i: int, vs: Seq<Seq<char>>, values: Seq<Seq<char>>)
    requires
        0 <= i,
        i + json_items(vs).len() <= s.len(),
        s.subrange(i, i + json_items(vs).len()) == json_items(vs),
    ensures
        array_from(s, i, false, false, seq![], values) == array_from(s, i + json_items(vs).len(), false, false, seq![],
            values + vs),
    decreases vs.len(),
{
    reveal_strlit("\"");
    reveal_strlit(",");
    if vs.len() == 0 {
        assert(values + vs =~= values);
    } else if vs.len() == 1 {
        let e = json_escape_spec(vs[0]);
        assert(json_items(vs) =~= seq!['"'] + e + seq!['"']);
        assert(s[i] == json_items(vs)[0]);
        assert(s.subrange(i + 1, i + 1 + e.len() + 1) =~= json_items(vs).subrange(1, json_items(vs).len() as int));
        assert(json_items(vs).subrange(1, json_items(vs).len() as int) =~= e + seq!['"']);
        lemma_array_string(s, i + 1, vs[0], seq![], values);
        assert(seq![] + vs[0] =~= vs[0]);
        assert(values.push(vs[0]) =~= values + vs);
    } else {
        let front = vs.drop_last();
        let last = vs.last();
        let f = json_items(front);
        let e = json_escape_spec(last);
        assert(json_items(vs) =~= f + seq![','] + seq!['"'] + e + seq!['"']);
        assert(s.subrange(i, i + f.len()) =~= json_items(vs).subrange(0, f.len() as int));
        assert(json_items(vs).subrange(0, f.len() as int) =~= f);
        lemma_array_items(s, i, front, values);
        let j = i + f.len();
        assert(s[j] == json_items(vs)[f.len() as int]);
        assert(s[j] == ',');
        assert(s[j + 1] == json_items(vs)[(f.len() + 1) as int]);
        assert(s[j + 1] == '"');
        assert(array_from(s, j, false, false, seq![], values + front) == array_from(s, j + 1, false, false, seq![],
            values + front));
        assert(array_from(s, j + 1, false, false, seq![], values + front) == array_from(s, j + 2, true, false, seq![],
            values + front));
        assert(s.subrange(j + 2, j + 2 + e.len() + 1) =~= json_items(vs).subrange((f.len() + 2) as int, json_items(vs).len() as int));
        assert(json_items(vs).subrange((f.len() + 2) as int, json_items(vs).len() as int) =~= e + seq!['"']);
        lemma_array_string(s, j + 2, last, seq![], values + front);
        assert(seq![] + last =~= last);
        assert((values + front).push(last) =~= values + vs);
    }
}

proof fn lemma_trim_start_unchanged(s: Seq<char>)
    requires
        s.len() > 0,
        !is_ws(s[0]),
    ensures
        crate::text::trim_start_spec(s) == s,
{
    assert(crate::text::lead_from(s, 0) == 0);
    assert(s.skip(0) =~= s);
}

proof fn lemma_read_text(ks: Seq<Seq<char>>, vs: Seq<FieldValue>, i: int, t: Seq<char>)
    requires
        0 <= i < ks.len(),
        vs.len() == ks.len(),
        fields_before_safe(ks, vs, i),
        vs[i] == FieldValue::Text(t),
    ensures
        crate::metadata::string_field_spec(record_written(ks, vs), ks[i]) == Ok::<Seq<char>, crate::metadata::MetadataErrorView>(t),
{
    let tail = lemma_after_key(ks, vs, i);
    let e = json_escape_spec(t);
    let rest = value_written(vs[i]) + tail;
    assert(rest[0] == '"');
    lemma_trim_start_unchanged(rest);
    assert(rest.skip(1) =~= e + seq!['"'] + tail);
    lemma_string_from_offset(rest, 1, rest.skip(1), false, seq![]);
    lemma_string_from_escaped(t, tail, seq![]);
    assert(seq![] + t =~= t);
}

proof fn lemma_read_texts(ks: Seq<Seq<char>>, vs: Seq<FieldValue>, i: int, ts: Seq<Seq<char>>)
    requires
        0 <= i < ks.len(),
        vs.len() == ks.len(),
        fields_before_safe(ks, vs, i),
        vs[i] == FieldValue::Texts(ts),
    ensures
        crate::metadata::array_field_spec(record_written(ks, vs), ks[i]) == Ok::<Seq<Seq<char>>, crate::metadata::MetadataErrorView>(ts),
{
    reveal_strlit("[");
    reveal_strlit("]");
    let tail = lemma_after_key(ks, vs, i);
    let items = json_items(ts);
    let rest = value_written(vs[i]) + tail;
    assert(rest =~= seq!['['] + items + seq![']'] + tail);
    assert(rest[0] == '[');
    lemma_trim_start_unchanged(rest);
    assert(rest.subrange(1, (1 + items.len()) as int) =~= items);
    lemma_array_items(rest, 1, ts, seq![]);
    assert(rest[(1 + items.len()) as int] == ']');
    assert(seq![] + ts =~= ts);
}

proof fn lemma_read_one(ks: Seq<Seq<char>>, vs: Seq<FieldValue>, i: int)
    requires
        0 <= i < ks.len(),
        vs.len() == ks.len(),
        fields_before_safe(ks, vs, i),
        vs[i] == FieldValue::Number(seq!['1']),
    ensures
        crate::metadata::u32_field_spec(record_written(ks, vs), ks[i]) == Ok::<u32, crate::metadata::MetadataErrorView>(1),
{
    let tail = lemma_after_key(ks, vs, i);
    let rest = value_written(vs[i]) + tail;
    assert(rest =~= seq!['1'] + tail);
    lemma_trim_start_unchanged(rest);
    assert(crate::metadata::digit_run(rest, 1) == 1);
    assert(crate::metadata::digit_run(rest, 0) == 1);
    assert(rest.take(1) =~= seq!['1']);
    assert(seq!['1'].drop_last() =~= Seq::<char>::empty());
    assert(crate::text::decimal_value(Seq::<char>::empty()) == 0);
    assert(crate::text::digit_of('1') == 1);
    assert(crate::text::decimal_value(seq!['1']) == crate::text::decimal_value(seq!['1'].drop_last()) * 10
        + crate::text::digit_of('1'));
    assert(crate::text::decimal_value(seq!['1']) == 1);
}

/// A text the writer may put in a record as it is: no quote, backslash,
/// newline, carriage return or tab.
pub open spec fn plain_text(s: Seq<char>) -> bool {
    forall|i: int| 0 <= i < s.len() ==> #[trigger] s[i] != '"' && s[i] != '\\' && s[i] != '\n' && s[i] != '\r' && s[i] != '\t'
}

proof fn lemma_plain_escape(s: Seq<char>)
    requires
        plain_text(s),
    ensures
        json_escape_spec(s) == s,
    decreases s.len(),
{
    if s.len() > 0 {
        assert(plain_text(s.drop_last())) by {
            assert forall|i: int| 0 <= i < s.drop_last().len() implies #[trigger] s.drop_last()[i] != '"' && s.drop_last()[i]
                != '\\' && s.drop_last()[i] != '\n' && s.drop_last()[i] != '\r' && s.drop_last()[i] != '\t' by {
                assert(s.drop_last()[i] == s[i]);
            }
        }
        lemma_plain_escape(s.drop_last());
        assert(s[s.len() - 1] == s.last());
        assert(json_escape_char(s.last()) == seq![s.last()]);
        assert(s.drop_last().push(s.last()) =~= s);
    }
}

/// The keys of a record, in the order the writer puts them.
pub open spec fn record_keys() -> Seq<Seq<char>> {
    seq![
        "schema_version"@,
        "trust_macro_version"@,
        "module_id"@,
        "item_id"@,
        "item_kind"@,
        "source_span"@,
        "rust_function_path"@,
        "visibility"@,
        "contracts_original"@,
        "contracts_normalized"@,
        "contract_classes"@,
        "assertion_policy"@,
        "function_source"@,
        "body_hash_placeholder"@,
        "trust_model_dependencies"@,
    ]
}

/// A text the reader cannot take for any key of the record.
pub open spec fn record_safe(t: Seq<char>) -> bool {
    forall|j: int| 0 <= j < record_keys().len() ==> text_safe_for(t, #[trigger] record_keys()[j])
}

/// The fields of a `trust::total!` function's record.
pub open spec fn total_record_values(
    version: Seq<char>,
    name: Seq<char>,
    visibility: Seq<char>,
    displays: Seq<Seq<char>>,
    classes: Seq<Seq<char>>,
    policy: Seq<char>,
    source: Seq<char>,
    hash: Seq<char>,
) -> Seq<FieldValue> {
    seq![
        FieldValue::Number(seq!['1']),
        FieldValue::Text(version),
        FieldValue::Text("unknown"@),
        FieldValue::Text("total:"@ + name + ":"@ + hash),
        FieldValue::Text("total"@),
        FieldValue::Text("unknown"@),
        FieldValue::Text(name),
        FieldValue::Text(visibility),
        FieldValue::Texts(displays),
        FieldValue::Texts(displays),
        FieldValue::Texts(classes),
        FieldValue::Text(policy),
        FieldValue::Text(source),
        FieldValue::Text(hash),
        FieldValue::Texts(seq![]),
    ]
}

/// `{`, the first `n` fields and the key of the next, with its colon.
spec fn open_at(ks: Seq<Seq<char>>, vs: Seq<FieldValue>, n: int) -> Seq<char> {
    fields_prefix(ks, vs, n) + key_pattern(ks[n]) + seq![':']
}

/// The first field's number, then the next key.
proof fn lemma_first_open(ks: Seq<Seq<char>>, vs: Seq<FieldValue>)
    requires
        ks.len() >= 2,
        vs.len() == ks.len(),
        vs[0] == FieldValue::Number(seq!['1']),
    ensures
        open_at(ks, vs, 1) + seq!['"'] =~= seq!['{'] + key_pattern(ks[0]) + seq![':', '1', ','] + key_pattern(ks[1])
            + seq![':', '"'],
{
    assert(fields_prefix(ks, vs, 0) == seq!['{']);
    assert(value_written(vs[0]) == seq!['1']);
}

/// After a text field, the writer's next fixed text closes it and opens
/// the next key.
proof fn lemma_step_text(ks: Seq<Seq<char>>, vs: Seq<FieldValue>, n: int, t: Seq<char>, lit: Seq<char>, more: Seq<char>)
    requires
        0 <= n,
        n + 1 < ks.len(),
        vs.len() == ks.len(),
        vs[n] == FieldValue::Text(t),
        lit == seq!['"', ','] + key_pattern(ks[n + 1]) + seq![':'] + more,
    ensures
        open_at(ks, vs, n) + seq!['"'] + json_escape_spec(t) + lit == open_at(ks, vs, n + 1) + more,
        open_at(ks, vs, n) + (seq!['"'] + json_escape_spec(t) + lit) == open_at(ks, vs, n + 1) + more,
{
    assert(fields_prefix(ks, vs, n + 1) == fields_prefix(ks, vs, n) + key_pattern(ks[n]) + seq![':'] + value_written(vs[n])
        + seq![',']);
    assert(open_at(ks, vs, n) + seq!['"'] + json_escape_spec(t) + lit =~= open_at(ks, vs, n + 1) + more);
    assert(open_at(ks, vs, n) + (seq!['"'] + json_escape_spec(t) + lit) =~= open_at(ks, vs, n + 1) + more);
}

/// After a list field, the writer's next fixed text opens the next key.
proof fn lemma_step_texts(
    ks: Seq<Seq<char>>,
    vs: Seq<FieldValue>,
    n: int,
    ts: Seq<Seq<char>>,
    lit: Seq<char>,
    more: Seq<char>,
)
    requires
        0 <= n,
        n + 1 < ks.len(),
        vs.len() == ks.len(),
        vs[n] == FieldValue::Texts(ts),
        lit == seq![','] + key_pattern(ks[n + 1]) + seq![':'] + more,
    ensures
        open_at(ks, vs, n) + json_array_spec(ts) + lit == open_at(ks, vs, n + 1) + more,
{
    assert(fields_prefix(ks, vs, n + 1) == fields_prefix(ks, vs, n) + key_pattern(ks[n]) + seq![':'] + value_written(vs[n])
        + seq![',']);
    assert(open_at(ks, vs, n) + json_array_spec(ts) + lit =~= open_at(ks, vs, n + 1) + more);
}

/// The last field, an empty list, and the closing brace.
proof fn lemma_close(ks: Seq<Seq<char>>, vs: Seq<FieldValue>)
    requires
        ks.len() == 15,
        vs.len() == 15,
        vs[14] == FieldValue::Texts(Seq::<Seq<char>>::empty()),
    ensures
        record_written(ks, vs) == open_at(ks, vs, 14) + (json_array_spec(Seq::<Seq<char>>::empty()) + seq!['}']),
{
    assert(ks.last() == ks[14]);
    assert(vs.last() == vs[14]);
    assert(record_written(ks, vs) =~= open_at(ks, vs, 14) + (json_array_spec(Seq::<Seq<char>>::empty()) + seq!['}']));
}

/// The record keys, one by one.
proof fn lemma_record_keys()
    ensures
        record_keys().len() == 15,
        record_keys()[0] == "schema_version"@,
        record_keys()[1] == "trust_macro_version"@,
        record_keys()[2] == "module_id"@,
        record_keys()[3] == "item_id"@,
        record_keys()[4] == "item_kind"@,
        record_keys()[5] == "source_span"@,
        record_keys()[6] == "rust_function_path"@,
        record_keys()[7] == "visibility"@,
        record_keys()[8] == "contracts_original"@,
        record_keys()[9] == "contracts_normalized"@,
        record_keys()[10] == "contract_classes"@,
        record_keys()[11] == "assertion_policy"@,
        record_keys()[12] == "function_source"@,
        record_keys()[13] == "body_hash_placeholder"@,
        record_keys()[14] == "trust_model_dependencies"@,
{
}

/// The writer's fixed texts: keys, colons, commas and quotes.
#[verifier::rlimit(50)]
proof fn lemma_record_literals()
    ensures
        "{\"schema_version\":1,\"trust_macro_version\":\""@ =~= seq!['{'] + key_pattern("schema_version"@) + seq![
            ':',
            '1',
            ',',
        ] + key_pattern("trust_macro_version"@) + seq![':', '"'],
        "\",\"module_id\":\""@ =~= seq!['"', ','] + key_pattern("module_id"@) + seq![':'] + seq!['"'],
        "\",\"item_id\":\""@ =~= seq!['"', ','] + key_pattern("item_id"@) + seq![':'] + seq!['"'],
        "\",\"item_kind\":\""@ =~= seq!['"', ','] + key_pattern("item_kind"@) + seq![':'] + seq!['"'],
        "\",\"source_span\":\"unknown\",\"rust_function_path\":\""@ =~= seq!['"', ','] + key_pattern("source_span"@)
            + seq![':'] + (seq!['"'] + "unknown"@ + (seq!['"', ','] + key_pattern("rust_function_path"@) + seq![':']
            + seq!['"'])),
        "\",\"visibility\":\""@ =~= seq!['"', ','] + key_pattern("visibility"@) + seq![':'] + seq!['"'],
        "\",\"contracts_original\":"@ =~= seq!['"', ','] + key_pattern("contracts_original"@) + seq![':'] + Seq::<
            char,
        >::empty(),
        ",\"contracts_normalized\":"@ =~= seq![','] + key_pattern("contracts_normalized"@) + seq![':'] + Seq::<
            char,
        >::empty(),
        ",\"contract_classes\":"@ =~= seq![','] + key_pattern("contract_classes"@) + seq![':'] + Seq::<char>::empty(),
        ",\"assertion_policy\":\""@ =~= seq![','] + key_pattern("assertion_policy"@) + seq![':'] + seq!['"'],
        "\",\"function_source\":\""@ =~= seq!['"', ','] + key_pattern("function_source"@) + seq![':'] + seq!['"'],
        "\",\"body_hash_placeholder\":\""@ =~= seq!['"', ','] + key_pattern("body_hash_placeholder"@) + seq![':']
            + seq!['"'],
        "\",\"trust_model_dependencies\":[]}"@ =~= seq!['"', ','] + key_pattern("trust_model_dependencies"@) + seq![
            ':',
        ] + (json_array_spec(Seq::<Seq<char>>::empty()) + seq!['}']),
{
    reveal_strlit("schema_version");
    reveal_strlit("trust_macro_version");
    reveal_strlit("module_id");
    reveal_strlit("item_id");
    reveal_strlit("item_kind");
    reveal_strlit("source_span");
    reveal_strlit("rust_function_path");
    reveal_strlit("visibility");
    reveal_strlit("contracts_original");
    reveal_strlit("contracts_normalized");
    reveal_strlit("contract_classes");
    reveal_strlit("assertion_policy");
    reveal_strlit("function_source");
    reveal_strlit("body_hash_placeholder");
    reveal_strlit("trust_model_dependencies");
    reveal_strlit("unknown");
    reveal_strlit("[");
    reveal_strlit("]");
    reveal_strlit("{\"schema_version\":1,\"trust_macro_version\":\"");
    reveal_strlit("\",\"module_id\":\"");
    reveal_strlit("\",\"item_id\":\"");
    reveal_strlit("\",\"item_kind\":\"");
    reveal_strlit("\",\"source_span\":\"unknown\",\"rust_function_path\":\"");
    reveal_strlit("\",\"visibility\":\"");
    reveal_strlit("\",\"contracts_original\":");
    reveal_strlit(",\"contracts_normalized\":");
    reveal_strlit(",\"contract_classes\":");
    reveal_strlit(",\"assertion_policy\":\"");
    reveal_strlit("\",\"function_source\":\"");
    reveal_strlit("\",\"body_hash_placeholder\":\"");
    reveal_strlit("\",\"trust_model_dependencies\":[]}");
    assert(json_items(Seq::<Seq<char>>::empty()) =~= Seq::<char>::empty());
}

/// The record the macros write, laid out field by field.
#[verifier::rlimit(50)]
proof fn lemma_record_layout(
    vs: Seq<FieldValue>,
    a1: Seq<char>,
    a2: Seq<char>,
    a3: Seq<char>,
    a4: Seq<char>,
    a5: Seq<char>,
    a6: Seq<char>,
    o: Seq<Seq<char>>,
    n: Seq<Seq<char>>,
    c: Seq<Seq<char>>,
    a10: Seq<char>,
    a11: Seq<char>,
    a12: Seq<char>,
)
    requires
        vs.len() == 15,
        vs[0] == FieldValue::Number(seq!['1']),
        vs[1] == FieldValue::Text(a1),
        vs[2] == FieldValue::Text(a2),
        vs[3] == FieldValue::Text(a3),
        vs[4] == FieldValue::Text(a4),
        vs[5] == FieldValue::Text("unknown"@),
        vs[6] == FieldValue::Text(a5),
        vs[7] == FieldValue::Text(a6),
        vs[8] == FieldValue::Texts(o),
        vs[9] == FieldValue::Texts(n),
        vs[10] == FieldValue::Texts(c),
        vs[11] == FieldValue::Text(a10),
        vs[12] == FieldValue::Text(a11),
        vs[13] == FieldValue::Text(a12),
        vs[14] == FieldValue::Texts(Seq::<Seq<char>>::empty()),
    ensures
        record_json_spec(json_escape_spec(a1), json_escape_spec(a2), json_escape_spec(a3), json_escape_spec(a4),
            json_escape_spec(a5), json_escape_spec(a6), json_array_spec(o), json_array_spec(n), json_array_spec(c),
            json_escape_spec(a10), json_escape_spec(a11), json_escape_spec(a12)) == record_written(record_keys(), vs),
{
    let ks = record_keys();
    lemma_record_keys();
    lemma_record_literals();
    let q = seq!['"'];
    let cq = seq!['"', ','];
    let none = Seq::<char>::empty();
    assert(json_escape_spec("unknown"@) == "unknown"@) by {
        reveal_strlit("unknown");
        assert(plain_text("unknown"@));
        lemma_plain_escape("unknown"@);
    }
    lemma_first_open(ks, vs);
    lemma_step_text(ks, vs, 1, a1, "\",\"module_id\":\""@, q);
    lemma_step_text(ks, vs, 2, a2, "\",\"item_id\":\""@, q);
    lemma_step_text(ks, vs, 3, a3, "\",\"item_kind\":\""@, q);
    let m5 = cq + key_pattern(ks[6]) + seq![':'] + q;
    lemma_step_text(ks, vs, 4, a4, "\",\"source_span\":\"unknown\",\"rust_function_path\":\""@, q + "unknown"@ + m5);
    lemma_step_text(ks, vs, 5, "unknown"@, m5, q);
    lemma_step_text(ks, vs, 6, a5, "\",\"visibility\":\""@, q);
    lemma_step_text(ks, vs, 7, a6, "\",\"contracts_original\":"@, none);
    assert(open_at(ks, vs, 8) + none =~= open_at(ks, vs, 8));
    lemma_step_texts(ks, vs, 8, o, ",\"contracts_normalized\":"@, none);
    assert(open_at(ks, vs, 9) + none =~= open_at(ks, vs, 9));
    lemma_step_texts(ks, vs, 9, n, ",\"contract_classes\":"@, none);
    assert(open_at(ks, vs, 10) + none =~= open_at(ks, vs, 10));
    lemma_step_texts(ks, vs, 10, c, ",\"assertion_policy\":\""@, q);
    lemma_step_text(ks, vs, 11, a10, "\",\"function_source\":\""@, q);
    lemma_step_text(ks, vs, 12, a11, "\",\"body_hash_placeholder\":\""@, q);
    lemma_step_text(
        ks,
        vs,
        13,
        a12,
        "\",\"trust_model_dependencies\":[]}"@,
        json_array_spec(Seq::<Seq<char>>::empty()) + seq!['}'],
    );
    lemma_close(ks, vs);
}

/// Every record key is a key name, and no two are the same.
#[verifier::rlimit(50)]
proof fn lemma_keys_distinct()
    ensures
        forall|i: int| 0 <= i < 15 ==> key_name(#[trigger] record_keys()[i]),
        forall|i: int, j: int| 0 <= i < 15 && 0 <= j < 15 && i != j ==> #[trigger] record_keys()[i] != #[trigger] record_keys()[j],
{
    lemma_record_keys();
    reveal_strlit("schema_version");
    reveal_strlit("trust_macro_version");
    reveal_strlit("module_id");
    reveal_strlit("item_id");
    reveal_strlit("item_kind");
    reveal_strlit("source_span");
    reveal_strlit("rust_function_path");
    reveal_strlit("visibility");
    reveal_strlit("contracts_original");
    reveal_strlit("contracts_normalized");
    reveal_strlit("contract_classes");
    reveal_strlit("assertion_policy");
    reveal_strlit("function_source");
    reveal_strlit("body_hash_placeholder");
    reveal_strlit("trust_model_dependencies");
    let ks = record_keys();
    assert forall|i: int| 0 <= i < 15 implies key_name(#[trigger] ks[i]) by {
        assert(forall|m: int| 0 <= m < ks[i].len() ==> key_char(#[trigger] ks[i][m]));
    }
    // same-length keys differ early on
    assert(ks[2][0] != ks[4][1]);
    assert(ks[2][0] != ks[4][0]);
    assert(ks[6][0] != ks[8][0]);
    assert(ks[10][0] != ks[11][0]);
    assert forall|i: int, j: int| 0 <= i < 15 && 0 <= j < 15 && i != j implies #[trigger] ks[i] != #[trigger] ks[j] by {
        if i == 2 && j == 4 || i == 4 && j == 2 {
            assert(ks[i][0] != ks[j][0]);
        } else if i == 6 && j == 8 || i == 8 && j == 6 {
            assert(ks[i][0] != ks[j][0]);
        } else if i == 10 && j == 11 || i == 11 && j == 10 {
            assert(ks[i][0] != ks[j][0]);
        } else {
            assert(ks[i].len() != ks[j].len());
        }
    }
}

/// A text with no quote that is no record key is safe in a record.
proof fn lemma_plain_safe(t: Seq<char>)
    requires
        plain_text(t),
        forall|j: int| 0 <= j < 15 ==> t != #[trigger] record_keys()[j],
    ensures
        record_safe(t),
{
    lemma_record_keys();
    assert forall|j: int| 0 <= j < record_keys().len() implies text_safe_for(t, #[trigger] record_keys()[j]) by {
        let p = seq!['"'] + record_keys()[j];
        if crate::text::ends_with_spec(t, p) {
            assert(t.skip(t.len() - p.len())[0] == p[0]);
            assert(t[t.len() - p.len()] == '"');
        }
    }
}

/// The fixed texts the writer puts in a `trust::total!` record are safe.
proof fn lemma_constants_safe()
    ensures
        record_safe("unknown"@),
        record_safe("total"@),
{
    lemma_record_keys();
    reveal_strlit("unknown");
    reveal_strlit("total");
    reveal_strlit("schema_version");
    reveal_strlit("trust_macro_version");
    reveal_strlit("module_id");
    reveal_strlit("item_id");
    reveal_strlit("item_kind");
    reveal_strlit("source_span");
    reveal_strlit("rust_function_path");
    reveal_strlit("visibility");
    reveal_strlit("contracts_original");
    reveal_strlit("contracts_normalized");
    reveal_strlit("contract_classes");
    reveal_strlit("assertion_policy");
    reveal_strlit("function_source");
    reveal_strlit("body_hash_placeholder");
    reveal_strlit("trust_model_dependencies");
    assert(plain_text("unknown"@));
    assert(plain_text("total"@));
    assert forall|j: int| 0 <= j < 15 implies "unknown"@ != #[trigger] record_keys()[j] by {
        if j == 3 {
            assert("unknown"@[0] != record_keys()[j][0]);
        } else {
            assert("unknown"@.len() != record_keys()[j].len());
        }
    }
    assert forall|j: int| 0 <= j < 15 implies "total"@ != #[trigger] record_keys()[j] by {
        assert("total"@.len() != record_keys()[j].len());
    }
    lemma_plain_safe("unknown"@);
    lemma_plain_safe("total"@);
}

/// An item id `total:<name>:<hash>` is safe in a record: its colon keeps it
/// from being a key, and a plain hash keeps its end from being a quoted key.
proof fn lemma_item_id_safe(name: Seq<char>, hash: Seq<char>)
    requires
        plain_text(hash),
    ensures
        record_safe("total:"@ + name + ":"@ + hash),
{
    reveal_strlit("total:");
    reveal_strlit(":");
    let t = "total:"@ + name + ":"@ + hash;
    let c = t.len() - hash.len() - 1;
    assert(t[5] == ':');
    assert(t[c] == ':');
    assert forall|m: int| c < m < t.len() implies #[trigger] t[m] == hash[m - c - 1] by {}
    lemma_keys_distinct();
    assert forall|j: int| 0 <= j < record_keys().len() implies text_safe_for(t, #[trigger] record_keys()[j]) by {
        let k = record_keys()[j];
        assert(key_name(k));
        if t == k {
            assert(key_char(k[5]));
        }
        let p = seq!['"'] + k;
        if crate::text::ends_with_spec(t, p) {
            let s = t.len() - p.len();
            assert(t[s] == t.skip(s)[0]);
            assert(t[s] == '"');
            if s > c {
                assert(hash[s - c - 1] == '"');
            } else if s < c {
                assert(t.skip(s)[c - s] == p[c - s]);
                assert(k[c - s - 1] == ':');
                assert(key_char(k[c - s - 1]));
            }
        }
    }
}

/// What the reader needs of a field's value: no part of it can be taken
/// for a record key.
spec fn value_record_safe(v: FieldValue) -> bool {
    match v {
        FieldValue::Number(d) => forall|i: int| 0 <= i < d.len() ==> #[trigger] d[i] != '"',
        FieldValue::Text(t) => record_safe(t),
        FieldValue::Texts(ts) => forall|m: int| 0 <= m < ts.len() ==> record_safe(#[trigger] ts[m]),
    }
}

/// With every value safe, the reader finds each field of the record where it
/// was written.
proof fn lemma_fields_found(vs: Seq<FieldValue>)
    requires
        vs.len() == 15,
        forall|j: int| 0 <= j < 15 ==> value_record_safe(#[trigger] vs[j]),
    ensures
        forall|i: int| 0 <= i < 15 ==> fields_before_safe(record_keys(), vs, i),
{
    lemma_keys_distinct();
    let ks = record_keys();
    assert forall|i: int| 0 <= i < 15 implies fields_before_safe(ks, vs, i) by {
        assert forall|j: int| 0 <= j < i implies key_name(#[trigger] ks[j]) && ks[j] != ks[i] && value_safe_for(vs[j], ks[i])
            by {
            assert(value_record_safe(vs[j]));
            match vs[j] {
                FieldValue::Number(d) => {},
                FieldValue::Text(t) => {
                    assert(text_safe_for(t, ks[i]));
                },
                FieldValue::Texts(ts) => {
                    assert forall|m: int| 0 <= m < ts.len() implies text_safe_for(#[trigger] ts[m], ks[i]) by {
                        assert(record_safe(ts[m]));
                    }
                },
            }
        }
    }
}

/// What the reader gives back of a `trust::total!` function's record (the
/// text `metadata_json` writes) is what went into it: the version, the
/// name and item id, the visibility, the displayed contracts and their
/// classes, the assertion policy, the source and the hash. It holds when
/// the texts the writer puts in as they are (version, visibility, hash)
/// have no character that needs escaping, and no text can be taken for a
/// record key: none is a key itself or ends in a quote and a key.
pub proof fn total_record_reads_back(
    version: Seq<char>,
    name: Seq<char>,
    visibility: Seq<char>,
    displays: Seq<Seq<char>>,
    classes: Seq<Seq<char>>,
    policy: Seq<char>,
    source: Seq<char>,
    hash: Seq<char>,
)
    requires
        plain_text(version),
        plain_text(visibility),
        plain_text(hash),
        record_safe(version),
        record_safe(name),
        record_safe(visibility),
        record_safe(policy),
        record_safe(source),
        record_safe(hash),
        forall|m: int| 0 <= m < displays.len() ==> record_safe(#[trigger] displays[m]),
        forall|m: int| 0 <= m < classes.len() ==> record_safe(#[trigger] classes[m]),
    ensures
        crate::metadata::parse_metadata_spec(
            record_json_spec(version, "unknown"@, "total:"@ + json_escape_spec(name) + ":"@ + hash, "total"@,
                json_escape_spec(name), visibility, json_array_spec(displays), json_array_spec(displays),
                json_array_spec(classes), json_escape_spec(policy), json_escape_spec(source), hash),
        ) == Ok::<crate::metadata::MetadataView, crate::metadata::MetadataErrorView>(
            crate::metadata::MetadataView {
                schema_version: 1,
                trust_macro_version: version,
                module_id: "unknown"@,
                item_kind: "total"@,
                item_id: "total:"@ + name + ":"@ + hash,
                source_span: "unknown"@,
                rust_function_path: name,
                visibility: visibility,
                contracts_original: displays,
                contracts_normalized: displays,
                contract_classes: classes,
                assertion_policy: policy,
                function_source: source,
                body_hash_placeholder: hash,
                trust_model_dependencies: seq![],
            },
        ),
{
    let item = "total:"@ + name + ":"@ + hash;
    let ks = record_keys();
    let vs = total_record_values(version, name, visibility, displays, classes, policy, source, hash);
    assert(vs.len() == 15);
    assert(vs[0] == FieldValue::Number(seq!['1']));
    assert(vs[1] == FieldValue::Text(version));
    assert(vs[2] == FieldValue::Text("unknown"@));
    assert(vs[3] == FieldValue::Text(item));
    assert(vs[4] == FieldValue::Text("total"@));
    assert(vs[5] == FieldValue::Text("unknown"@));
    assert(vs[6] == FieldValue::Text(name));
    assert(vs[7] == FieldValue::Text(visibility));
    assert(vs[8] == FieldValue::Texts(displays));
    assert(vs[9] == FieldValue::Texts(displays));
    assert(vs[10] == FieldValue::Texts(classes));
    assert(vs[11] == FieldValue::Text(policy));
    assert(vs[12] == FieldValue::Text(source));
    assert(vs[13] == FieldValue::Text(hash));
    assert(vs[14] == FieldValue::Texts(Seq::<Seq<char>>::empty()));
    // the texts the writer puts in as they are
    reveal_strlit("unknown");
    reveal_strlit("total");
    reveal_strlit("total:");
    reveal_strlit(":");
    assert(plain_text("unknown"@));
    assert(plain_text("total"@));
    assert(plain_text("total:"@));
    assert(plain_text(":"@));
    lemma_plain_escape(version);
    lemma_plain_escape(visibility);
    lemma_plain_escape(hash);
    lemma_plain_escape("unknown"@);
    lemma_plain_escape("total"@);
    lemma_plain_escape("total:"@);
    lemma_plain_escape(":"@);
    lemma_escape_append("total:"@ + name, ":"@ + hash);
    lemma_escape_append("total:"@, name);
    lemma_escape_append(":"@, hash);
    assert(item =~= ("total:"@ + name) + (":"@ + hash));
    assert(json_escape_spec(item) =~= "total:"@ + json_escape_spec(name) + ":"@ + hash);
    lemma_record_layout(vs, version, "unknown"@, item, "total"@, name, visibility, displays, displays, classes, policy,
        source, hash);
    // every value is safe, so every field is found where it was written
    lemma_constants_safe();
    lemma_item_id_safe(name, hash);
    assert(value_record_safe(vs[0]));
    assert forall|j: int| 0 <= j < 15 implies value_record_safe(#[trigger] vs[j]) by {}
    lemma_fields_found(vs);
    lemma_record_keys();
    lemma_read_one(ks, vs, 0);
    lemma_read_text(ks, vs, 1, version);
    lemma_read_text(ks, vs, 2, "unknown"@);
    lemma_read_text(ks, vs, 3, item);
    lemma_read_text(ks, vs, 4, "total"@);
    lemma_read_text(ks, vs, 5, "unknown"@);
    lemma_read_text(ks, vs, 6, name);
    lemma_read_text(ks, vs, 7, visibility);
    lemma_read_texts(ks, vs, 8, displays);
    lemma_read_texts(ks, vs, 9, displays);
    lemma_read_texts(ks, vs, 10, classes);
    lemma_read_text(ks, vs, 11, policy);
    lemma_read_text(ks, vs, 12, source);
    lemma_read_text(ks, vs, 13, hash);
    lemma_read_texts(ks, vs, 14, Seq::<Seq<char>>::empty());
}

} // verus!
