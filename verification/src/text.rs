//! Character classes and the small text operations the rest of the crate is
//! built from. Text is held as `Vec<char>` / `&[char]`, whose view is the
//! `Seq<char>` of its characters.

use vstd::prelude::*;
use vstd::string::*;

verus! {

/// Unicode `White_Space`, the set `char::is_whitespace` accepts.
pub open spec fn is_ws(c: char) -> bool {
    ||| c == '\t' || c == '\n' || c == '\u{0B}' || c == '\u{0C}' || c == '\r' || c == ' '
    ||| c == '\u{85}' || c == '\u{A0}' || c == '\u{1680}'
    ||| ('\u{2000}' <= c && c <= '\u{200A}')
    ||| c == '\u{2028}' || c == '\u{2029}' || c == '\u{202F}' || c == '\u{205F}' || c == '\u{3000}'
}

pub open spec fn is_ascii_alpha(c: char) -> bool {
    ('a' <= c && c <= 'z') || ('A' <= c && c <= 'Z')
}

pub open spec fn is_ascii_digit(c: char) -> bool {
    '0' <= c && c <= '9'
}

pub open spec fn is_ascii_alnum(c: char) -> bool {
    is_ascii_alpha(c) || is_ascii_digit(c)
}

/// A character that may appear inside an identifier or a number token.
pub open spec fn is_word_char(c: char) -> bool {
    is_ascii_alnum(c) || c == '_'
}

pub fn whitespace(c: char) -> (b: bool)
    ensures
        b == is_ws(c),
{
    c == '\t' || c == '\n' || c == '\u{0B}' || c == '\u{0C}' || c == '\r' || c == ' '
        || c == '\u{85}' || c == '\u{A0}' || c == '\u{1680}' || ('\u{2000}' <= c && c
        <= '\u{200A}') || c == '\u{2028}' || c == '\u{2029}' || c == '\u{202F}' || c
        == '\u{205F}' || c == '\u{3000}'
}

pub fn ascii_alpha(c: char) -> (b: bool)
    ensures
        b == is_ascii_alpha(c),
{
    ('a' <= c && c <= 'z') || ('A' <= c && c <= 'Z')
}

pub fn ascii_digit(c: char) -> (b: bool)
    ensures
        b == is_ascii_digit(c),
{
    '0' <= c && c <= '9'
}

pub fn ascii_alnum(c: char) -> (b: bool)
    ensures
        b == is_ascii_alnum(c),
{
    ascii_alpha(c) || ascii_digit(c)
}

pub fn word_char(c: char) -> (b: bool)
    ensures
        b == is_word_char(c),
{
    ascii_alnum(c) || c == '_'
}

/// The characters of a string slice.
pub fn chars_of(s: &str) -> (v: Vec<char>)
    ensures
        v@ == s@,
{
    let n = s.unicode_len();
    let mut v: Vec<char> = Vec::new();
    let mut i: usize = 0;
    while i < n
        invariant
            n == s@.len(),
            i <= n,
            v@ == s@.take(i as int),
        decreases n - i,
    {
        v.push(s.get_char(i));
        i += 1;
        assert(v@ =~= s@.take(i as int));
    }
    assert(s@.take(n as int) =~= s@);
    v
}

/// `String::push`: appends one character to the string.
#[verifier::external_body]
fn string_push(s: &mut String, c: char)
    ensures
        final(s)@ == old(s)@.push(c),
{
    s.push(c);
}

/// The string made of the given characters.
pub fn string_of(v: &[char]) -> (s: String)
    ensures
        s@ == v@,
{
    let mut s = String::new();
    let mut i: usize = 0;
    while i < v.len()
        invariant
            i <= v.len(),
            s@ == v@.take(i as int),
        decreases v.len() - i,
    {
        string_push(&mut s, v[i]);
        i += 1;
        assert(s@ =~= v@.take(i as int));
    }
    assert(v@.take(v.len() as int) =~= v@);
    s
}

/// The characters of a `String`.
pub fn chars_of_string(s: &String) -> (v: Vec<char>)
    ensures
        v@ == s@,
{
    chars_of(s.as_str())
}

/// Character-wise equality.
pub fn same(a: &[char], b: &[char]) -> (r: bool)
    ensures
        r == (a@ == b@),
{
    if a.len() != b.len() {
        return false;
    }
    let mut i: usize = 0;
    while i < a.len()
        invariant
            a.len() == b.len(),
            i <= a.len(),
            forall|j: int| 0 <= j < i ==> a@[j] == b@[j],
        decreases a.len() - i,
    {
        if a[i] != b[i] {
            return false;
        }
        i += 1;
    }
    assert(a@ =~= b@);
    true
}

/// Whether the text equals the given literal.
pub fn is_lit(a: &[char], lit: &str) -> (r: bool)
    ensures
        r == (a@ == lit@),
{
    let l = chars_of(lit);
    same(a, &l)
}

/// A copy of `s[from..to]`.
pub fn slice_of(s: &[char], from: usize, to: usize) -> (r: Vec<char>)
    requires
        from <= to <= s.len(),
    ensures
        r@ == s@.subrange(from as int, to as int),
{
    let mut r: Vec<char> = Vec::new();
    let mut i = from;
    while i < to
        invariant
            from <= i <= to <= s.len(),
            r@ == s@.subrange(from as int, i as int),
        decreases to - i,
    {
        r.push(s[i]);
        i += 1;
        assert(r@ =~= s@.subrange(from as int, i as int));
    }
    r
}

/// `a` followed by `b`.
pub fn concat(a: &[char], b: &[char]) -> (r: Vec<char>)
    ensures
        r@ == a@ + b@,
{
    let mut r = slice_of(a, 0, a.len());
    let mut i: usize = 0;
    while i < b.len()
        invariant
            i <= b.len(),
            r@ == a@ + b@.take(i as int),
        decreases b.len() - i,
    {
        r.push(b[i]);
        i += 1;
        assert(r@ =~= a@ + b@.take(i as int));
    }
    assert(b@.take(b.len() as int) =~= b@);
    assert(a@.subrange(0, a.len() as int) =~= a@);
    r
}

/// Appends `b` to `a`.
pub fn append(a: &mut Vec<char>, b: &[char])
    ensures
        final(a)@ == old(a)@ + b@,
{
    let mut i: usize = 0;
    while i < b.len()
        invariant
            i <= b.len(),
            a@ == old(a)@ + b@.take(i as int),
        decreases b.len() - i,
    {
        a.push(b[i]);
        i += 1;
        assert(a@ =~= old(a)@ + b@.take(i as int));
    }
    assert(b@.take(b.len() as int) =~= b@);
}

/// Appends the characters of a literal to `a`.
pub fn append_lit(a: &mut Vec<char>, lit: &str)
    ensures
        final(a)@ == old(a)@ + lit@,
{
    let l = chars_of(lit);
    append(a, &l);
}

pub open spec fn occurs_at(h: Seq<char>, n: Seq<char>, i: int) -> bool {
    0 <= i && i + n.len() <= h.len() && h.subrange(i, i + n.len()) == n
}

/// The first position at or after `i` where `n` occurs in `h`.
pub open spec fn find_from(h: Seq<char>, n: Seq<char>, i: int) -> Option<int>
    decreases h.len() + 1 - i,
{
    if i < 0 || i + n.len() > h.len() {
        None
    } else if h.subrange(i, i + n.len()) == n {
        Some(i)
    } else {
        find_from(h, n, i + 1)
    }
}

/// The first position of `n` in `h`, as `str::find` returns it.
pub open spec fn find_spec(h: Seq<char>, n: Seq<char>) -> Option<int> {
    find_from(h, n, 0)
}

/// The last position at or before `i` where `n` occurs in `h`.
pub open spec fn rfind_from(h: Seq<char>, n: Seq<char>, i: int) -> Option<int>
    decreases i + 1,
{
    if i < 0 {
        None
    } else if i + n.len() <= h.len() && h.subrange(i, i + n.len()) == n {
        Some(i)
    } else {
        rfind_from(h, n, i - 1)
    }
}

/// The last position of `n` in `h`, as `str::rfind` returns it.
pub open spec fn rfind_spec(h: Seq<char>, n: Seq<char>) -> Option<int> {
    rfind_from(h, n, h.len() - n.len())
}

pub proof fn lemma_find_from_bounds(h: Seq<char>, n: Seq<char>, i: int)
    requires
        0 <= i,
    ensures
        find_from(h, n, i) matches Some(k) ==> i <= k && occurs_at(h, n, k),
        find_from(h, n, i) is None ==> forall|k: int| i <= k ==> !occurs_at(h, n, k),
    decreases h.len() + 1 - i,
{
    if i + n.len() > h.len() {
    } else if h.subrange(i, i + n.len()) == n {
    } else {
        lemma_find_from_bounds(h, n, i + 1);
    }
}

/// Whether `n` occurs in `h` at position `i`.
pub fn matches_at(h: &[char], n: &[char], i: usize) -> (r: bool)
    ensures
        r == occurs_at(h@, n@, i as int),
{
    if n.len() > h.len() || i > h.len() - n.len() {
        return false;
    }
    let mut j: usize = 0;
    while j < n.len()
        invariant
            i + n.len() <= h.len(),
            j <= n.len(),
            forall|k: int| 0 <= k < j ==> h@[i + k] == n@[k],
        decreases n.len() - j,
    {
        if h[i + j] != n[j] {
            assert(h@.subrange(i as int, i + n.len())[j as int] != n@[j as int]);
            return false;
        }
        j += 1;
    }
    assert(h@.subrange(i as int, i + n.len()) =~= n@);
    true
}

/// The first position of `n` in `h`.
pub fn find(h: &[char], n: &[char]) -> (r: Option<usize>)
    ensures
        r matches Some(i) ==> find_spec(h@, n@) == Some(i as int),
        r is None ==> find_spec(h@, n@) is None,
        r matches Some(i) ==> occurs_at(h@, n@, i as int),
        r is None ==> forall|k: int| !occurs_at(h@, n@, k),
{
    proof {
        lemma_find_from_bounds(h@, n@, 0);
    }
    if n.len() > h.len() {
        return None;
    }
    let last = h.len() - n.len();
    let mut i: usize = 0;
    while i <= last
        invariant
            last == h.len() - n.len(),
            i <= last + 1,
            find_from(h@, n@, 0) == find_from(h@, n@, i as int),
        decreases last + 1 - i,
    {
        if matches_at(h, n, i) {
            return Some(i);
        }
        assert(find_from(h@, n@, i as int) == find_from(h@, n@, i + 1));
        if i == last {
            assert(find_from(h@, n@, i + 1) is None);
            assert forall|k: int| !occurs_at(h@, n@, k) by {
                if 0 <= k {
                    lemma_find_from_bounds(h@, n@, 0);
                }
            }
            return None;
        }
        i += 1;
    }
    None
}

/// The first position of the character `c` in `h`.
pub fn find_char(h: &[char], c: char) -> (r: Option<usize>)
    ensures
        r matches Some(i) ==> i < h@.len() && h@[i as int] == c && forall|k: int|
            0 <= k < i ==> h@[k] != c,
        r is None ==> forall|k: int| 0 <= k < h@.len() ==> h@[k] != c,
{
    let n = vec![c];
    let r = find(h, &n);
    proof {
        assert(n@ =~= seq![c]);
        lemma_find_from_bounds(h@, n@, 0);
        match r {
            Some(i) => {
                assert(h@.subrange(i as int, i + 1)[0] == c);
                assert forall|k: int| 0 <= k < i implies h@[k] != c by {
                    lemma_find_first(h@, n@, 0, k);
                    if h@[k] == c {
                        assert(h@.subrange(k, k + 1) =~= n@);
                    }
                }
            },
            None => {
                assert forall|k: int| 0 <= k < h@.len() implies h@[k] != c by {
                    if h@[k] == c {
                        assert(h@.subrange(k, k + 1) =~= n@);
                        assert(occurs_at(h@, n@, k));
                    }
                }
            },
        }
    }
    r
}

/// Nothing before the first occurrence found from `i` occurs.
pub proof fn lemma_find_first(h: Seq<char>, n: Seq<char>, i: int, k: int)
    requires
        0 <= i <= k,
        find_from(h, n, i) matches Some(f) && k < f,
    ensures
        !occurs_at(h, n, k),
    decreases h.len() + 1 - i,
{
    if i + n.len() > h.len() {
    } else if h.subrange(i, i + n.len()) == n {
    } else if i < k {
        lemma_find_first(h, n, i + 1, k);
    }
}

/// The last position of `n` in `h`.
pub fn rfind(h: &[char], n: &[char]) -> (r: Option<usize>)
    ensures
        r matches Some(i) ==> rfind_spec(h@, n@) == Some(i as int) && occurs_at(h@, n@, i as int),
        r is None ==> rfind_spec(h@, n@) is None,
{
    if n.len() > h.len() {
        return None;
    }
    let mut i: usize = h.len() - n.len();
    loop
        invariant
            i + n.len() <= h.len(),
            rfind_spec(h@, n@) == rfind_from(h@, n@, i as int),
        decreases i,
    {
        if matches_at(h, n, i) {
            return Some(i);
        }
        if i == 0 {
            assert(rfind_from(h@, n@, -1) is None);
            return None;
        }
        i -= 1;
    }
}

/// The last position of the character `c` in `h`.
pub fn rfind_char(h: &[char], c: char) -> (r: Option<usize>)
    ensures
        r matches Some(i) ==> i < h@.len() && h@[i as int] == c && forall|k: int|
            i < k < h@.len() ==> h@[k] != c,
        r is None ==> forall|k: int| 0 <= k < h@.len() ==> h@[k] != c,
{
    let mut i: usize = h.len();
    while i > 0
        invariant
            i <= h.len(),
            forall|k: int| i <= k < h@.len() ==> h@[k] != c,
        decreases i,
    {
        if h[i - 1] == c {
            return Some(i - 1);
        }
        i -= 1;
    }
    None
}

pub open spec fn starts_with_spec(h: Seq<char>, p: Seq<char>) -> bool {
    p.len() <= h.len() && h.take(p.len() as int) == p
}

pub open spec fn ends_with_spec(h: Seq<char>, p: Seq<char>) -> bool {
    p.len() <= h.len() && h.skip(h.len() - p.len()) == p
}

pub fn starts_with(h: &[char], p: &[char]) -> (r: bool)
    ensures
        r == starts_with_spec(h@, p@),
{
    let r = matches_at(h, p, 0);
    assert(h@.subrange(0, p@.len() as int) =~= h@.take(p@.len() as int));
    r
}

pub fn starts_with_lit(h: &[char], lit: &str) -> (r: bool)
    ensures
        r == starts_with_spec(h@, lit@),
{
    let p = chars_of(lit);
    starts_with(h, &p)
}

pub fn ends_with(h: &[char], p: &[char]) -> (r: bool)
    ensures
        r == ends_with_spec(h@, p@),
{
    if p.len() > h.len() {
        return false;
    }
    let r = matches_at(h, p, h.len() - p.len());
    assert(h@.subrange(h.len() - p.len(), h.len() as int) =~= h@.skip(h.len() - p.len()));
    r
}

pub fn ends_with_lit(h: &[char], lit: &str) -> (r: bool)
    ensures
        r == ends_with_spec(h@, lit@),
{
    let p = chars_of(lit);
    ends_with(h, &p)
}

/// `str::strip_prefix`.
pub fn strip_prefix(h: &[char], p: &[char]) -> (r: Option<Vec<char>>)
    ensures
        r is Some == starts_with_spec(h@, p@),
        r matches Some(rest) ==> rest@ == h@.skip(p@.len() as int),
{
    if starts_with(h, p) {
        let rest = slice_of(h, p.len(), h.len());
        assert(rest@ =~= h@.skip(p@.len() as int));
        Some(rest)
    } else {
        None
    }
}

pub fn strip_prefix_lit(h: &[char], lit: &str) -> (r: Option<Vec<char>>)
    ensures
        r is Some == starts_with_spec(h@, lit@),
        r matches Some(rest) ==> rest@ == h@.skip(lit@.len() as int),
{
    let p = chars_of(lit);
    strip_prefix(h, &p)
}

/// `str::strip_suffix`.
pub fn strip_suffix(h: &[char], p: &[char]) -> (r: Option<Vec<char>>)
    ensures
        r is Some == ends_with_spec(h@, p@),
        r matches Some(rest) ==> rest@ == h@.take(h@.len() - p@.len()),
{
    if ends_with(h, p) {
        let rest = slice_of(h, 0, h.len() - p.len());
        assert(rest@ =~= h@.take(h@.len() - p@.len()));
        Some(rest)
    } else {
        None
    }
}

pub fn strip_suffix_lit(h: &[char], lit: &str) -> (r: Option<Vec<char>>)
    ensures
        r is Some == ends_with_spec(h@, lit@),
        r matches Some(rest) ==> rest@ == h@.take(h@.len() - lit@.len()),
{
    let p = chars_of(lit);
    strip_suffix(h, &p)
}

/// Whether `n` occurs anywhere in `h`.
pub fn contains(h: &[char], n: &[char]) -> (r: bool)
    ensures
        r == find_spec(h@, n@) is Some,
        r == exists|k: int| occurs_at(h@, n@, k),
{
    match find(h, n) {
        Some(i) => {
            assert(occurs_at(h@, n@, i as int));
            true
        },
        None => false,
    }
}

pub fn contains_lit(h: &[char], lit: &str) -> (r: bool)
    ensures
        r == find_spec(h@, lit@) is Some,
        r == exists|k: int| occurs_at(h@, lit@, k),
{
    let n = chars_of(lit);
    contains(h, &n)
}

pub fn contains_char(h: &[char], c: char) -> (r: bool)
    ensures
        r == h@.contains(c),
{
    match find_char(h, c) {
        Some(i) => {
            assert(h@[i as int] == c);
            true
        },
        None => false,
    }
}

/// `str::split_once`: the text before and after the first occurrence of `p`.
pub fn split_once(h: &[char], p: &[char]) -> (r: Option<(Vec<char>, Vec<char>)>)
    ensures
        r is Some == find_spec(h@, p@) is Some,
        r matches Some((a, b)) ==> find_spec(h@, p@) matches Some(i) && a@ == h@.take(i) && b@
            == h@.skip(i + p@.len()),
{
    match find(h, p) {
        Some(i) => {
            assert(occurs_at(h@, p@, i as int));
            let hl = h.len();
            let pl = p.len();
            assert(i + pl <= hl);
            let a = slice_of(h, 0, i);
            let b = slice_of(h, i + pl, hl);
            assert(a@ =~= h@.take(i as int));
            assert(b@ =~= h@.skip(i + p@.len()));
            Some((a, b))
        },
        None => None,
    }
}

pub fn split_once_lit(h: &[char], lit: &str) -> (r: Option<(Vec<char>, Vec<char>)>)
    ensures
        r is Some == find_spec(h@, lit@) is Some,
        r matches Some((a, b)) ==> find_spec(h@, lit@) matches Some(i) && a@ == h@.take(i) && b@
            == h@.skip(i + lit@.len()),
{
    let p = chars_of(lit);
    split_once(h, &p)
}

/// Index of the first character at or after `i` that is not whitespace.
pub open spec fn lead_from(s: Seq<char>, i: int) -> int
    decreases s.len() - i,
{
    if 0 <= i < s.len() && is_ws(s[i]) {
        lead_from(s, i + 1)
    } else {
        i
    }
}

/// Index just past the last character before `j` that is not whitespace.
pub open spec fn trail_from(s: Seq<char>, j: int) -> int
    decreases j,
{
    if 0 < j <= s.len() && is_ws(s[j - 1]) {
        trail_from(s, j - 1)
    } else {
        j
    }
}

pub open spec fn trim_start_spec(s: Seq<char>) -> Seq<char> {
    s.skip(lead_from(s, 0))
}

pub open spec fn trim_end_spec(s: Seq<char>) -> Seq<char> {
    s.take(trail_from(s, s.len() as int))
}

pub open spec fn trim_spec(s: Seq<char>) -> Seq<char> {
    trim_end_spec(trim_start_spec(s))
}

proof fn lemma_lead_from_bounds(s: Seq<char>, i: int)
    requires
        0 <= i <= s.len(),
    ensures
        i <= lead_from(s, i) <= s.len(),
    decreases s.len() - i,
{
    if i < s.len() && is_ws(s[i]) {
        lemma_lead_from_bounds(s, i + 1);
    }
}

proof fn lemma_trail_from_bounds(s: Seq<char>, j: int)
    requires
        0 <= j <= s.len(),
    ensures
        0 <= trail_from(s, j) <= j,
    decreases j,
{
    if 0 < j && is_ws(s[j - 1]) {
        lemma_trail_from_bounds(s, j - 1);
    }
}

/// `str::trim_start`.
pub fn trim_start(s: &[char]) -> (r: Vec<char>)
    ensures
        r@ == trim_start_spec(s@),
        r@.len() <= s@.len(),
{
    let mut i: usize = 0;
    while i < s.len() && whitespace(s[i])
        invariant
            i <= s.len(),
            lead_from(s@, 0) == lead_from(s@, i as int),
        decreases s.len() - i,
    {
        i += 1;
    }
    slice_of(s, i, s.len())
}

/// `str::trim_end`.
pub fn trim_end(s: &[char]) -> (r: Vec<char>)
    ensures
        r@ == trim_end_spec(s@),
        r@.len() <= s@.len(),
{
    let mut j: usize = s.len();
    while j > 0 && whitespace(s[j - 1])
        invariant
            j <= s.len(),
            trail_from(s@, s@.len() as int) == trail_from(s@, j as int),
        decreases j,
    {
        j -= 1;
    }
    let r = slice_of(s, 0, j);
    assert(r@ =~= s@.take(j as int));
    r
}

/// `str::trim`.
pub fn trim(s: &[char]) -> (r: Vec<char>)
    ensures
        r@ == trim_spec(s@),
        r@.len() <= s@.len(),
{
    let a = trim_start(s);
    trim_end(&a)
}

/// The text with every whitespace character removed.
pub open spec fn strip_ws(s: Seq<char>) -> Seq<char>
    decreases s.len(),
{
    if s.len() == 0 {
        seq![]
    } else if is_ws(s.last()) {
        strip_ws(s.drop_last())
    } else {
        strip_ws(s.drop_last()).push(s.last())
    }
}

/// Removes all whitespace.
pub fn remove_ws(s: &[char]) -> (r: Vec<char>)
    ensures
        r@ == strip_ws(s@),
{
    let mut r: Vec<char> = Vec::new();
    let mut i: usize = 0;
    while i < s.len()
        invariant
            i <= s.len(),
            r@ == strip_ws(s@.take(i as int)),
        decreases s.len() - i,
    {
        assert(s@.take(i + 1).drop_last() =~= s@.take(i as int));
        if !whitespace(s[i]) {
            r.push(s[i]);
        }
        i += 1;
    }
    assert(s@.take(s.len() as int) =~= s@);
    r
}

/// The characters of each text in a list.
pub open spec fn views(v: Seq<Vec<char>>) -> Seq<Seq<char>> {
    Seq::new(v.len(), |i: int| v[i]@)
}

/// Copies a vector of texts.
pub fn clone_texts(v: &Vec<Vec<char>>) -> (r: Vec<Vec<char>>)
    ensures
        views(r@) == views(v@),
{
    let mut r: Vec<Vec<char>> = Vec::new();
    let mut i: usize = 0;
    while i < v.len()
        invariant
            i <= v.len(),
            r@.len() == i,
            views(r@) == views(v@).take(i as int),
        decreases v.len() - i,
    {
        let t = slice_of(&v[i], 0, v[i].len());
        assert(t@ =~= v[i as int]@);
        let ghost old_r = r@;
        r.push(t);
        proof {
            assert forall|k: int| 0 <= k < i + 1 implies views(r@)[k] == views(v@)[k] by {
                if k < i {
                    assert(r@[k] == old_r[k]);
                    assert(views(old_r)[k] == views(v@).take(i as int)[k]);
                }
            }
        }
        i += 1;
        assert(views(r@) =~= views(v@).take(i as int));
    }
    assert(views(v@).take(v.len() as int) =~= views(v@));
    r
}

/// Whether any of the texts equals `t`.
pub fn texts_contain(v: &Vec<Vec<char>>, t: &[char]) -> (r: bool)
    ensures
        r == views(v@).contains(t@),
{
    let mut i: usize = 0;
    while i < v.len()
        invariant
            i <= v.len(),
            forall|k: int| 0 <= k < i ==> views(v@)[k] != t@,
        decreases v.len() - i,
    {
        if same(&v[i], t) {
            assert(views(v@)[i as int] == t@);
            return true;
        }
        i += 1;
    }
    false
}

/// The value of a run of decimal digits.
pub open spec fn decimal_value(d: Seq<char>) -> nat
    decreases d.len(),
{
    if d.len() == 0 {
        0
    } else {
        decimal_value(d.drop_last()) * 10 + digit_of(d.last())
    }
}

pub open spec fn digit_of(c: char) -> nat {
    if is_ascii_digit(c) {
        (c as int - '0' as int) as nat
    } else {
        0
    }
}

pub fn digit_value(c: char) -> (r: u64)
    ensures
        r == digit_of(c),
        r <= 9,
{
    if ascii_digit(c) {
        (c as u32 - '0' as u32) as u64
    } else {
        0
    }
}

pub proof fn lemma_decimal_monotone(d: Seq<char>)
    requires
        d.len() > 0,
    ensures
        decimal_value(d) >= decimal_value(d.drop_last()),
{
}

/// The decimal digits of a number, most significant first.
pub open spec fn decimal_spec(v: nat) -> Seq<char>
    decreases v,
{
    if v < 10 {
        seq![digit_char(v)]
    } else {
        decimal_spec(v / 10).push(digit_char(v % 10))
    }
}

pub open spec fn digit_char(v: nat) -> char {
    if v == 0 { '0' } else if v == 1 { '1' } else if v == 2 { '2' } else if v == 3 { '3' }
    else if v == 4 { '4' } else if v == 5 { '5' } else if v == 6 { '6' } else if v == 7 { '7' }
    else if v == 8 { '8' } else { '9' }
}

pub fn digit_char_exec(v: u64) -> (c: char)
    requires
        v < 10,
    ensures
        c == digit_char(v as nat),
{
    if v == 0 { '0' } else if v == 1 { '1' } else if v == 2 { '2' } else if v == 3 { '3' }
    else if v == 4 { '4' } else if v == 5 { '5' } else if v == 6 { '6' } else if v == 7 { '7' }
    else if v == 8 { '8' } else { '9' }
}

/// Decimal rendering of an unsigned number.
pub fn decimal_u64(v: u64) -> (r: Vec<char>)
    ensures
        r@ == decimal_spec(v as nat),
    decreases v,
{
    if v < 10 {
        vec![digit_char_exec(v)]
    } else {
        let mut r = decimal_u64(v / 10);
        r.push(digit_char_exec(v % 10));
        r
    }
}

pub proof fn lemma_decimal_prefix_monotone(s: Seq<char>, i: int, j: int)
    requires
        0 <= i <= j <= s.len(),
    ensures
        decimal_value(s.take(i)) <= decimal_value(s.take(j)),
    decreases j - i,
{
    if i < j {
        lemma_decimal_prefix_monotone(s, i, j - 1);
        assert(s.take(j).drop_last() =~= s.take(j - 1));
    }
}

pub open spec fn all_digits(s: Seq<char>) -> bool {
    forall|k: int| 0 <= k < s.len() ==> is_ascii_digit(#[trigger] s[k])
}

/// The integer an optionally signed run of decimal digits denotes, with no
/// range limit.
pub open spec fn int_text_value(s: Seq<char>) -> Option<int> {
    if s.len() > 0 && (s[0] == '+' || s[0] == '-') {
        let d = s.skip(1);
        if d.len() > 0 && all_digits(d) {
            if s[0] == '-' {
                Some(-(decimal_value(d) as int))
            } else {
                Some(decimal_value(d) as int)
            }
        } else {
            None
        }
    } else if s.len() > 0 && all_digits(s) {
        Some(decimal_value(s) as int)
    } else {
        None
    }
}

/// What `str::parse::<i128>` accepts, and the value it gives.
pub open spec fn parse_i128_spec(s: Seq<char>) -> Option<i128> {
    match int_text_value(s) {
        Some(v) => if i128::MIN <= v <= i128::MAX {
            Some(v as i128)
        } else {
            None
        },
        None => None,
    }
}

/// Reads an optionally signed decimal integer that fits in `i128`.
pub fn parse_i128(s: &[char]) -> (r: Option<i128>)
    ensures
        r == parse_i128_spec(s@),
{
    if s.len() == 0 {
        return None;
    }
    let negative = s[0] == '-';
    let start: usize = if s[0] == '+' || s[0] == '-' { 1 } else { 0 };
    if start >= s.len() {
        return None;
    }
    let ghost d = s@.skip(start as int);
    let mut acc: i128 = 0;
    let mut i = start;
    while i < s.len()
        invariant
            start <= i <= s.len(),
            start < s.len(),
            d == s@.skip(start as int),
            negative == (s@[0] == '-'),
            start == (if s@[0] == '+' || s@[0] == '-' { 1int } else { 0int }),
            forall|k: int| 0 <= k < i - start ==> is_ascii_digit(#[trigger] d[k]),
            negative ==> acc == -(decimal_value(d.take(i - start)) as int),
            !negative ==> acc == decimal_value(d.take(i - start)) as int,
        decreases s.len() - i,
    {
        let c = s[i];
        if !ascii_digit(c) {
            assert(d[i - start] == c);
            assert(!all_digits(d));
            if start == 0 {
                assert(d =~= s@);
            }
            return None;
        }
        proof {
            assert(d.take(i - start + 1).drop_last() =~= d.take(i - start));
            assert(d.take(i - start + 1).last() == c);
        }
        let v = digit_value(c) as i128;
        let next = if negative {
            match acc.checked_mul(10) {
                Some(m) => m.checked_sub(v),
                None => None,
            }
        } else {
            match acc.checked_mul(10) {
                Some(m) => m.checked_add(v),
                None => None,
            }
        };
        match next {
            Some(n) => {
                acc = n;
            },
            None => {
                proof {
                    lemma_decimal_prefix_monotone(d, i - start + 1, d.len() as int);
                    assert(d.take(d.len() as int) =~= d);
                    if start == 0 {
                        assert(d =~= s@);
                    }
                }
                return None;
            },
        }
        i += 1;
    }
    proof {
        assert(d.take(s.len() - start) =~= d);
        if start == 0 {
            assert(d =~= s@);
        }
        assert(all_digits(d));
    }
    Some(acc)
}

/// Whether the text is a decimal integer literal that fits in `i128`.
pub fn is_int_literal(s: &[char]) -> (r: bool)
    ensures
        r == parse_i128_spec(s@) is Some,
{
    parse_i128(s).is_some()
}

/// Decimal rendering of a signed number.
pub open spec fn signed_decimal_spec(v: int) -> Seq<char> {
    if v < 0 {
        seq!['-'] + decimal_spec((-v) as nat)
    } else {
        decimal_spec(v as nat)
    }
}

pub fn decimal_i128(v: i128) -> (r: Vec<char>)
    ensures
        r@ == signed_decimal_spec(v as int),
{
    if v < 0 {
        let mag: u128 = if v == i128::MIN { 170141183460469231731687303715884105728u128 } else { (-v) as u128 };
        let mut r = vec!['-'];
        let digits = decimal_u128(mag);
        append(&mut r, &digits);
        r
    } else {
        decimal_u128(v as u128)
    }
}

pub fn decimal_u128(v: u128) -> (r: Vec<char>)
    ensures
        r@ == decimal_spec(v as nat),
    decreases v,
{
    if v < 10 {
        vec![digit_char_exec(v as u64)]
    } else {
        let mut r = decimal_u128(v / 10);
        r.push(digit_char_exec((v % 10) as u64));
        r
    }
}

/// Index of the first `c` at or after `i`.
pub open spec fn first_index(s: Seq<char>, c: char, i: int) -> Option<int>
    decreases s.len() - i,
{
    if i < 0 || i >= s.len() {
        None
    } else if s[i] == c {
        Some(i)
    } else {
        first_index(s, c, i + 1)
    }
}

/// Index of the last `c` before `j`.
pub open spec fn last_index(s: Seq<char>, c: char, j: int) -> Option<int>
    decreases j,
{
    if j <= 0 || j > s.len() {
        None
    } else if s[j - 1] == c {
        Some(j - 1)
    } else {
        last_index(s, c, j - 1)
    }
}

pub proof fn lemma_first_index(s: Seq<char>, c: char, i: int, found: Option<int>)
    requires
        0 <= i <= s.len(),
        forall|k: int| i <= k < s.len() && (found matches Some(f) ==> k < f) ==> s[k] != c,
        found matches Some(f) ==> i <= f < s.len() && s[f] == c,
    ensures
        first_index(s, c, i) == found,
    decreases s.len() - i,
{
    if i < s.len() {
        if found == Some(i) {
        } else {
            lemma_first_index(s, c, i + 1, found);
        }
    }
}

pub proof fn lemma_last_index(s: Seq<char>, c: char, j: int, found: Option<int>)
    requires
        0 <= j <= s.len(),
        forall|k: int| 0 <= k < j && (found matches Some(f) ==> k > f) ==> s[k] != c,
        found matches Some(f) ==> 0 <= f < j && s[f] == c,
    ensures
        last_index(s, c, j) == found,
    decreases j,
{
    if j > 0 {
        if found == Some(j - 1) {
        } else {
            lemma_last_index(s, c, j - 1, found);
        }
    }
}

/// The pieces of a text between the separators, in order.
pub open spec fn pieces_at(l: Seq<char>, sep: char) -> Seq<Seq<char>>
    decreases l.len(),
{
    match first_index(l, sep, 0) {
        None => seq![l],
        Some(c) => if 0 <= c < l.len() {
            seq![l.take(c)] + pieces_at(l.skip(c + 1), sep)
        } else {
            seq![l]
        },
    }
}

/// A piece ends at `i`: what `pieces_at` gives from `start` on.
pub proof fn lemma_pieces_step(l: Seq<char>, sep: char, start: int, i: int)
    requires
        0 <= start <= i <= l.len(),
        forall|k: int| start <= k < i ==> l[k] != sep,
        i == l.len() || l[i] == sep,
    ensures
        i == l.len() ==> pieces_at(l.skip(start), sep) == seq![l.subrange(start, i)],
        i < l.len() ==> pieces_at(l.skip(start), sep) == seq![l.subrange(start, i)] + pieces_at(l.skip(i + 1), sep),
{
    let t = l.skip(start);
    if i == l.len() {
        lemma_first_index(t, sep, 0, None);
        assert(t =~= l.subrange(start, i));
    } else {
        lemma_first_index(t, sep, 0, Some(i - start));
        assert(t.take(i - start) =~= l.subrange(start, i));
        assert(t.skip(i - start + 1) =~= l.skip(i + 1));
    }
}

} // verus!
