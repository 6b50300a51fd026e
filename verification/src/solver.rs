//! Integer comparison predicates written as text (`x<=i32::MAX-1`), and
//! the prover that checks one follows from others, with Z3 deciding the
//! linear-integer question.

use crate::text::{
    all_digits, chars_of, decimal_i128, decimal_value, find_char, is_ascii_digit, is_lit,
    is_word_char, parse_i128, parse_i128_spec, same, slice_of, split_once_lit, string_of,
    trim, trim_spec, views, word_char,
};
use vstd::prelude::*;

verus! {

#[derive(Debug, Clone, Copy, PartialEq, Eq)]
pub enum SolverBackend {
    Internal,
    Z3,
}

#[derive(Debug, Clone, Copy, PartialEq, Eq)]
pub struct VerificationOptions {
    pub solver: SolverBackend,
    pub timeout_ms: u64,
    pub target_pointer_width: Option<u32>,
}

impl VerificationOptions {
    /// Options that decide integer obligations with Z3.
    pub fn z3(timeout_ms: u64) -> (o: Self)
        ensures
            o.solver == SolverBackend::Z3,
            o.timeout_ms == timeout_ms,
            o.target_pointer_width is None,
    {
        VerificationOptions { solver: SolverBackend::Z3, timeout_ms, target_pointer_width: None }
    }

    /// The same options, for a target whose pointers have the given width.
    pub fn with_target_pointer_width(self, pointer_width: u32) -> (o: Self)
        ensures
            o.solver == self.solver,
            o.timeout_ms == self.timeout_ms,
            o.target_pointer_width == Some(pointer_width),
    {
        let mut o = self;
        o.target_pointer_width = Some(pointer_width);
        o
    }
}

impl Default for VerificationOptions {
    fn default() -> (o: Self)
        ensures
            o.solver == SolverBackend::Internal,
            o.timeout_ms == 5000,
            o.target_pointer_width is None,
    {
        VerificationOptions {
            solver: SolverBackend::Internal,
            timeout_ms: 5000,
            target_pointer_width: None,
        }
    }
}

/// The default options: the built-in matcher, a 5000 ms timeout, the
/// host's pointer width.
pub fn default_options() -> (o: VerificationOptions)
    ensures
        o.solver == SolverBackend::Internal,
        o.timeout_ms == 5000,
        o.target_pointer_width is None,
{
    VerificationOptions::default()
}

#[derive(Debug, Clone, Copy, PartialEq, Eq)]
pub enum ProofResult {
    Proved,
    Unproved,
    Unsupported,
}

#[derive(Debug, Clone, Copy, PartialEq, Eq)]
pub enum CmpOp {
    Lt,
    Le,
    Gt,
    Ge,
    Eq,
    Ne,
}

#[derive(Debug, Clone, PartialEq, Eq)]
pub enum Expr {
    Var(Vec<char>),
    Const(i128),
}

#[derive(Debug, Clone, PartialEq, Eq)]
pub struct Predicate {
    pub left: Expr,
    pub op: CmpOp,
    pub right: Expr,
}

pub enum ExprView {
    Var(Seq<char>),
    Const(int),
}

pub struct PredicateView {
    pub left: ExprView,
    pub op: CmpOp,
    pub right: ExprView,
}

impl View for Expr {
    type V = ExprView;

    open spec fn view(&self) -> ExprView {
        match self {
            Expr::Var(n) => ExprView::Var(n@),
            Expr::Const(v) => ExprView::Const(*v as int),
        }
    }
}

impl View for Predicate {
    type V = PredicateView;

    open spec fn view(&self) -> PredicateView {
        PredicateView { left: self.left@, op: self.op, right: self.right@ }
    }
}

/// A name and its Rust type, as written in a signature.
#[derive(Debug, Clone, PartialEq, Eq)]
pub struct Param {
    pub name: Vec<char>,
    pub ty: Vec<char>,
}

/// The types whose values the prover ranges over.
pub open spec fn solver_integer_spec(ty: Seq<char>) -> bool {
    ty == "i32"@ || ty == "i64"@ || ty == "usize"@
}

pub fn is_supported_integer(ty: &[char]) -> (r: bool)
    ensures
        r == solver_integer_spec(ty@),
{
    is_lit(ty, "i32") || is_lit(ty, "i64") || is_lit(ty, "usize")
}

/// `usize::MAX` on a target with the given pointer width, or on the host.
pub open spec fn usize_max_spec(w: Option<u32>) -> int {
    match w {
        Some(16) => 65535,
        Some(32) => 4294967295,
        Some(64) => 18446744073709551615,
        _ => usize::MAX as int,
    }
}

pub fn usize_max_value(w: Option<u32>) -> (r: i128)
    ensures
        r == usize_max_spec(w),
{
    match w {
        Some(16) => 65535,
        Some(32) => 4294967295,
        Some(64) => 18446744073709551615,
        _ => usize::MAX as i128,
    }
}

pub open spec fn max_spec(ty: Seq<char>, w: Option<u32>) -> Option<int> {
    if ty == "i32"@ {
        Some(i32::MAX as int)
    } else if ty == "i64"@ {
        Some(i64::MAX as int)
    } else if ty == "usize"@ {
        Some(usize_max_spec(w))
    } else {
        None
    }
}

pub open spec fn min_spec(ty: Seq<char>) -> Option<int> {
    if ty == "i32"@ {
        Some(i32::MIN as int)
    } else if ty == "i64"@ {
        Some(i64::MIN as int)
    } else if ty == "usize"@ {
        Some(0)
    } else {
        None
    }
}

pub fn max_value(ty: &[char], w: Option<u32>) -> (r: Option<i128>)
    ensures
        r matches Some(v) ==> max_spec(ty@, w) == Some(v as int),
        r is None ==> max_spec(ty@, w) is None,
{
    if is_lit(ty, "i32") {
        Some(2147483647)
    } else if is_lit(ty, "i64") {
        Some(9223372036854775807)
    } else if is_lit(ty, "usize") {
        Some(usize_max_value(w))
    } else {
        None
    }
}

pub fn min_value(ty: &[char]) -> (r: Option<i128>)
    ensures
        r matches Some(v) ==> min_spec(ty@) == Some(v as int),
        r is None ==> min_spec(ty@) is None,
{
    if is_lit(ty, "i32") {
        Some(-2147483648)
    } else if is_lit(ty, "i64") {
        Some(-9223372036854775808)
    } else if is_lit(ty, "usize") {
        Some(0)
    } else {
        None
    }
}

/// The value of a bound such as `i32::MAX` or `usize::MIN`.
pub open spec fn rust_bound_spec(s: Seq<char>, w: Option<u32>) -> Option<int> {
    if s == "i32::MAX"@ {
        Some(i32::MAX as int)
    } else if s == "i32::MIN"@ {
        Some(i32::MIN as int)
    } else if s == "i64::MAX"@ {
        Some(i64::MAX as int)
    } else if s == "i64::MIN"@ {
        Some(i64::MIN as int)
    } else if s == "usize::MAX"@ {
        Some(usize_max_spec(w))
    } else if s == "usize::MIN"@ {
        Some(0)
    } else {
        None
    }
}

pub fn rust_integer_bound(s: &[char], w: Option<u32>) -> (r: Option<i128>)
    ensures
        r matches Some(v) ==> rust_bound_spec(s@, w) == Some(v as int),
        r is None ==> rust_bound_spec(s@, w) is None,
{
    if is_lit(s, "i32::MAX") {
        Some(2147483647)
    } else if is_lit(s, "i32::MIN") {
        Some(-2147483648)
    } else if is_lit(s, "i64::MAX") {
        Some(9223372036854775807)
    } else if is_lit(s, "i64::MIN") {
        Some(-9223372036854775808)
    } else if is_lit(s, "usize::MAX") {
        Some(usize_max_value(w))
    } else if is_lit(s, "usize::MIN") {
        Some(0)
    } else {
        None
    }
}

/// Whether position `i` holds a binary use of `op`: not the first
/// character, and for `-` not right after a `:` (as in `i32::MIN`... `::-`).
pub open spec fn is_operator_at(s: Seq<char>, op: char, i: int) -> bool {
    1 <= i < s.len() && s[i] == op && (op != '-' || s[i - 1] != ':')
}

/// The last position at or before `i` that holds a binary use of `op`.
pub open spec fn last_operator_from(s: Seq<char>, op: char, i: int) -> Option<int>
    decreases i + 1,
{
    if i < 1 {
        None
    } else if is_operator_at(s, op, i) {
        Some(i)
    } else {
        last_operator_from(s, op, i - 1)
    }
}

pub open spec fn last_operator(s: Seq<char>, op: char) -> Option<int> {
    last_operator_from(s, op, s.len() - 1)
}

/// Last binary use of `op` in `s`.
pub fn last_operator_index(s: &[char], op: char) -> (r: Option<usize>)
    ensures
        r matches Some(i) ==> last_operator(s@, op) == Some(i as int) && 1 <= i < s@.len(),
        r is None ==> last_operator(s@, op) is None,
{
    if s.len() < 2 {
        proof {
            if s@.len() == 1 {
                assert(last_operator_from(s@, op, 0) is None);
            }
        }
        return None;
    }
    let mut i: usize = s.len() - 1;
    loop
        invariant
            1 <= i < s.len(),
            last_operator(s@, op) == last_operator_from(s@, op, i as int),
        decreases i,
    {
        if s[i] == op && (op != '-' || s[i - 1] != ':') {
            return Some(i);
        }
        if i == 1 {
            assert(last_operator_from(s@, op, 0) is None);
            return None;
        }
        i -= 1;
    }
}

/// Rust's integer division, which truncates toward zero.
pub open spec fn trunc_div(x: int, d: int) -> int {
    if x == 0 {
        0
    } else if x > 0 && d > 0 {
        x / d
    } else if x < 0 && d < 0 {
        (x * -1) / (d * -1)
    } else if x < 0 {
        ((x * -1) / d) * -1
    } else {
        (x / (d * -1)) * -1
    }
}

/// `l op r`, when it is defined and fits in `i128`.
pub open spec fn combine_spec(op: char, l: int, r: int) -> Option<int> {
    let v = if op == '+' {
        l + r
    } else if op == '-' {
        l - r
    } else {
        trunc_div(l, r)
    };
    if op != '+' && op != '-' && r == 0 {
        None
    } else if i128::MIN <= v <= i128::MAX {
        Some(v)
    } else {
        None
    }
}

pub open spec fn split_const(s: Seq<char>, w: Option<u32>, op: char) -> Option<Option<int>>
    decreases s.len(), 0int,
{
    match last_operator(s, op) {
        Some(i) => if 1 <= i < s.len() {
            match (const_expr_spec(s.take(i), w), const_expr_spec(s.skip(i + 1), w)) {
                (Some(l), Some(r)) => Some(combine_spec(op, l, r)),
                _ => Some(None),
            }
        } else {
            None
        },
        None => None,
    }
}

/// The value of a constant expression: an integer, a Rust bound such as
/// `i32::MAX`, or `a+b`, `a-b`, `a/b` of such expressions, splitting at the
/// last `+`, else the last binary `-`, else the last `/`.
pub open spec fn const_expr_spec(s: Seq<char>, w: Option<u32>) -> Option<int>
    decreases s.len(), 1int,
{
    match parse_i128_spec(s) {
        Some(v) => Some(v as int),
        None => match rust_bound_spec(s, w) {
            Some(v) => Some(v),
            None => match split_const(s, w, '+') {
                Some(r) => r,
                None => match split_const(s, w, '-') {
                    Some(r) => r,
                    None => match split_const(s, w, '/') {
                        Some(r) => r,
                        None => None,
                    },
                },
            },
        },
    }
}

fn combine(op: char, l: i128, r: i128) -> (v: Option<i128>)
    ensures
        v matches Some(x) ==> combine_spec(op, l as int, r as int) == Some(x as int),
        v is None ==> combine_spec(op, l as int, r as int) is None,
{
    if op == '+' {
        l.checked_add(r)
    } else if op == '-' {
        l.checked_sub(r)
    } else if r == 0 {
        None
    } else {
        l.checked_div(r)
    }
}

fn split_const_exec(s: &[char], w: Option<u32>, op: char) -> (r: Option<Option<i128>>)
    ensures
        r matches Some(Some(v)) ==> split_const(s@, w, op) == Some(Some(v as int)),
        r matches Some(None) ==> split_const(s@, w, op) == Some(None::<int>),
        r is None ==> split_const(s@, w, op) is None,
    decreases s.len(), 0int,
{
    match last_operator_index(s, op) {
        Some(i) => {
            let left = slice_of(s, 0, i);
            let right = slice_of(s, i + 1, s.len());
            assert(left@ =~= s@.take(i as int));
            assert(right@ =~= s@.skip(i + 1));
            match (parse_const_expr(&left, w), parse_const_expr(&right, w)) {
                (Some(l), Some(r)) => Some(combine(op, l, r)),
                _ => Some(None),
            }
        },
        None => None,
    }
}

/// Evaluates a constant expression; see `const_expr_spec`.
pub fn parse_const_expr(s: &[char], w: Option<u32>) -> (r: Option<i128>)
    ensures
        r matches Some(v) ==> const_expr_spec(s@, w) == Some(v as int),
        r is None ==> const_expr_spec(s@, w) is None,
    decreases s.len(), 1int,
{
    if let Some(v) = parse_i128(s) {
        return Some(v);
    }
    if let Some(v) = rust_integer_bound(s, w) {
        return Some(v);
    }
    if let Some(r) = split_const_exec(s, w, '+') {
        return r;
    }
    if let Some(r) = split_const_exec(s, w, '-') {
        return r;
    }
    if let Some(r) = split_const_exec(s, w, '/') {
        return r;
    }
    None
}

/// `parse_const_expr` on a string.
pub fn parse_const_expr_str(input: &str, w: Option<u32>) -> (r: Option<i128>)
    ensures
        r matches Some(v) ==> const_expr_spec(input@, w) == Some(v as int),
        r is None ==> const_expr_spec(input@, w) is None,
{
    let s = chars_of(input);
    parse_const_expr(&s, w)
}

pub open spec fn is_var_char(c: char) -> bool {
    is_word_char(c) || c == '.'
}

/// An operand: a constant expression, else a variable name made of ASCII
/// letters, digits, `_` and `.`.
pub open spec fn expr_spec(s: Seq<char>, w: Option<u32>) -> Option<ExprView> {
    let t = trim_spec(s);
    match const_expr_spec(t, w) {
        Some(v) => Some(ExprView::Const(v)),
        None => if forall|k: int| 0 <= k < t.len() ==> is_var_char(#[trigger] t[k]) {
            Some(ExprView::Var(t))
        } else {
            None
        },
    }
}

pub fn parse_expr(s: &[char], w: Option<u32>) -> (r: Option<Expr>)
    ensures
        r matches Some(e) ==> expr_spec(s@, w) == Some(e@),
        r is None ==> expr_spec(s@, w) is None,
{
    let t = trim(s);
    if let Some(v) = parse_const_expr(&t, w) {
        return Some(Expr::Const(v));
    }
    let mut i: usize = 0;
    while i < t.len()
        invariant
            i <= t.len(),
            t@ == trim_spec(s@),
            const_expr_spec(t@, w) is None,
            forall|k: int| 0 <= k < i ==> is_var_char(#[trigger] t@[k]),
        decreases t.len() - i,
    {
        if !(word_char(t[i]) || t[i] == '.') {
            return None;
        }
        i += 1;
    }
    Some(Expr::Var(t))
}

pub open spec fn op_text(op: CmpOp) -> Seq<char> {
    match op {
        CmpOp::Le => "<="@,
        CmpOp::Ge => ">="@,
        CmpOp::Ne => "!="@,
        CmpOp::Eq => "=="@,
        CmpOp::Lt => "<"@,
        CmpOp::Gt => ">"@,
    }
}

/// The comparison a predicate text states: it is split at the first
/// occurrence of the first of `<=`, `>=`, `!=`, `==`, `<`, `>` that occurs.
pub open spec fn predicate_spec(s: Seq<char>, w: Option<u32>) -> Option<PredicateView> {
    predicate_try(s, w, CmpOp::Le)
}

pub open spec fn next_op(op: CmpOp) -> Option<CmpOp> {
    match op {
        CmpOp::Le => Some(CmpOp::Ge),
        CmpOp::Ge => Some(CmpOp::Ne),
        CmpOp::Ne => Some(CmpOp::Eq),
        CmpOp::Eq => Some(CmpOp::Lt),
        CmpOp::Lt => Some(CmpOp::Gt),
        CmpOp::Gt => None,
    }
}

pub open spec fn op_rank(op: CmpOp) -> nat {
    match op {
        CmpOp::Le => 5,
        CmpOp::Ge => 4,
        CmpOp::Ne => 3,
        CmpOp::Eq => 2,
        CmpOp::Lt => 1,
        CmpOp::Gt => 0,
    }
}

pub open spec fn predicate_try(s: Seq<char>, w: Option<u32>, op: CmpOp) -> Option<PredicateView>
    decreases op_rank(op),
{
    match crate::text::find_spec(s, op_text(op)) {
        Some(i) => match (expr_spec(s.take(i), w), expr_spec(s.skip(i + op_text(op).len()), w)) {
            (Some(l), Some(r)) => Some(PredicateView { left: l, op, right: r }),
            _ => None,
        },
        None => match next_op(op) {
            Some(n) => predicate_try(s, w, n),
            None => None,
        },
    }
}

fn op_literal(op: CmpOp) -> (s: &'static str)
    ensures
        s@ == op_text(op),
{
    proof {
        reveal_strlit("<=");
        reveal_strlit(">=");
        reveal_strlit("!=");
        reveal_strlit("==");
        reveal_strlit("<");
        reveal_strlit(">");
    }
    match op {
        CmpOp::Le => "<=",
        CmpOp::Ge => ">=",
        CmpOp::Ne => "!=",
        CmpOp::Eq => "==",
        CmpOp::Lt => "<",
        CmpOp::Gt => ">",
    }
}

/// Reads a comparison predicate; see `predicate_spec`.
pub fn parse_predicate(s: &[char], w: Option<u32>) -> (r: Option<Predicate>)
    ensures
        r matches Some(p) ==> predicate_spec(s@, w) == Some(p@),
        r is None ==> predicate_spec(s@, w) is None,
{
    let ops = [CmpOp::Le, CmpOp::Ge, CmpOp::Ne, CmpOp::Eq, CmpOp::Lt, CmpOp::Gt];
    let mut k: usize = 0;
    while k < 6
        invariant
            k <= 6,
            ops@ == seq![CmpOp::Le, CmpOp::Ge, CmpOp::Ne, CmpOp::Eq, CmpOp::Lt, CmpOp::Gt],
            k < 6 ==> predicate_spec(s@, w) == predicate_try(s@, w, ops@[k as int]),
            k == 6 ==> predicate_spec(s@, w) is None,
        decreases 6 - k,
    {
        let op = ops[k];
        let needle = op_literal(op);
        match split_once_lit(s, needle) {
            Some((l, r)) => {
                let le = parse_expr(&l, w);
                let re = parse_expr(&r, w);
                match (le, re) {
                    (Some(a), Some(b)) => {
                        return Some(Predicate { left: a, op, right: b });
                    },
                    _ => {
                        return None;
                    },
                }
            },
            None => {},
        }
        k += 1;
    }
    None
}

/// `parse_predicate` on a string.
pub fn parse_predicate_str(input: &str, w: Option<u32>) -> (r: Option<Predicate>)
    ensures
        r matches Some(p) ==> predicate_spec(input@, w) == Some(p@),
        r is None ==> predicate_spec(input@, w) is None,
{
    let s = chars_of(input);
    parse_predicate(&s, w)
}

/// The variable names a predicate mentions, without repetition, left first.
pub open spec fn referenced_spec(p: PredicateView) -> Seq<Seq<char>> {
    match (p.left, p.right) {
        (ExprView::Var(a), ExprView::Var(b)) => if a == b { seq![a] } else { seq![a, b] },
        (ExprView::Var(a), _) => seq![a],
        (_, ExprView::Var(b)) => seq![b],
        _ => seq![],
    }
}

pub fn referenced_variables(p: &Predicate) -> (r: Vec<String>)
    ensures
        crate::metadata::string_views(r@) == referenced_spec(p@),
{
    let mut r: Vec<String> = Vec::new();
    match &p.left {
        Expr::Var(a) => r.push(string_of(a)),
        Expr::Const(_) => {},
    }
    match &p.right {
        Expr::Var(b) => {
            let dup = match &p.left {
                Expr::Var(a) => same(a, b),
                Expr::Const(_) => false,
            };
            if !dup {
                r.push(string_of(b));
            }
        },
        Expr::Const(_) => {},
    }
    assert(crate::metadata::string_views(r@) =~= referenced_spec(p@));
    r
}

pub open spec fn names_spec(params: Seq<Param>) -> Seq<Seq<char>> {
    Seq::new(params.len(), |i: int| params[i].name@)
}

pub open spec fn expr_known(e: ExprView, params: Seq<Param>) -> bool {
    match e {
        ExprView::Var(n) => names_spec(params).contains(n),
        ExprView::Const(_) => true,
    }
}

/// Whether the predicate names a variable that is not a parameter.
pub open spec fn uses_unknown_spec(p: PredicateView, params: Seq<Param>) -> bool {
    !expr_known(p.left, params) || !expr_known(p.right, params)
}

fn param_named(params: &[Param], name: &[char]) -> (r: bool)
    ensures
        r == names_spec(params@).contains(name@),
{
    let mut i: usize = 0;
    while i < params.len()
        invariant
            i <= params.len(),
            forall|k: int| 0 <= k < i ==> names_spec(params@)[k] != name@,
        decreases params.len() - i,
    {
        if same(&params[i].name, name) {
            assert(names_spec(params@)[i as int] == name@);
            return true;
        }
        i += 1;
    }
    false
}

fn expr_known_exec(e: &Expr, params: &[Param]) -> (r: bool)
    ensures
        r == expr_known(e@, params@),
{
    match e {
        Expr::Var(n) => param_named(params, n),
        Expr::Const(_) => true,
    }
}

pub fn predicate_uses_unknown_variable(p: &Predicate, params: &[Param]) -> (r: bool)
    ensures
        r == uses_unknown_spec(p@, params@),
{
    !expr_known_exec(&p.left, params) || !expr_known_exec(&p.right, params)
}

/// A Z3 symbol for a variable: ASCII letters, digits and `_` kept, every
/// other character turned into `_`, `trust_var` for an empty name.
pub open spec fn symbol_spec(name: Seq<char>) -> Seq<char> {
    if name.len() == 0 {
        "trust_var"@
    } else {
        Seq::new(name.len(), |i: int| if is_word_char(name[i]) { name[i] } else { '_' })
    }
}

pub fn symbol_name(name: &[char]) -> (r: String)
    ensures
        r@ == symbol_spec(name@),
{
    if name.len() == 0 {
        return string_of(&chars_of("trust_var"));
    }
    let mut out: Vec<char> = Vec::new();
    let mut i: usize = 0;
    while i < name.len()
        invariant
            i <= name.len(),
            out@.len() == i,
            forall|k: int| 0 <= k < i ==> out@[k] == if is_word_char(name@[k]) { name@[k] } else { '_' },
        decreases name.len() - i,
    {
        if word_char(name[i]) {
            out.push(name[i]);
        } else {
            out.push('_');
        }
        i += 1;
    }
    assert(out@ =~= symbol_spec(name@));
    string_of(&out)
}

/// The integer parameters that give Z3 variables and their ranges.
pub struct Domain {
    pub name: Vec<char>,
    pub min: i128,
    pub max: i128,
}

/// A domain as its name and bounds.
pub open spec fn domain_views(r: Seq<Domain>) -> Seq<(Seq<char>, int, int)> {
    Seq::new(r.len(), |k: int| (r[k].name@, r[k].min as int, r[k].max as int))
}

/// The ranges of the parameters, in order: one for each parameter of a
/// checked integer type whose bounds are known.
pub open spec fn domains_spec(ps: Seq<Param>, w: Option<u32>) -> Seq<(Seq<char>, int, int)>
    decreases ps.len(),
{
    if ps.len() == 0 {
        seq![]
    } else {
        let before = domains_spec(ps.drop_last(), w);
        let p = ps.last();
        if crate::arith::int_type_spec(p.ty@) && min_spec(p.ty@) is Some && max_spec(p.ty@, w) is Some {
            before.push((p.name@, min_spec(p.ty@)->0, max_spec(p.ty@, w)->0))
        } else {
            before
        }
    }
}

/// The range constraint of every parameter of a type the prover knows.
pub fn domains(params: &[Param], w: Option<u32>) -> (r: Vec<Domain>)
    ensures
        forall|k: int| 0 <= k < r@.len() ==> names_spec(params@).contains(#[trigger] r@[k].name@),
        domain_views(r@) == domains_spec(params@, w),
{
    let mut r: Vec<Domain> = Vec::new();
    let mut i: usize = 0;
    while i < params.len()
        invariant
            i <= params.len(),
            forall|k: int| 0 <= k < r@.len() ==> names_spec(params@).contains(#[trigger] r@[k].name@),
            domain_views(r@) == domains_spec(params@.subrange(0, i as int), w),
        decreases params.len() - i,
    {
        proof {
            assert(params@.subrange(0, i + 1).drop_last() =~= params@.subrange(0, i as int));
        }
        let ghost before = r@;
        if is_supported_integer(&params[i].ty) {
            match (min_value(&params[i].ty), max_value(&params[i].ty, w)) {
                (Some(lo), Some(hi)) => {
                    let name = slice_of(&params[i].name, 0, params[i].name.len());
                    assert(name@ =~= params@[i as int].name@);
                    assert(names_spec(params@)[i as int] == name@);
                    r.push(Domain { name, min: lo, max: hi });
                    assert(domain_views(r@) =~= domain_views(before).push((name@, lo as int, hi as int)));
                },
                _ => {},
            }
        }
        i += 1;
    }
    assert(params@.subrange(0, params@.len() as int) =~= params@);
    r
}

// ----- Z3 -----

#[verifier::external_type_specification]
#[verifier::external_body]
pub struct ExZ3Int(z3::ast::Int);

#[verifier::external_type_specification]
#[verifier::external_body]
pub struct ExZ3Bool(z3::ast::Bool);

#[verifier::external_type_specification]
#[verifier::external_body]
pub struct ExZ3Solver(z3::Solver);

/// What a satisfiability check answered.
pub enum SatOutcome {
    Unsat,
    Sat,
    Unknown,
}

/// No character of the text is NUL.
pub open spec fn nul_free(s: Seq<char>) -> bool {
    forall|i: int| 0 <= i < s.len() ==> s[i] != '\0'
}

proof fn lemma_decimal_nul_free(v: nat)
    ensures
        nul_free(crate::text::decimal_spec(v)),
    decreases v,
{
    if v >= 10 {
        lemma_decimal_nul_free(v / 10);
    }
}

proof fn lemma_signed_decimal_nul_free(v: int)
    ensures
        nul_free(crate::text::signed_decimal_spec(v)),
{
    if v < 0 {
        lemma_decimal_nul_free((-v) as nat);
        let d = crate::text::decimal_spec((-v) as nat);
        assert forall|i: int| 0 <= i < (seq!['-'] + d).len() implies (seq!['-'] + d)[i] != '\0' by {
            if i > 0 {
                assert((seq!['-'] + d)[i] == d[i - 1]);
            }
        }
    } else {
        lemma_decimal_nul_free(v as nat);
    }
}

proof fn lemma_symbol_nul_free(name: Seq<char>)
    ensures
        nul_free(symbol_spec(name)),
{
    reveal_strlit("trust_var");
}

/// `z3::ast::Int::new_const`: the integer constant with this symbol. The
/// symbol becomes a C string, so it must hold no NUL. Nothing is stated of
/// the term.
#[verifier::external_body]
fn z3_int_const(symbol: String) -> z3::ast::Int
    requires
        nul_free(symbol@),
{
    z3::ast::Int::new_const(symbol)
}

/// `z3::ast::Int::from_str` on the decimal text of a value; `None` when Z3
/// refuses the numeral. The text becomes a C string, so it must hold no
/// NUL. Nothing is stated of the term.
#[verifier::external_body]
fn z3_int_numeral(text: String) -> Option<z3::ast::Int>
    requires
        nul_free(text@),
{
    <z3::ast::Int as std::str::FromStr>::from_str(&text).ok()
}

/// `z3::ast::Int::from_i64`: the numeral of a value. Nothing is stated of
/// the term.
#[verifier::external_body]
fn z3_int_from_i64(v: i64) -> z3::ast::Int {
    z3::ast::Int::from_i64(v)
}

/// `z3::ast::Int::from_u64`: the numeral of a value. Nothing is stated of
/// the term.
#[verifier::external_body]
fn z3_int_from_u64(v: u64) -> z3::ast::Int {
    z3::ast::Int::from_u64(v)
}

/// A value Z3 is handed directly rather than as text.
pub open spec fn direct_constant(v: int) -> bool {
    i64::MIN <= v <= u64::MAX
}

/// A term that is always built: a variable, or a constant handed directly.
pub open spec fn buildable(e: ExprView) -> bool {
    match e {
        ExprView::Var(_) => true,
        ExprView::Const(v) => direct_constant(v),
    }
}

/// The Z3 numeral of a value: directly when it fits an `i64` or a `u64`,
/// else from its decimal text.
fn z3_constant(v: i128) -> (r: Option<z3::ast::Int>)
    ensures
        direct_constant(v as int) ==> r is Some,
{
    if i64::MIN as i128 <= v && v <= i64::MAX as i128 {
        Some(z3_int_from_i64(v as i64))
    } else if 0 <= v && v <= u64::MAX as i128 {
        Some(z3_int_from_u64(v as u64))
    } else {
        let text = decimal_i128(v);
        proof { lemma_signed_decimal_nul_free(v as int); }
        z3_int_numeral(string_of(&text))
    }
}

/// The integer variable Z3 knows a name by.
fn z3_variable(name: &[char]) -> z3::ast::Int {
    let symbol = symbol_name(name);
    proof { lemma_symbol_nul_free(name@); }
    z3_int_const(symbol)
}

/// `Int::lt`.
#[verifier::external_body]
fn z3_lt(a: &z3::ast::Int, b: &z3::ast::Int) -> z3::ast::Bool {
    a.lt(b)
}

/// `Int::le`.
#[verifier::external_body]
fn z3_le(a: &z3::ast::Int, b: &z3::ast::Int) -> z3::ast::Bool {
    a.le(b)
}

/// `Int::gt`.
#[verifier::external_body]
fn z3_gt(a: &z3::ast::Int, b: &z3::ast::Int) -> z3::ast::Bool {
    a.gt(b)
}

/// `Int::ge`.
#[verifier::external_body]
fn z3_ge(a: &z3::ast::Int, b: &z3::ast::Int) -> z3::ast::Bool {
    a.ge(b)
}

/// `Ast::eq` on integers.
#[verifier::external_body]
fn z3_eq(a: &z3::ast::Int, b: &z3::ast::Int) -> z3::ast::Bool {
    z3::ast::Ast::eq(a, b)
}

/// `Ast::ne` on integers.
#[verifier::external_body]
fn z3_ne(a: &z3::ast::Int, b: &z3::ast::Int) -> z3::ast::Bool {
    z3::ast::Ast::ne(a, b)
}

/// `Bool::not`.
#[verifier::external_body]
fn z3_not(a: &z3::ast::Bool) -> z3::ast::Bool {
    a.not()
}

/// `z3::Solver::new_for_logic("QF_LIA")`; `None` when Z3 does not offer it.
#[verifier::external_body]
fn z3_solver_for_linear_integers() -> Option<z3::Solver> {
    z3::Solver::new_for_logic("QF_LIA")
}

/// `z3::Solver::new`.
#[verifier::external_body]
fn z3_solver_new() -> z3::Solver {
    z3::Solver::new()
}

/// `Solver::assert`.
#[verifier::external_body]
fn z3_assert(solver: &z3::Solver, b: &z3::ast::Bool) {
    solver.assert(b)
}

/// `Solver::check`, its three answers told apart. Nothing is stated of the
/// answer: it depends on the timeout and the machine.
#[verifier::external_body]
fn z3_check(solver: &z3::Solver) -> SatOutcome {
    match solver.check() {
        z3::SatResult::Unsat => SatOutcome::Unsat,
        z3::SatResult::Sat => SatOutcome::Sat,
        z3::SatResult::Unknown => SatOutcome::Unknown,
    }
}

/// The value of a term when each variable has the value `s` gives it.
pub open spec fn expr_value(e: ExprView, s: spec_fn(Seq<char>) -> int) -> int {
    match e {
        ExprView::Var(n) => s(n),
        ExprView::Const(v) => v,
    }
}

/// The predicate is true under the assignment `s`.
pub open spec fn holds(p: PredicateView, s: spec_fn(Seq<char>) -> int) -> bool {
    let l = expr_value(p.left, s);
    let r = expr_value(p.right, s);
    match p.op {
        CmpOp::Lt => l < r,
        CmpOp::Le => l <= r,
        CmpOp::Gt => l > r,
        CmpOp::Ge => l >= r,
        CmpOp::Eq => l == r,
        CmpOp::Ne => l != r,
    }
}

/// Every named variable lies in its range under `s`.
pub open spec fn within(ds: Seq<(Seq<char>, int, int)>, s: spec_fn(Seq<char>) -> int) -> bool {
    forall|k: int| 0 <= k < ds.len() ==> (#[trigger] ds[k]).1 <= s(ds[k].0) <= ds[k].2
}

/// Every predicate is true under `s`.
pub open spec fn all_hold(ps: Seq<PredicateView>, s: spec_fn(Seq<char>) -> int) -> bool {
    forall|k: int| 0 <= k < ps.len() ==> holds(#[trigger] ps[k], s)
}

/// Every assignment within the ranges that makes the assumptions true
/// makes the conclusion true.
pub open spec fn implication_valid(ds: Seq<(Seq<char>, int, int)>, ps: Seq<PredicateView>, c: PredicateView) -> bool {
    forall|s: spec_fn(Seq<char>) -> int| within(ds, s) && all_hold(ps, s) ==> #[trigger] holds(c, s)
}

/// The predicate has the variable `n` on a side.
pub open spec fn mentions(p: PredicateView, n: Seq<char>) -> bool {
    p.left == ExprView::Var(n) || p.right == ExprView::Var(n)
}

/// `n` is a range's name or a variable of a predicate.
pub open spec fn named_in(ds: Seq<(Seq<char>, int, int)>, ps: Seq<PredicateView>, c: PredicateView, n: Seq<char>) -> bool {
    (exists|k: int| 0 <= k < ds.len() && (#[trigger] ds[k]).0 == n) || mentions(c, n) || exists|k: int| 0 <= k < ps.len()
        && mentions(#[trigger] ps[k], n)
}

/// Different names of the question get different Z3 symbols.
pub open spec fn symbols_distinct(ds: Seq<(Seq<char>, int, int)>, ps: Seq<PredicateView>, c: PredicateView) -> bool {
    forall|a: Seq<char>, b: Seq<char>| #[trigger] named_in(ds, ps, c, a) && #[trigger] named_in(ds, ps, c, b) && symbol_spec(a)
        == symbol_spec(b) ==> a == b
}

/// `z3::with_z3_config` with tracing off and the given timeout, running
/// `decide_in_z3` on a fresh context, and returning what it returns. That
/// function asserts each fact whose terms it can build and the negated
/// conclusion, and checks. Z3 answers `Unsat` only for unsatisfiable
/// assertions, so then no assignment makes the facts true and the
/// conclusion false, as long as different names got different symbols.
/// Z3 answers `Sat` only for satisfiable ones: when every fact was built,
/// some assignment (each name taking its symbol's value in the model)
/// makes the facts true and the conclusion false. `Unknown` is not
/// described: it depends on the timeout and the machine.
#[verifier::external_body]
fn z3_run(timeout_ms: u64, facts: &[Predicate], conclusion: &Predicate) -> (r: Option<SatOutcome>)
    ensures
        buildable(conclusion@.left) && buildable(conclusion@.right) ==> r is Some,
        r matches Some(SatOutcome::Unsat) && symbols_distinct(seq![], predicates_view(facts@), conclusion@) ==> implication_valid(
            seq![], predicates_view(facts@), conclusion@),
        r matches Some(SatOutcome::Sat) && all_buildable(predicates_view(facts@)) ==> !implication_valid(seq![], predicates_view(
            facts@), conclusion@),
{
    let mut cfg = z3::Config::new();
    cfg.set_bool_param_value("trace", false);
    cfg.set_timeout_msec(timeout_ms);
    z3::with_z3_config(&cfg, || decide_in_z3(facts, conclusion))
}

/// Both sides of every predicate are built for Z3.
pub open spec fn all_buildable(ps: Seq<PredicateView>) -> bool {
    forall|k: int| 0 <= k < ps.len() ==> buildable((#[trigger] ps[k]).left) && buildable(ps[k].right)
}

/// `n op v` for a name and a constant.
pub open spec fn bound_fact(n: Seq<char>, op: CmpOp, v: int) -> PredicateView {
    PredicateView { left: ExprView::Var(n), op, right: ExprView::Const(v) }
}

/// The facts that state the ranges: `n >= min` and `n <= max` for each
/// range, in order.
pub open spec fn range_facts(ds: Seq<(Seq<char>, int, int)>) -> Seq<PredicateView>
    decreases ds.len(),
{
    if ds.len() == 0 {
        seq![]
    } else {
        range_facts(ds.drop_last()) + seq![bound_fact(ds.last().0, CmpOp::Ge, ds.last().1), bound_fact(ds.last().0, CmpOp::Le,
            ds.last().2)]
    }
}

proof fn lemma_all_hold_concat(a: Seq<PredicateView>, b: Seq<PredicateView>, s: spec_fn(Seq<char>) -> int)
    ensures
        all_hold(a + b, s) == (all_hold(a, s) && all_hold(b, s)),
{
    if all_hold(a, s) && all_hold(b, s) {
        assert forall|k: int| 0 <= k < (a + b).len() implies holds(#[trigger] (a + b)[k], s) by {
            if k < a.len() {
                assert((a + b)[k] == a[k]);
            } else {
                assert((a + b)[k] == b[k - a.len()]);
            }
        }
    }
    if all_hold(a + b, s) {
        assert forall|k: int| 0 <= k < a.len() implies holds(#[trigger] a[k], s) by {
            assert((a + b)[k] == a[k]);
        }
        assert forall|k: int| 0 <= k < b.len() implies holds(#[trigger] b[k], s) by {
            assert((a + b)[k + a.len()] == b[k]);
        }
    }
}

/// The range facts hold exactly when the assignment lies within the
/// ranges.
proof fn lemma_range_facts_hold(ds: Seq<(Seq<char>, int, int)>, s: spec_fn(Seq<char>) -> int)
    ensures
        all_hold(range_facts(ds), s) == within(ds, s),
    decreases ds.len(),
{
    if ds.len() > 0 {
        let before = ds.drop_last();
        let d = ds.last();
        let two = seq![bound_fact(d.0, CmpOp::Ge, d.1), bound_fact(d.0, CmpOp::Le, d.2)];
        lemma_range_facts_hold(before, s);
        lemma_all_hold_concat(range_facts(before), two, s);
        assert(all_hold(two, s) == (d.1 <= s(d.0) && s(d.0) <= d.2)) by {
            if d.1 <= s(d.0) && s(d.0) <= d.2 {
                assert forall|k: int| 0 <= k < two.len() implies holds(#[trigger] two[k], s) by {}
            }
            if all_hold(two, s) {
                assert(holds(two[0], s));
                assert(holds(two[1], s));
            }
        }
        if within(ds, s) {
            assert forall|k: int| 0 <= k < before.len() implies (#[trigger] before[k]).1 <= s(before[k].0) <= before[k].2 by {
                assert(before[k] == ds[k]);
            }
            assert(ds[ds.len() - 1] == d);
        }
        if within(before, s) && d.1 <= s(d.0) && s(d.0) <= d.2 {
            assert forall|k: int| 0 <= k < ds.len() implies (#[trigger] ds[k]).1 <= s(ds[k].0) <= ds[k].2 by {
                if k < before.len() {
                    assert(before[k] == ds[k]);
                }
            }
        }
    }
}

/// A range fact names only a range's name.
proof fn lemma_range_facts_names(ds: Seq<(Seq<char>, int, int)>, k: int, n: Seq<char>)
    requires
        0 <= k < range_facts(ds).len(),
        mentions(range_facts(ds)[k], n),
    ensures
        exists|j: int| 0 <= j < ds.len() && (#[trigger] ds[j]).0 == n,
    decreases ds.len(),
{
    if ds.len() > 0 {
        let before = ds.drop_last();
        let d = ds.last();
        let two = seq![bound_fact(d.0, CmpOp::Ge, d.1), bound_fact(d.0, CmpOp::Le, d.2)];
        if k < range_facts(before).len() {
            assert(range_facts(ds)[k] == range_facts(before)[k]);
            lemma_range_facts_names(before, k, n);
            let j = choose|j: int| 0 <= j < before.len() && (#[trigger] before[j]).0 == n;
            assert(ds[j] == before[j]);
        } else {
            assert(range_facts(ds)[k] == two[k - range_facts(before).len()]);
            assert(ds[ds.len() - 1] == d);
        }
    }
}

/// Range facts of ranges with directly handed bounds are all built.
proof fn lemma_range_facts_buildable(ds: Seq<(Seq<char>, int, int)>)
    requires
        forall|j: int| 0 <= j < ds.len() ==> direct_constant((#[trigger] ds[j]).1) && direct_constant(ds[j].2),
    ensures
        all_buildable(range_facts(ds)),
    decreases ds.len(),
{
    if ds.len() > 0 {
        let before = ds.drop_last();
        let d = ds.last();
        let two = seq![bound_fact(d.0, CmpOp::Ge, d.1), bound_fact(d.0, CmpOp::Le, d.2)];
        assert forall|j: int| 0 <= j < before.len() implies direct_constant((#[trigger] before[j]).1) && direct_constant(
            before[j].2) by {
            assert(before[j] == ds[j]);
        }
        lemma_range_facts_buildable(before);
        assert(ds[ds.len() - 1] == d);
        let a = range_facts(before);
        assert forall|k: int| 0 <= k < (a + two).len() implies buildable((#[trigger] (a + two)[k]).left) && buildable(
            (a + two)[k].right) by {
            if k < a.len() {
                assert((a + two)[k] == a[k]);
            } else {
                assert((a + two)[k] == two[k - a.len()]);
            }
        }
    }
}

/// The parameters' ranges have bounds handed to Z3 directly.
proof fn lemma_domains_direct(ps: Seq<Param>, w: Option<u32>)
    ensures
        forall|j: int| 0 <= j < domains_spec(ps, w).len() ==> direct_constant((#[trigger] domains_spec(ps, w)[j]).1)
            && direct_constant(domains_spec(ps, w)[j].2),
    decreases ps.len(),
{
    if ps.len() > 0 {
        lemma_domains_direct(ps.drop_last(), w);
        let before = domains_spec(ps.drop_last(), w);
        let p = ps.last();
        assert(usize::MAX <= u64::MAX);
        if crate::arith::int_type_spec(p.ty@) && min_spec(p.ty@) is Some && max_spec(p.ty@, w) is Some {
            let d = (p.name@, min_spec(p.ty@)->0, max_spec(p.ty@, w)->0);
            assert(direct_constant(d.1) && direct_constant(d.2));
            assert forall|j: int| 0 <= j < domains_spec(ps, w).len() implies direct_constant((#[trigger] domains_spec(ps, w)[j]).1)
                && direct_constant(domains_spec(ps, w)[j].2) by {
                if j < before.len() {
                    assert(domains_spec(ps, w)[j] == before[j]);
                } else {
                    assert(domains_spec(ps, w)[j] == d);
                }
            }
        }
    }
}

/// Z3's question with the ranges as facts asks the same as the
/// implication over the ranges, and gets no more symbols.
proof fn lemma_ranges_as_facts(ds: Seq<(Seq<char>, int, int)>, ps: Seq<PredicateView>, c: PredicateView)
    ensures
        implication_valid(seq![], range_facts(ds) + ps, c) == implication_valid(ds, ps, c),
        symbols_distinct(ds, ps, c) ==> symbols_distinct(seq![], range_facts(ds) + ps, c),
{
    let f = range_facts(ds) + ps;
    assert forall|s: spec_fn(Seq<char>) -> int| #![auto] within(seq![], s) && all_hold(f, s) == (within(ds, s) && all_hold(ps, s)) by {
        lemma_all_hold_concat(range_facts(ds), ps, s);
        lemma_range_facts_hold(ds, s);
    }
    if implication_valid(ds, ps, c) {
        assert forall|s: spec_fn(Seq<char>) -> int| within(seq![], s) && all_hold(f, s) implies #[trigger] holds(c, s) by {
            lemma_all_hold_concat(range_facts(ds), ps, s);
            lemma_range_facts_hold(ds, s);
        }
    }
    if implication_valid(seq![], f, c) {
        assert forall|s: spec_fn(Seq<char>) -> int| within(ds, s) && all_hold(ps, s) implies #[trigger] holds(c, s) by {
            lemma_all_hold_concat(range_facts(ds), ps, s);
            lemma_range_facts_hold(ds, s);
        }
    }
    if symbols_distinct(ds, ps, c) {
        assert forall|a: Seq<char>, b: Seq<char>| #[trigger] named_in(seq![], f, c, a) && #[trigger] named_in(seq![], f, c, b)
            && symbol_spec(a) == symbol_spec(b) implies a == b by {
            lemma_named_in_facts(ds, ps, c, a);
            lemma_named_in_facts(ds, ps, c, b);
        }
    }
}

proof fn lemma_named_in_facts(ds: Seq<(Seq<char>, int, int)>, ps: Seq<PredicateView>, c: PredicateView, n: Seq<char>)
    requires
        named_in(seq![], range_facts(ds) + ps, c, n),
    ensures
        named_in(ds, ps, c, n),
{
    let a = range_facts(ds);
    let f = a + ps;
    if !mentions(c, n) {
        let k = choose|k: int| 0 <= k < f.len() && mentions(#[trigger] f[k], n);
        if k < a.len() {
            assert(f[k] == a[k]);
            lemma_range_facts_names(ds, k, n);
        } else {
            assert(f[k] == ps[k - a.len()]);
            assert(mentions(ps[k - a.len()], n));
        }
    }
}

/// A copy of a predicate.
fn copy_predicate(p: &Predicate) -> (r: Predicate)
    ensures
        r@ == p@,
{
    let left = match &p.left {
        Expr::Var(n) => Expr::Var(slice_of(n, 0, n.len())),
        Expr::Const(v) => Expr::Const(*v),
    };
    let right = match &p.right {
        Expr::Var(n) => Expr::Var(slice_of(n, 0, n.len())),
        Expr::Const(v) => Expr::Const(*v),
    };
    proof {
        if let Expr::Var(n) = &p.left {
            assert(n@.subrange(0, n@.len() as int) =~= n@);
        }
        if let Expr::Var(n) = &p.right {
            assert(n@.subrange(0, n@.len() as int) =~= n@);
        }
    }
    Predicate { left, op: p.op, right }
}

/// What Z3 is handed for a question: the facts of the ranges, then the
/// assumptions.
pub fn question_facts(domains: &[Domain], assumptions: &[Predicate]) -> (r: Vec<Predicate>)
    ensures
        predicates_view(r@) == range_facts(domain_views(domains@)) + predicates_view(assumptions@),
{
    let ghost ds = domain_views(domains@);
    let mut out: Vec<Predicate> = Vec::new();
    let mut i: usize = 0;
    while i < domains.len()
        invariant
            i <= domains.len(),
            ds == domain_views(domains@),
            predicates_view(out@) == range_facts(ds.take(i as int)),
        decreases domains.len() - i,
    {
        let ghost before = out@;
        let d = &domains[i];
        out.push(Predicate { left: Expr::Var(slice_of(&d.name, 0, d.name.len())), op: CmpOp::Ge, right: Expr::Const(d.min) });
        out.push(Predicate { left: Expr::Var(slice_of(&d.name, 0, d.name.len())), op: CmpOp::Le, right: Expr::Const(d.max) });
        proof {
            assert(d.name@.subrange(0, d.name@.len() as int) =~= d.name@);
            assert(ds.take(i + 1).drop_last() =~= ds.take(i as int));
            assert(ds.take(i + 1).last() == ds[i as int]);
            assert(predicates_view(out@) =~= predicates_view(before) + seq![bound_fact(ds[i as int].0, CmpOp::Ge, ds[i as int].1),
                bound_fact(ds[i as int].0, CmpOp::Le, ds[i as int].2)]);
        }
        i += 1;
    }
    assert(ds.take(domains.len() as int) =~= ds);
    let ghost ranges = predicates_view(out@);
    let mut j: usize = 0;
    while j < assumptions.len()
        invariant
            j <= assumptions.len(),
            predicates_view(out@) == ranges + predicates_view(assumptions@).take(j as int),
        decreases assumptions.len() - j,
    {
        let ghost before = out@;
        out.push(copy_predicate(&assumptions[j]));
        proof {
            assert(predicates_view(out@) =~= predicates_view(before).push(assumptions@[j as int]@));
            assert(predicates_view(assumptions@).take(j + 1) =~= predicates_view(assumptions@).take(j as int).push(
                assumptions@[j as int]@));
        }
        j += 1;
    }
    assert(predicates_view(assumptions@).take(assumptions.len() as int) =~= predicates_view(assumptions@));
    out
}

fn z3_term(e: &Expr) -> (r: Option<z3::ast::Int>)
    ensures
        e is Var ==> r is Some,
        buildable(e@) ==> r is Some,
{
    match e {
        Expr::Var(n) => Some(z3_variable(n)),
        Expr::Const(v) => z3_constant(*v),
    }
}

fn z3_predicate(p: &Predicate) -> (r: Option<z3::ast::Bool>)
    ensures
        p.left is Var && p.right is Var ==> r is Some,
        buildable(p@.left) && buildable(p@.right) ==> r is Some,
{
    let l = match z3_term(&p.left) {
        Some(t) => t,
        None => return None,
    };
    let r = match z3_term(&p.right) {
        Some(t) => t,
        None => return None,
    };
    Some(
        match p.op {
            CmpOp::Lt => z3_lt(&l, &r),
            CmpOp::Le => z3_le(&l, &r),
            CmpOp::Gt => z3_gt(&l, &r),
            CmpOp::Ge => z3_ge(&l, &r),
            CmpOp::Eq => z3_eq(&l, &r),
            CmpOp::Ne => z3_ne(&l, &r),
        },
    )
}

/// Asserts each fact it can build and the negated conclusion, and checks;
/// `None` when the conclusion cannot be built.
pub fn decide_in_z3(facts: &[Predicate], conclusion: &Predicate) -> (r: Option<SatOutcome>)
    ensures
        conclusion.left is Var && conclusion.right is Var ==> r is Some,
        buildable(conclusion@.left) && buildable(conclusion@.right) ==> r is Some,
{
    let solver = match z3_solver_for_linear_integers() {
        Some(s) => s,
        None => z3_solver_new(),
    };
    let mut j: usize = 0;
    while j < facts.len()
        decreases facts.len() - j,
    {
        if let Some(b) = z3_predicate(&facts[j]) {
            z3_assert(&solver, &b);
        }
        j += 1;
    }
    let c = match z3_predicate(conclusion) {
        Some(c) => c,
        None => return None,
    };
    z3_assert(&solver, &z3_not(&c));
    Some(z3_check(&solver))
}

/// What a satisfiability answer for "assumptions and not conclusion" says
/// of the implication.
pub fn proof_result_of(outcome: Option<SatOutcome>) -> (r: ProofResult)
    ensures
        outcome is None ==> r == ProofResult::Unsupported,
        outcome matches Some(SatOutcome::Unsat) ==> r == ProofResult::Proved,
        outcome matches Some(SatOutcome::Sat) ==> r == ProofResult::Unproved,
        outcome matches Some(SatOutcome::Unknown) ==> r == ProofResult::Unproved,
{
    match outcome {
        None => ProofResult::Unsupported,
        Some(SatOutcome::Unsat) => ProofResult::Proved,
        Some(_) => ProofResult::Unproved,
    }
}

/// The assumptions that parse as predicates, in order.
pub open spec fn parsed_assumptions_spec(a: Seq<Seq<char>>, w: Option<u32>) -> Seq<PredicateView>
    decreases a.len(),
{
    if a.len() == 0 {
        seq![]
    } else {
        match predicate_spec(a.last(), w) {
            Some(p) => parsed_assumptions_spec(a.drop_last(), w).push(p),
            None => parsed_assumptions_spec(a.drop_last(), w),
        }
    }
}

pub open spec fn predicates_view(v: Seq<Predicate>) -> Seq<PredicateView> {
    Seq::new(v.len(), |i: int| v[i]@)
}

/// Whether a proof question names a variable outside `params`.
pub open spec fn implication_unknown_spec(a: Seq<Seq<char>>, conclusion: PredicateView, params: Seq<Param>, w: Option<u32>) -> bool {
    uses_unknown_spec(conclusion, params) || exists|k: int|
        0 <= k < parsed_assumptions_spec(a, w).len() && uses_unknown_spec(
            #[trigger] parsed_assumptions_spec(a, w)[k],
            params,
        )
}

/// Parameters given as pairs of strings, as name and type texts.
pub open spec fn string_params(ps: Seq<(String, String)>) -> Seq<(Seq<char>, Seq<char>)> {
    Seq::new(ps.len(), |k: int| (ps[k].0@, ps[k].1@))
}

/// The names of the pairs.
pub open spec fn pair_names(pp: Seq<(Seq<char>, Seq<char>)>) -> Seq<Seq<char>> {
    Seq::new(pp.len(), |k: int| pp[k].0)
}

/// The ranges of the parameters given as pairs (as `domains_spec`).
pub open spec fn pair_domains(pp: Seq<(Seq<char>, Seq<char>)>, w: Option<u32>) -> Seq<(Seq<char>, int, int)>
    decreases pp.len(),
{
    if pp.len() == 0 {
        seq![]
    } else {
        let before = pair_domains(pp.drop_last(), w);
        let p = pp.last();
        if crate::arith::int_type_spec(p.1) && min_spec(p.1) is Some && max_spec(p.1, w) is Some {
            before.push((p.0, min_spec(p.1)->0, max_spec(p.1, w)->0))
        } else {
            before
        }
    }
}

/// A side that is a variable outside the names.
pub open spec fn unknown_side(e: ExprView, names: Seq<Seq<char>>) -> bool {
    match e {
        ExprView::Var(n) => !names.contains(n),
        ExprView::Const(_) => false,
    }
}

/// The conclusion or a parsed assumption names a variable outside the
/// names.
pub open spec fn question_names_unknown(a: Seq<Seq<char>>, c: PredicateView, names: Seq<Seq<char>>, w: Option<u32>) -> bool {
    unknown_side(c.left, names) || unknown_side(c.right, names) || exists|k: int| 0 <= k < parsed_assumptions_spec(a, w).len()
        && (unknown_side((#[trigger] parsed_assumptions_spec(a, w)[k]).left, names) || unknown_side(
        parsed_assumptions_spec(a, w)[k].right, names))
}

pub proof fn lemma_param_pairs(ps: Seq<Param>, w: Option<u32>)
    ensures
        names_spec(ps) == pair_names(crate::types::param_pairs(ps)),
        domains_spec(ps, w) == pair_domains(crate::types::param_pairs(ps), w),
        forall|a: Seq<Seq<char>>, c: PredicateView| #[trigger] implication_unknown_spec(a, c, ps, w) == question_names_unknown(a,
            c, pair_names(crate::types::param_pairs(ps)), w),
    decreases ps.len(),
{
    assert(names_spec(ps) =~= pair_names(crate::types::param_pairs(ps)));
    if ps.len() > 0 {
        lemma_param_pairs(ps.drop_last(), w);
        assert(crate::types::param_pairs(ps.drop_last()) =~= crate::types::param_pairs(ps).drop_last());
    } else {
        assert(crate::types::param_pairs(ps) =~= seq![]);
    }
}

/// `question_valid` for parameters given as pairs.
pub open spec fn pair_question_valid(a: Seq<Seq<char>>, c: PredicateView, pp: Seq<(Seq<char>, Seq<char>)>, w: Option<u32>) -> bool {
    implication_valid(pair_domains(pp, w), parsed_assumptions_spec(a, w), c)
}

/// `question_distinct` for parameters given as pairs.
pub open spec fn pair_question_distinct(a: Seq<Seq<char>>, c: PredicateView, pp: Seq<(Seq<char>, Seq<char>)>, w: Option<u32>) -> bool {
    symbols_distinct(pair_domains(pp, w), parsed_assumptions_spec(a, w), c)
}

/// The overflow question of `variable + constant` for a type whose maximum
/// is `m`: `variable <= m - constant`.
pub open spec fn addition_conclusion(variable: Seq<char>, bound: int) -> PredicateView {
    PredicateView { left: ExprView::Var(variable), op: CmpOp::Le, right: ExprView::Const(bound) }
}

/// The parsed assumptions imply the conclusion for every assignment within
/// the parameters' ranges.
pub open spec fn question_valid(a: Seq<Seq<char>>, c: PredicateView, params: Seq<Param>, w: Option<u32>) -> bool {
    implication_valid(domains_spec(params, w), parsed_assumptions_spec(a, w), c)
}

/// Different names of the question get different Z3 symbols.
pub open spec fn question_distinct(a: Seq<Seq<char>>, c: PredicateView, params: Seq<Param>, w: Option<u32>) -> bool {
    symbols_distinct(domains_spec(params, w), parsed_assumptions_spec(a, w), c)
}

/// Z3's answer to whether the parsed assumptions imply the conclusion over
/// the integer ranges of the parameters: Z3 is handed each range as two
/// facts, the assumptions, and the negated conclusion. A question that
/// names a variable outside `params` gets `None` and never reaches Z3.
/// `Unsat` is given only for a valid implication and `Sat` only for one
/// with a counterexample within the ranges.
pub fn decide_implication(
    assumptions: &Vec<Vec<char>>,
    conclusion: &Predicate,
    params: &[Param],
    w: Option<u32>,
    timeout_ms: u64,
) -> (r: Option<SatOutcome>)
    ensures
        implication_unknown_spec(views(assumptions@), conclusion@, params@, w) ==> r is None,
        r is None ==> implication_unknown_spec(views(assumptions@), conclusion@, params@, w) || !buildable(conclusion@.left)
            || !buildable(conclusion@.right),
        r matches Some(SatOutcome::Unsat) && question_distinct(views(assumptions@), conclusion@, params@, w) ==> question_valid(
            views(assumptions@), conclusion@, params@, w),
        r matches Some(SatOutcome::Sat) && all_buildable(parsed_assumptions_spec(views(assumptions@), w)) ==> !question_valid(
            views(assumptions@), conclusion@, params@, w),
{
    let mut parsed: Vec<Predicate> = Vec::new();
    let mut i: usize = 0;
    while i < assumptions.len()
        invariant
            i <= assumptions.len(),
            predicates_view(parsed@) == parsed_assumptions_spec(views(assumptions@).take(i as int), w),
        decreases assumptions.len() - i,
    {
        let ghost before = parsed@;
        proof {
            assert(views(assumptions@).take(i + 1).drop_last() =~= views(assumptions@).take(i as int));
            assert(views(assumptions@).take(i + 1).last() == assumptions@[i as int]@);
        }
        if let Some(p) = parse_predicate(&assumptions[i], w) {
            parsed.push(p);
            assert(predicates_view(parsed@) =~= predicates_view(before).push(parsed@.last()@));
        }
        i += 1;
    }
    assert(views(assumptions@).take(assumptions.len() as int) =~= views(assumptions@));
    if predicate_uses_unknown_variable(conclusion, params) {
        return None;
    }
    let mut j: usize = 0;
    while j < parsed.len()
        invariant
            j <= parsed.len(),
            predicates_view(parsed@) == parsed_assumptions_spec(views(assumptions@), w),
            forall|k: int| 0 <= k < j ==> !uses_unknown_spec(#[trigger] predicates_view(parsed@)[k], params@),
        decreases parsed.len() - j,
    {
        if predicate_uses_unknown_variable(&parsed[j], params) {
            assert(uses_unknown_spec(predicates_view(parsed@)[j as int], params@));
            assert(parsed_assumptions_spec(views(assumptions@), w)[j as int] == predicates_view(parsed@)[j as int]);
            return None;
        }
        j += 1;
    }
    let doms = domains(params, w);
    let facts = question_facts(&doms, &parsed);
    let outcome = z3_run(timeout_ms, &facts, conclusion);
    proof {
        let ds = domains_spec(params@, w);
        let ps = parsed_assumptions_spec(views(assumptions@), w);
        lemma_ranges_as_facts(ds, ps, conclusion@);
        if all_buildable(ps) {
            lemma_domains_direct(params@, w);
            lemma_range_facts_buildable(ds);
            let f = range_facts(ds) + ps;
            assert forall|k: int| 0 <= k < f.len() implies buildable((#[trigger] f[k]).left) && buildable(f[k].right) by {
                if k < range_facts(ds).len() {
                    assert(f[k] == range_facts(ds)[k]);
                } else {
                    assert(f[k] == ps[k - range_facts(ds).len()]);
                }
            }
        }
    }
    outcome
}

/// Decides whether the parsed assumptions imply the conclusion over the
/// integer ranges of the parameters: `Proved` on Z3's `Unsat`,
/// `Unsupported` when the question is not asked (see
/// `decide_implication`), `Unproved` otherwise.
pub fn prove_integer_implication(
    assumptions: &Vec<Vec<char>>,
    conclusion: &Predicate,
    params: &[Param],
    w: Option<u32>,
    timeout_ms: u64,
) -> (r: ProofResult)
    ensures
        implication_unknown_spec(views(assumptions@), conclusion@, params@, w) ==> r
            == ProofResult::Unsupported,
        r == ProofResult::Unsupported ==> implication_unknown_spec(views(assumptions@), conclusion@, params@, w) || !buildable(
            conclusion@.left) || !buildable(conclusion@.right),
        r == ProofResult::Proved && question_distinct(views(assumptions@), conclusion@, params@, w) ==> question_valid(
            views(assumptions@), conclusion@, params@, w),
{
    proof_result_of(decide_implication(assumptions, conclusion, params, w, timeout_ms))
}

/// Texts of the assumptions as characters.
fn texts_of(v: &[String]) -> (r: Vec<Vec<char>>)
    ensures
        views(r@) == crate::metadata::string_views(v@),
{
    let mut r: Vec<Vec<char>> = Vec::new();
    let mut i: usize = 0;
    while i < v.len()
        invariant
            i <= v.len(),
            r@.len() == i,
            forall|k: int| 0 <= k < i ==> r@[k]@ == v@[k]@,
        decreases v.len() - i,
    {
        r.push(chars_of(v[i].as_str()));
        i += 1;
    }
    assert(views(r@) =~= crate::metadata::string_views(v@));
    r
}

fn params_of(params: &[(String, String)]) -> (r: Vec<Param>)
    ensures
        r@.len() == params@.len(),
        forall|k: int| 0 <= k < r@.len() ==> r@[k].name@ == params@[k].0@ && r@[k].ty@ == params@[k].1@,
{
    let mut r: Vec<Param> = Vec::new();
    let mut i: usize = 0;
    while i < params.len()
        invariant
            i <= params.len(),
            r@.len() == i,
            forall|k: int| 0 <= k < i ==> r@[k].name@ == params@[k].0@ && r@[k].ty@ == params@[k].1@,
        decreases params.len() - i,
    {
        r.push(Param { name: chars_of(params[i].0.as_str()), ty: chars_of(params[i].1.as_str()) });
        i += 1;
    }
    r
}

/// Whether `variable + constant` cannot exceed the maximum of `ty` under
/// the contracts: `Unsupported` for a negative constant or a type without
/// a known maximum; otherwise the answer to "contracts imply
/// `variable <= max - constant`".
pub fn prove_addition_overflow_safety_chars(
    variable: &[char],
    ty: &[char],
    constant: i128,
    contracts: &Vec<Vec<char>>,
    params: &[Param],
    w: Option<u32>,
    timeout_ms: u64,
) -> (r: ProofResult)
    ensures
        constant < 0 ==> r == ProofResult::Unsupported,
        max_spec(ty@, w) is None ==> r == ProofResult::Unsupported,
        max_spec(ty@, w) matches Some(m) && constant >= 0 && implication_unknown_spec(views(contracts@), addition_conclusion(
            variable@, m - constant), params@, w) ==> r == ProofResult::Unsupported,
        r == ProofResult::Unsupported ==> constant < 0 || max_spec(ty@, w) is None || implication_unknown_spec(views(contracts@),
            addition_conclusion(variable@, max_spec(ty@, w)->0 - constant), params@, w) || !direct_constant(max_spec(ty@, w)->0
            - constant),
        r == ProofResult::Proved ==> constant >= 0 && max_spec(ty@, w) is Some && (question_distinct(views(contracts@),
            addition_conclusion(variable@, max_spec(ty@, w)->0 - constant), params@, w) ==> question_valid(views(contracts@),
            addition_conclusion(variable@, max_spec(ty@, w)->0 - constant), params@, w)),
{
    if constant < 0 {
        return ProofResult::Unsupported;
    }
    let max = match max_value(ty, w) {
        Some(m) => m,
        None => return ProofResult::Unsupported,
    };
    let bound = match max.checked_sub(constant) {
        Some(b) => b,
        None => return ProofResult::Unproved,
    };
    let conclusion = Predicate {
        left: Expr::Var(slice_of(variable, 0, variable.len())),
        op: CmpOp::Le,
        right: Expr::Const(bound),
    };
    assert(variable@.subrange(0, variable@.len() as int) =~= variable@);
    assert(conclusion@ == addition_conclusion(variable@, max_spec(ty@, w)->0 - constant));
    prove_integer_implication(contracts, &conclusion, params, w, timeout_ms)
}

/// `prove_addition_overflow_safety_chars` on strings.
pub fn prove_addition_overflow_safety(
    variable: &str,
    ty: &str,
    constant: i128,
    contracts: &[String],
    params: &[(String, String)],
    target_pointer_width: Option<u32>,
    timeout_ms: u64,
) -> (r: ProofResult)
    ensures
        constant < 0 ==> r == ProofResult::Unsupported,
        max_spec(ty@, target_pointer_width) is None ==> r == ProofResult::Unsupported,
        max_spec(ty@, target_pointer_width) matches Some(m) && constant >= 0 && question_names_unknown(
            crate::metadata::string_views(contracts@), addition_conclusion(variable@, m - constant), pair_names(string_params(
            params@)), target_pointer_width) ==> r == ProofResult::Unsupported,
        r == ProofResult::Unsupported ==> constant < 0 || max_spec(ty@, target_pointer_width) is None || question_names_unknown(
            crate::metadata::string_views(contracts@), addition_conclusion(variable@, max_spec(ty@, target_pointer_width)->0
            - constant), pair_names(string_params(params@)), target_pointer_width) || !direct_constant(max_spec(ty@,
            target_pointer_width)->0 - constant),
        r == ProofResult::Proved ==> constant >= 0 && max_spec(ty@, target_pointer_width) is Some && (pair_question_distinct(
            crate::metadata::string_views(contracts@), addition_conclusion(variable@, max_spec(ty@, target_pointer_width)->0
            - constant), string_params(params@), target_pointer_width) ==> pair_question_valid(crate::metadata::string_views(
            contracts@), addition_conclusion(variable@, max_spec(ty@, target_pointer_width)->0 - constant), string_params(params@),
            target_pointer_width)),
{
    let v = chars_of(variable);
    let t = chars_of(ty);
    let c = texts_of(contracts);
    let p = params_of(params);
    proof {
        lemma_param_pairs(p@, target_pointer_width);
        assert(crate::types::param_pairs(p@) =~= string_params(params@));
    }
    prove_addition_overflow_safety_chars(&v, &t, constant, &c, &p, target_pointer_width, timeout_ms)
}

/// Whether the assumptions imply the predicate text: `Unsupported` when
/// the text does not parse or names a variable outside `params`.
pub fn prove_integer_predicate_chars(
    assumptions: &Vec<Vec<char>>,
    conclusion: &[char],
    params: &[Param],
    w: Option<u32>,
    timeout_ms: u64,
) -> (r: ProofResult)
    ensures
        predicate_spec(conclusion@, w) is None ==> r == ProofResult::Unsupported,
        predicate_spec(conclusion@, w) matches Some(c) && implication_unknown_spec(
            views(assumptions@),
            c,
            params@,
            w,
        ) ==> r == ProofResult::Unsupported,
        r == ProofResult::Unsupported ==> (predicate_spec(conclusion@, w) matches Some(c) ==> implication_unknown_spec(
            views(assumptions@), c, params@, w) || !buildable(c.left) || !buildable(c.right)),
        r == ProofResult::Proved ==> (predicate_spec(conclusion@, w) matches Some(c) && (question_distinct(views(assumptions@), c,
            params@, w) ==> question_valid(views(assumptions@), c, params@, w))),
{
    match parse_predicate(conclusion, w) {
        None => ProofResult::Unsupported,
        Some(c) => prove_integer_implication(assumptions, &c, params, w, timeout_ms),
    }
}

/// `prove_integer_predicate_chars` on strings.
pub fn prove_integer_predicate(
    assumptions: &[String],
    conclusion: &str,
    params: &[(String, String)],
    target_pointer_width: Option<u32>,
    timeout_ms: u64,
) -> (r: ProofResult)
    ensures
        predicate_spec(conclusion@, target_pointer_width) is None ==> r == ProofResult::Unsupported,
        predicate_spec(conclusion@, target_pointer_width) matches Some(c) && question_names_unknown(
            crate::metadata::string_views(assumptions@), c, pair_names(string_params(params@)), target_pointer_width) ==> r
            == ProofResult::Unsupported,
        r == ProofResult::Unsupported ==> (predicate_spec(conclusion@, target_pointer_width) matches Some(c)
            ==> question_names_unknown(crate::metadata::string_views(assumptions@), c, pair_names(string_params(params@)),
            target_pointer_width) || !buildable(c.left) || !buildable(c.right)),
        r == ProofResult::Proved ==> (predicate_spec(conclusion@, target_pointer_width) matches Some(c) && (
        pair_question_distinct(crate::metadata::string_views(assumptions@), c, string_params(params@), target_pointer_width)
            ==> pair_question_valid(crate::metadata::string_views(assumptions@), c, string_params(params@),
            target_pointer_width))),
{
    let a = texts_of(assumptions);
    let c = chars_of(conclusion);
    let p = params_of(params);
    proof {
        lemma_param_pairs(p@, target_pointer_width);
        assert(crate::types::param_pairs(p@) =~= string_params(params@));
    }
    prove_integer_predicate_chars(&a, &c, &p, target_pointer_width, timeout_ms)
}

} // verus!
