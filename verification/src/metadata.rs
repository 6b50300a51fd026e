//! The one-line JSON record that each Trust macro writes for the item it
//! expands, and its reader.

use crate::text::{
    append, append_lit, ascii_digit, chars_of, decimal_spec, decimal_value, digit_value,
    find, find_char, find_spec, is_ascii_digit, is_ws, lemma_decimal_monotone, lemma_find_first,
    lemma_find_from_bounds, occurs_at, slice_of, string_of, trim_start, trim_start_spec,
    whitespace,
};
use vstd::prelude::*;

verus! {

/// The only record layout this reader accepts.
pub const SCHEMA_VERSION: u32 = 1;

#[derive(Debug, Clone, PartialEq, Eq)]
pub struct TrustMetadata {
    pub schema_version: u32,
    pub trust_macro_version: String,
    pub module_id: String,
    pub item_kind: String,
    pub item_id: String,
    pub source_span: String,
    pub rust_function_path: String,
    pub visibility: String,
    pub contracts_original: Vec<String>,
    pub contracts_normalized: Vec<String>,
    pub contract_classes: Vec<String>,
    pub assertion_policy: String,
    pub function_source: String,
    pub body_hash_placeholder: String,
    pub trust_model_dependencies: Vec<String>,
}

/// A metadata record with every text as its characters.
pub struct MetadataView {
    pub schema_version: u32,
    pub trust_macro_version: Seq<char>,
    pub module_id: Seq<char>,
    pub item_kind: Seq<char>,
    pub item_id: Seq<char>,
    pub source_span: Seq<char>,
    pub rust_function_path: Seq<char>,
    pub visibility: Seq<char>,
    pub contracts_original: Seq<Seq<char>>,
    pub contracts_normalized: Seq<Seq<char>>,
    pub contract_classes: Seq<Seq<char>>,
    pub assertion_policy: Seq<char>,
    pub function_source: Seq<char>,
    pub body_hash_placeholder: Seq<char>,
    pub trust_model_dependencies: Seq<Seq<char>>,
}

/// The characters of each string in a list.
pub open spec fn string_views(v: Seq<String>) -> Seq<Seq<char>> {
    Seq::new(v.len(), |i: int| v[i]@)
}

impl View for TrustMetadata {
    type V = MetadataView;

    open spec fn view(&self) -> MetadataView {
        MetadataView {
            schema_version: self.schema_version,
            trust_macro_version: self.trust_macro_version@,
            module_id: self.module_id@,
            item_kind: self.item_kind@,
            item_id: self.item_id@,
            source_span: self.source_span@,
            rust_function_path: self.rust_function_path@,
            visibility: self.visibility@,
            contracts_original: string_views(self.contracts_original@),
            contracts_normalized: string_views(self.contracts_normalized@),
            contract_classes: string_views(self.contract_classes@),
            assertion_policy: self.assertion_policy@,
            function_source: self.function_source@,
            body_hash_placeholder: self.body_hash_placeholder@,
            trust_model_dependencies: string_views(self.trust_model_dependencies@),
        }
    }
}

#[derive(Debug, Clone, PartialEq, Eq)]
pub enum MetadataError {
    MissingField(&'static str),
    InvalidNumber(&'static str),
    UnsupportedSchema(u32),
}

pub enum MetadataErrorView {
    MissingField(Seq<char>),
    InvalidNumber(Seq<char>),
    UnsupportedSchema(u32),
}

impl View for MetadataError {
    type V = MetadataErrorView;

    open spec fn view(&self) -> MetadataErrorView {
        match self {
            MetadataError::MissingField(f) => MetadataErrorView::MissingField(f@),
            MetadataError::InvalidNumber(f) => MetadataErrorView::InvalidNumber(f@),
            MetadataError::UnsupportedSchema(v) => MetadataErrorView::UnsupportedSchema(*v),
        }
    }
}

impl MetadataError {
    /// The message this error is displayed with.
    pub fn message(&self) -> (s: String)
        ensures
            s@ == self.message_spec(),
    {
        let mut out: Vec<char> = Vec::new();
        match self {
            MetadataError::MissingField(field) => {
                append_lit(&mut out, "missing Trust metadata field `");
                append_lit(&mut out, field);
                append_lit(&mut out, "`");
            },
            MetadataError::InvalidNumber(field) => {
                append_lit(&mut out, "invalid numeric Trust metadata field `");
                append_lit(&mut out, field);
                append_lit(&mut out, "`");
            },
            MetadataError::UnsupportedSchema(schema) => {
                append_lit(&mut out, "unsupported Trust metadata schema version ");
                let digits = crate::text::decimal_u64(*schema as u64);
                append(&mut out, &digits);
            },
        }
        string_of(&out)
    }

    pub open spec fn message_spec(&self) -> Seq<char> {
        match self {
            MetadataError::MissingField(field) => "missing Trust metadata field `"@ + field@ + "`"@,
            MetadataError::InvalidNumber(field) => "invalid numeric Trust metadata field `"@
                + field@ + "`"@,
            MetadataError::UnsupportedSchema(schema) => "unsupported Trust metadata schema version "@
                + decimal_spec(*schema as nat),
        }
    }
}

/// `"field"` as it stands in the record.
pub open spec fn quoted(field: Seq<char>) -> Seq<char> {
    seq!['"'] + field + seq!['"']
}

/// What follows the first `:` after the first `"field"` in the line.
pub open spec fn after_field_colon_spec(input: Seq<char>, field: Seq<char>) -> Option<Seq<char>> {
    match find_spec(input, quoted(field)) {
        Some(start) => {
            let after = input.skip(start + quoted(field).len());
            match find_spec(after, seq![':']) {
                Some(colon) => Some(after.skip(colon + 1)),
                None => None,
            }
        },
        None => None,
    }
}

/// The character an escape sequence `\c` stands for.
pub open spec fn unescape(c: char) -> char {
    if c == 'n' {
        '\n'
    } else if c == 'r' {
        '\r'
    } else if c == 't' {
        '\t'
    } else {
        c
    }
}

/// The string content read from position `i`, after its opening quote,
/// up to the closing quote; `None` when the text ends first.
pub open spec fn string_from(s: Seq<char>, i: int, escaping: bool, out: Seq<char>) -> Option<Seq<char>>
    decreases s.len() - i,
{
    if i < 0 || i >= s.len() {
        None
    } else if escaping {
        string_from(s, i + 1, false, out.push(unescape(s[i])))
    } else if s[i] == '\\' {
        string_from(s, i + 1, true, out)
    } else if s[i] == '"' {
        Some(out)
    } else {
        string_from(s, i + 1, false, out.push(s[i]))
    }
}

/// The strings of an array read from position `i`, after its `[`, up to
/// its `]`; `None` when the array is malformed or unterminated.
pub open spec fn array_from(
    s: Seq<char>,
    i: int,
    in_string: bool,
    escaping: bool,
    out: Seq<char>,
    values: Seq<Seq<char>>,
) -> Option<Seq<Seq<char>>>
    decreases s.len() - i,
{
    if i < 0 || i >= s.len() {
        None
    } else if !in_string {
        if is_ws(s[i]) || s[i] == ',' {
            array_from(s, i + 1, false, false, out, values)
        } else if s[i] == ']' {
            Some(values)
        } else if s[i] == '"' {
            array_from(s, i + 1, true, false, seq![], values)
        } else {
            None
        }
    } else if escaping {
        array_from(s, i + 1, true, false, out.push(unescape(s[i])), values)
    } else if s[i] == '\\' {
        array_from(s, i + 1, true, true, out, values)
    } else if s[i] == '"' {
        array_from(s, i + 1, false, false, seq![], values.push(out))
    } else {
        array_from(s, i + 1, true, false, out.push(s[i]), values)
    }
}

/// Length of the run of ASCII digits at the start of `s`.
pub open spec fn digit_run(s: Seq<char>, i: int) -> int
    decreases s.len() - i,
{
    if 0 <= i < s.len() && is_ascii_digit(s[i]) {
        digit_run(s, i + 1)
    } else {
        i
    }
}

pub open spec fn string_field_spec(line: Seq<char>, field: Seq<char>) -> Result<Seq<char>, MetadataErrorView> {
    match after_field_colon_spec(line, field) {
        None => Err(MetadataErrorView::MissingField(field)),
        Some(rest) => {
            let t = trim_start_spec(rest);
            if t.len() == 0 || t[0] != '"' {
                Err(MetadataErrorView::MissingField(field))
            } else {
                match string_from(t, 1, false, seq![]) {
                    Some(v) => Ok(v),
                    None => Err(MetadataErrorView::MissingField(field)),
                }
            }
        },
    }
}

pub open spec fn array_field_spec(line: Seq<char>, field: Seq<char>) -> Result<Seq<Seq<char>>, MetadataErrorView> {
    match after_field_colon_spec(line, field) {
        None => Err(MetadataErrorView::MissingField(field)),
        Some(rest) => {
            let t = trim_start_spec(rest);
            if t.len() == 0 || t[0] != '[' {
                Err(MetadataErrorView::MissingField(field))
            } else {
                match array_from(t, 1, false, false, seq![], seq![]) {
                    Some(v) => Ok(v),
                    None => Err(MetadataErrorView::MissingField(field)),
                }
            }
        },
    }
}

pub open spec fn u32_field_spec(line: Seq<char>, field: Seq<char>) -> Result<u32, MetadataErrorView> {
    match after_field_colon_spec(line, field) {
        None => Err(MetadataErrorView::MissingField(field)),
        Some(rest) => {
            let t = trim_start_spec(rest);
            let digits = t.take(digit_run(t, 0));
            if digits.len() == 0 || decimal_value(digits) > u32::MAX {
                Err(MetadataErrorView::InvalidNumber(field))
            } else {
                Ok(decimal_value(digits) as u32)
            }
        },
    }
}

/// The record a line describes, or the first field (in the order the
/// reader visits them) that is missing or malformed.
pub open spec fn parse_metadata_spec(l: Seq<char>) -> Result<MetadataView, MetadataErrorView> {
    match u32_field_spec(l, "schema_version"@) {
        Err(e) => Err(e),
        Ok(schema) => if schema != SCHEMA_VERSION {
            Err(MetadataErrorView::UnsupportedSchema(schema))
        } else {
            match (string_field_spec(l, "trust_macro_version"@), string_field_spec(l, "module_id"@), string_field_spec(l, "item_kind"@), string_field_spec(l, "item_id"@)) {
            (Err(e), _, _, _) => Err(e),
            (_, Err(e), _, _) => Err(e),
            (_, _, Err(e), _) => Err(e),
            (_, _, _, Err(e)) => Err(e),
            (Ok(trust_macro_version), Ok(module_id), Ok(item_kind), Ok(item_id)) =>
            match (string_field_spec(l, "source_span"@), string_field_spec(l, "rust_function_path"@), string_field_spec(l, "visibility"@), array_field_spec(l, "contracts_original"@)) {
            (Err(e), _, _, _) => Err(e),
            (_, Err(e), _, _) => Err(e),
            (_, _, Err(e), _) => Err(e),
            (_, _, _, Err(e)) => Err(e),
            (Ok(source_span), Ok(rust_function_path), Ok(visibility), Ok(contracts_original)) =>
            match (array_field_spec(l, "contracts_normalized"@), array_field_spec(l, "contract_classes"@), string_field_spec(l, "assertion_policy"@), string_field_spec(l, "function_source"@)) {
            (Err(e), _, _, _) => Err(e),
            (_, Err(e), _, _) => Err(e),
            (_, _, Err(e), _) => Err(e),
            (_, _, _, Err(e)) => Err(e),
            (Ok(contracts_normalized), Ok(contract_classes), Ok(assertion_policy), Ok(function_source)) =>
            match (string_field_spec(l, "body_hash_placeholder"@), array_field_spec(l, "trust_model_dependencies"@)) {
            (Err(e), _) => Err(e),
            (_, Err(e)) => Err(e),
            (Ok(body_hash_placeholder), Ok(trust_model_dependencies)) => Ok(MetadataView {
                schema_version: schema,
                trust_macro_version,
                module_id,
                item_kind,
                item_id,
                source_span,
                rust_function_path,
                visibility,
                contracts_original,
                contracts_normalized,
                contract_classes,
                assertion_policy,
                function_source,
                body_hash_placeholder,
                trust_model_dependencies,
            }),
            },
            },
            },
            }
        },
    }
}

/// Reads one metadata line. Succeeds exactly when every field is present
/// and well formed and the schema version is `SCHEMA_VERSION`.
pub fn parse_metadata_line(line: &str) -> (r: Result<TrustMetadata, MetadataError>)
    ensures
        r matches Ok(m) ==> parse_metadata_spec(line@) == Ok::<MetadataView, MetadataErrorView>(m@),
        r matches Err(e) ==> parse_metadata_spec(line@) == Err::<MetadataView, MetadataErrorView>(e@),
{
    let l = chars_of(line);
    let schema_version = match extract_u32(&l, "schema_version") {
        Ok(v) => v,
        Err(e) => return Err(e),
    };
    if schema_version != SCHEMA_VERSION {
        return Err(MetadataError::UnsupportedSchema(schema_version));
    }
    let trust_macro_version = extract_string(&l, "trust_macro_version");
    let module_id = extract_string(&l, "module_id");
    let item_kind = extract_string(&l, "item_kind");
    let item_id = extract_string(&l, "item_id");
    let (trust_macro_version, module_id, item_kind, item_id) = match (trust_macro_version, module_id, item_kind, item_id) {
        (Err(e), _, _, _) => return Err(e),
        (_, Err(e), _, _) => return Err(e),
        (_, _, Err(e), _) => return Err(e),
        (_, _, _, Err(e)) => return Err(e),
        (Ok(a), Ok(b), Ok(c), Ok(d)) => (a, b, c, d),
    };
    let source_span = extract_string(&l, "source_span");
    let rust_function_path = extract_string(&l, "rust_function_path");
    let visibility = extract_string(&l, "visibility");
    let contracts_original = extract_string_array(&l, "contracts_original");
    let (source_span, rust_function_path, visibility, contracts_original) = match (source_span, rust_function_path, visibility, contracts_original) {
        (Err(e), _, _, _) => return Err(e),
        (_, Err(e), _, _) => return Err(e),
        (_, _, Err(e), _) => return Err(e),
        (_, _, _, Err(e)) => return Err(e),
        (Ok(a), Ok(b), Ok(c), Ok(d)) => (a, b, c, d),
    };
    let contracts_normalized = extract_string_array(&l, "contracts_normalized");
    let contract_classes = extract_string_array(&l, "contract_classes");
    let assertion_policy = extract_string(&l, "assertion_policy");
    let function_source = extract_string(&l, "function_source");
    let (contracts_normalized, contract_classes, assertion_policy, function_source) = match (contracts_normalized, contract_classes, assertion_policy, function_source) {
        (Err(e), _, _, _) => return Err(e),
        (_, Err(e), _, _) => return Err(e),
        (_, _, Err(e), _) => return Err(e),
        (_, _, _, Err(e)) => return Err(e),
        (Ok(a), Ok(b), Ok(c), Ok(d)) => (a, b, c, d),
    };
    let body_hash_placeholder = extract_string(&l, "body_hash_placeholder");
    let trust_model_dependencies = extract_string_array(&l, "trust_model_dependencies");
    let (body_hash_placeholder, trust_model_dependencies) = match (body_hash_placeholder, trust_model_dependencies) {
        (Err(e), _) => return Err(e),
        (_, Err(e)) => return Err(e),
        (Ok(a), Ok(b)) => (a, b),
    };
    let m = TrustMetadata {
        schema_version,
        trust_macro_version,
        module_id,
        item_kind,
        item_id,
        source_span,
        rust_function_path,
        visibility,
        contracts_original,
        contracts_normalized,
        contract_classes,
        assertion_policy,
        function_source,
        body_hash_placeholder,
        trust_model_dependencies,
    };
    Ok(m)
}

/// The text after `"field"` and the colon that follows it.
fn after_field_colon(input: &[char], field: &'static str) -> (r: Result<Vec<char>, MetadataError>)
    ensures
        r matches Ok(rest) ==> after_field_colon_spec(input@, field@) == Some(rest@),
        r matches Err(e) ==> after_field_colon_spec(input@, field@) is None && e == MetadataError::MissingField(field),
{
    let mut needle: Vec<char> = vec!['"'];
    append_lit(&mut needle, field);
    needle.push('"');
    assert(needle@ =~= quoted(field@));
    let start = match find(input, &needle) {
        Some(s) => s,
        None => return Err(MetadataError::MissingField(field)),
    };
    assert(occurs_at(input@, needle@, start as int));
    let il = input.len();
    let nl = needle.len();
    let after = slice_of(input, start + nl, il);
    assert(after@ =~= input@.skip(start + quoted(field@).len()));
    let colon = match find_char(&after, ':') {
        Some(c) => c,
        None => {
            proof {
                lemma_find_char_none(after@, ':');
            }
            return Err(MetadataError::MissingField(field));
        },
    };
    proof {
        lemma_find_char_some(after@, ':', colon as int);
    }
    let rest = slice_of(&after, colon + 1, after.len());
    assert(rest@ =~= after@.skip(colon + 1));
    Ok(rest)
}

fn extract_u32(input: &[char], field: &'static str) -> (r: Result<u32, MetadataError>)
    ensures
        r matches Ok(v) ==> u32_field_spec(input@, field@) == Ok::<u32, MetadataErrorView>(v),
        r matches Err(e) ==> u32_field_spec(input@, field@) == Err::<u32, MetadataErrorView>(e@),
{
    let rest = match after_field_colon(input, field) {
        Ok(r) => r,
        Err(e) => return Err(e),
    };
    let t = trim_start(&rest);
    let mut i: usize = 0;
    let mut value: u64 = 0;
    let mut overflow = false;
    while i < t.len() && ascii_digit(t[i])
        invariant
            i <= t.len(),
            digit_run(t@, 0) == digit_run(t@, i as int),
            forall|k: int| 0 <= k < i ==> is_ascii_digit(t@[k]),
            overflow ==> decimal_value(t@.take(i as int)) > u32::MAX,
            !overflow ==> value == decimal_value(t@.take(i as int)) && value <= u32::MAX,
        decreases t.len() - i,
    {
        let d = t[i];
        proof {
            assert(t@.take(i + 1).drop_last() =~= t@.take(i as int));
            lemma_decimal_monotone(t@.take(i + 1));
        }
        if !overflow {
            let next = value * 10 + digit_value(d);
            if next > 4294967295 {
                overflow = true;
            } else {
                value = next;
            }
        }
        i += 1;
    }
    if i == 0 || overflow {
        return Err(MetadataError::InvalidNumber(field));
    }
    Ok(value as u32)
}

fn extract_string(input: &[char], field: &'static str) -> (r: Result<String, MetadataError>)
    ensures
        r matches Ok(v) ==> string_field_spec(input@, field@) == Ok::<Seq<char>, MetadataErrorView>(v@),
        r matches Err(e) ==> string_field_spec(input@, field@) == Err::<Seq<char>, MetadataErrorView>(e@),
{
    let rest = match after_field_colon(input, field) {
        Ok(r) => r,
        Err(e) => return Err(e),
    };
    let t = trim_start(&rest);
    if t.len() == 0 || t[0] != '"' {
        return Err(MetadataError::MissingField(field));
    }
    match read_string(&t, 1) {
        Some(v) => Ok(string_of(&v)),
        None => Err(MetadataError::MissingField(field)),
    }
}

/// Reads a quoted string's content from `start`, just after its opening quote.
fn read_string(t: &[char], start: usize) -> (r: Option<Vec<char>>)
    requires
        start <= t.len(),
    ensures
        r matches Some(v) ==> string_from(t@, start as int, false, seq![]) == Some(v@),
        r is None ==> string_from(t@, start as int, false, seq![]) is None,
{
    let mut out: Vec<char> = Vec::new();
    let mut escaping = false;
    let mut i = start;
    while i < t.len()
        invariant
            start <= i <= t.len(),
            string_from(t@, start as int, false, seq![]) == string_from(t@, i as int, escaping, out@),
        decreases t.len() - i,
    {
        let ch = t[i];
        if escaping {
            out.push(unescape_char(ch));
            escaping = false;
        } else if ch == '\\' {
            escaping = true;
        } else if ch == '"' {
            return Some(out);
        } else {
            out.push(ch);
        }
        i += 1;
    }
    None
}

pub fn unescape_char(c: char) -> (r: char)
    ensures
        r == unescape(c),
{
    if c == 'n' {
        '\n'
    } else if c == 'r' {
        '\r'
    } else if c == 't' {
        '\t'
    } else {
        c
    }
}

fn extract_string_array(input: &[char], field: &'static str) -> (r: Result<Vec<String>, MetadataError>)
    ensures
        r matches Ok(v) ==> array_field_spec(input@, field@) == Ok::<Seq<Seq<char>>, MetadataErrorView>(string_views(v@)),
        r matches Err(e) ==> array_field_spec(input@, field@) == Err::<Seq<Seq<char>>, MetadataErrorView>(e@),
{
    let rest = match after_field_colon(input, field) {
        Ok(r) => r,
        Err(e) => return Err(e),
    };
    let t = trim_start(&rest);
    if t.len() == 0 || t[0] != '[' {
        return Err(MetadataError::MissingField(field));
    }
    let mut values: Vec<String> = Vec::new();
    let mut out: Vec<char> = Vec::new();
    let mut in_string = false;
    let mut escaping = false;
    let mut i: usize = 1;
    assert(string_views(values@) =~= Seq::<Seq<char>>::empty());
    assert(out@ =~= Seq::<char>::empty());
    while i < t.len()
        invariant
            1 <= i <= t.len(),
            after_field_colon_spec(input@, field@) == Some(rest@),
            t@ == trim_start_spec(rest@),
            t@.len() > 0 && t@[0] == '[',
            !in_string ==> !escaping,
            array_from(t@, 1, false, false, seq![], seq![]) == array_from(t@, i as int, in_string, escaping, out@, string_views(values@)),
        decreases t.len() - i,
    {
        let ch = t[i];
        if !in_string {
            if whitespace(ch) || ch == ',' {
            } else if ch == ']' {
                assert(array_from(t@, i as int, in_string, escaping, out@, string_views(values@)) == Some(string_views(values@)));
                return Ok(values);
            } else if ch == '"' {
                in_string = true;
                out = Vec::new();
            } else {
                assert(array_from(t@, i as int, in_string, escaping, out@, string_views(values@)) is None);
                return Err(MetadataError::MissingField(field));
            }
        } else if escaping {
            out.push(unescape_char(ch));
            escaping = false;
        } else if ch == '\\' {
            escaping = true;
        } else if ch == '"' {
            let ghost before = values@;
            values.push(string_of(&out));
            assert(string_views(values@) =~= string_views(before).push(out@));
            in_string = false;
            out = Vec::new();
        } else {
            out.push(ch);
        }
        i += 1;
    }
    Err(MetadataError::MissingField(field))
}

pub proof fn lemma_find_char_none(h: Seq<char>, c: char)
    requires
        forall|k: int| 0 <= k < h.len() ==> h[k] != c,
    ensures
        find_spec(h, seq![c]) is None,
{
    lemma_find_from_bounds(h, seq![c], 0);
    if let Some(k) = find_spec(h, seq![c]) {
        assert(h.subrange(k, k + 1)[0] == c);
    }
}

pub proof fn lemma_find_char_some(h: Seq<char>, c: char, i: int)
    requires
        0 <= i < h.len(),
        h[i] == c,
        forall|k: int| 0 <= k < i ==> h[k] != c,
    ensures
        find_spec(h, seq![c]) == Some(i),
{
    lemma_find_from_bounds(h, seq![c], 0);
    assert(h.subrange(i, i + 1) =~= seq![c]);
    assert(occurs_at(h, seq![c], i));
    match find_spec(h, seq![c]) {
        Some(k) => {
            assert(h.subrange(k, k + 1)[0] == c);
            if k > i {
                lemma_find_first(h, seq![c], 0, i);
            }
        },
        None => {},
    }
}

} // verus!
