//! The grammar of `.lcm` schema files: a recursive-descent parser over bytes
//! that produces a tree of tokens, each naming its rule and its byte span.
use vstd::prelude::*;
use vstd::utf8::{decode_utf8, encode_utf8, valid_utf8};

use crate::ast;
use crate::ast::{ConstantV, FieldV, FileV, MultV, StructV, TypeV};

verus! {

/// The rules of the schema grammar.
#[allow(non_camel_case_types)]
#[derive(Debug, Clone, Copy, PartialEq, Eq, Structural)]
pub enum Rule {
    lcm_file,
    lcm_package,
    package_name,
    lcm_struct,
    struct_name,
    member,
    member_name,
    lcm_type,
    int8_t,
    int16_t,
    int32_t,
    int64_t,
    float,
    double,
    string,
    boolean,
    byte,
    message_t,
    multiplicity,
    unsigned_int_literal,
    constant_group,
    constant,
    constant_name,
    constant_value,
    int_literal,
    float_literal,
    comment,
    line_comment,
    block_comment,
}

/// A token: the rule it was parsed as, its byte span, and its inner tokens.
#[derive(Debug, PartialEq, Eq)]
pub struct Pair {
    pub rule: Rule,
    pub start: usize,
    pub end: usize,
    pub children: Vec<Pair>,
}

/// Whether `b` is skipped between tokens.
pub open spec fn is_ws(b: u8) -> bool {
    b == 0x20 || b == 0x09 || b == 0x0d || b == 0x0a
}

/// Whether `b` may start a name.
pub open spec fn is_ident_start(b: u8) -> bool {
    (0x41 <= b <= 0x5a) || (0x61 <= b <= 0x7a) || b == 0x5f
}

/// Whether `b` may continue a name.
pub open spec fn is_ident_char(b: u8) -> bool {
    is_ident_start(b) || is_digit(b)
}

/// Whether `b` is a decimal digit.
pub open spec fn is_digit(b: u8) -> bool {
    0x30 <= b <= 0x39
}

/// The end of the run of bytes of `s` from `i` on that satisfy `p`.
pub open spec fn run_end(s: Seq<u8>, i: int, p: spec_fn(u8) -> bool) -> int
    decreases s.len() - i,
{
    if i < 0 || i >= s.len() || !p(s[i]) {
        i
    } else {
        run_end(s, i + 1, p)
    }
}

fn is_ws_byte(b: u8) -> (r: bool)
    ensures
        r == is_ws(b),
{
    b == 0x20 || b == 0x09 || b == 0x0d || b == 0x0a
}

fn is_digit_byte(b: u8) -> (r: bool)
    ensures
        r == is_digit(b),
{
    0x30 <= b && b <= 0x39
}

fn is_ident_start_byte(b: u8) -> (r: bool)
    ensures
        r == is_ident_start(b),
{
    (0x41 <= b && b <= 0x5a) || (0x61 <= b && b <= 0x7a) || b == 0x5f
}

fn is_ident_char_byte(b: u8) -> (r: bool)
    ensures
        r == is_ident_char(b),
{
    is_ident_start_byte(b) || is_digit_byte(b)
}

/// Skips the whitespace at `i`.
fn skip_ws(s: &[u8], i: usize) -> (r: usize)
    requires
        i <= s@.len(),
    ensures
        r == sp_ws(s@, i as int),
        i <= r <= s@.len(),
{
    let mut j = i;
    while j < s.len() && is_ws_byte(s[j])
        invariant
            i <= j <= s@.len(),
            sp_ws(s@, i as int) == sp_ws(s@, j as int),
        decreases s@.len() - j,
    {
        j = j + 1;
    }
    j
}

/// The end of the digits at `i`.
fn digits_end(s: &[u8], i: usize) -> (r: usize)
    requires
        i <= s@.len(),
    ensures
        r == sp_digits(s@, i as int),
        i <= r <= s@.len(),
        forall|m: int| i <= m < r ==> is_digit(#[trigger] s@[m]),
{
    let mut j = i;
    while j < s.len() && is_digit_byte(s[j])
        invariant
            i <= j <= s@.len(),
            sp_digits(s@, i as int) == sp_digits(s@, j as int),
            forall|m: int| i <= m < j ==> is_digit(#[trigger] s@[m]),
        decreases s@.len() - j,
    {
        j = j + 1;
    }
    j
}

/// The end of the name at `i`, or `i` when no name starts there.
pub open spec fn ident_end(s: Seq<u8>, i: int) -> int {
    if 0 <= i < s.len() && is_ident_start(s[i]) {
        run_end(s, i + 1, |b: u8| is_ident_char(b))
    } else {
        i
    }
}

fn scan_ident(s: &[u8], i: usize) -> (r: usize)
    requires
        i <= s@.len(),
    ensures
        r == ident_end(s@, i as int),
        i <= r <= s@.len(),
{
    if i >= s.len() || !is_ident_start_byte(s[i]) {
        return i;
    }
    let mut j = i + 1;
    while j < s.len() && is_ident_char_byte(s[j])
        invariant
            i < j <= s@.len(),
            run_end(s@, i + 1, |b: u8| is_ident_char(b)) == run_end(
                s@,
                j as int,
                |b: u8| is_ident_char(b),
            ),
        decreases s@.len() - j,
    {
        j = j + 1;
    }
    j
}

/// Whether `s` holds the bytes `lit` at `i`.
pub open spec fn has_at(s: Seq<u8>, i: int, lit: Seq<u8>) -> bool {
    0 <= i && i + lit.len() <= s.len() && s.subrange(i, i + lit.len()) == lit
}

fn starts_with_at(s: &[u8], i: usize, lit: &[u8]) -> (r: bool)
    requires
        i <= s@.len(),
    ensures
        r == has_at(s@, i as int, lit@),
{
    let total = s.len();
    if lit.len() > total - i {
        return false;
    }
    let mut k: usize = 0;
    while k < lit.len()
        invariant
            total == s@.len(),
            i + lit@.len() <= s@.len(),
            k <= lit@.len(),
            forall|m: int| 0 <= m < k ==> s@[i + m] == lit@[m],
        decreases lit@.len() - k,
    {
        if s[i + k] != lit[k] {
            assert(s@.subrange(i as int, i + lit@.len())[k as int] != lit@[k as int]);
            return false;
        }
        k = k + 1;
    }
    assert(s@.subrange(i as int, i + lit@.len()) =~= lit@);
    true
}

/// Whether the bytes `a`, `b` stand at `i`.
fn pair_at(s: &[u8], i: usize, a: u8, b: u8) -> (r: bool)
    requires
        i <= s@.len(),
    ensures
        r == (i + 2 <= s@.len() && s@[i as int] == a && s@[i + 1] == b),
{
    i < s.len() && s.len() - i >= 2 && s[i] == a && s[i + 1] == b
}

/// Whether `b` is a space, a tab or a carriage return.
pub open spec fn is_blank(b: u8) -> bool {
    b == 0x20 || b == 0x09 || b == 0x0d
}

/// Where the digits at `i` end.
pub open spec fn sp_digits(s: Seq<u8>, i: int) -> int {
    run_end(s, i, |b: u8| is_digit(b))
}

/// Where the whitespace at `i` ends.
pub open spec fn sp_ws(s: Seq<u8>, i: int) -> int {
    run_end(s, i, |b: u8| is_ws(b))
}

/// Whether the bytes `a`, `b` stand at `i`.
pub open spec fn sp_pair(s: Seq<u8>, i: int, a: u8, b: u8) -> bool {
    0 <= i && i + 2 <= s.len() && s[i] == a && s[i + 1] == b
}

/// The end of the keyword `lit` at `i`, when it stands there as a whole word.
pub open spec fn sp_keyword(s: Seq<u8>, i: int, lit: Seq<u8>) -> Option<int> {
    if lit.len() > 0 && has_at(s, i, lit) && (i + lit.len() == s.len() || !is_ident_char(
        s[i + lit.len()],
    )) {
        Some(i + lit.len())
    } else {
        None
    }
}

/// The end of the punctuation byte `c` after the whitespace at `i`.
pub open spec fn sp_punct(s: Seq<u8>, i: int, c: u8) -> Option<int> {
    let j = sp_ws(s, i);
    if j < s.len() && s[j] == c {
        Some(j + 1)
    } else {
        None
    }
}

/// The end of a number literal at `i` (an optional minus sign, digits, an
/// optional fraction, an optional exponent) and whether it is a float.
pub open spec fn sp_number(s: Seq<u8>, i: int) -> Option<(int, bool)> {
    let j = if 0 <= i < s.len() && s[i] == 0x2d {
        i + 1
    } else {
        i
    };
    let d = sp_digits(s, j);
    if d == j {
        None
    } else {
        let e1 = if 0 <= d < s.len() && s[d] == 0x2e {
            sp_digits(s, d + 1)
        } else {
            d
        };
        let f1 = 0 <= d < s.len() && s[d] == 0x2e;
        if 0 <= e1 < s.len() && (s[e1] == 0x65 || s[e1] == 0x45) {
            let k = if e1 + 1 < s.len() && (s[e1 + 1] == 0x2b || s[e1 + 1] == 0x2d) {
                e1 + 2
            } else {
                e1 + 1
            };
            let d2 = sp_digits(s, k);
            if d2 > k {
                Some((d2, true))
            } else {
                Some((e1, f1))
            }
        } else {
            Some((e1, f1))
        }
    }
}

/// The end of the line that contains `i` (before its line break).
pub open spec fn sp_line_end(s: Seq<u8>, i: int) -> int {
    run_end(s, i, |b: u8| b != 0x0a)
}

/// Where the next line comment starts, when only blanks and a single line
/// break separate it from `e`.
pub open spec fn sp_next_line(s: Seq<u8>, e: int) -> Option<int> {
    let j = run_end(s, e, |b: u8| is_blank(b));
    if j >= s.len() || s[j] != 0x0a {
        None
    } else {
        let j2 = run_end(s, j + 1, |b: u8| is_blank(b));
        if sp_pair(s, j2, 0x2f, 0x2f) {
            Some(j2)
        } else {
            None
        }
    }
}

/// Whether an exec end position agrees with a spec one.
pub open spec fn same_end(r: Option<usize>, v: Option<int>) -> bool {
    match (r, v) {
        (Some(a), Some(b)) => a as int == b,
        (None, None) => true,
        _ => false,
    }
}

/// The text that invalid UTF-8 bytes `b` decode to, invalid sequences
/// replaced as `String::from_utf8_lossy` does.
pub uninterp spec fn lossy_text(b: Seq<u8>) -> Seq<char>;

/// The text of the bytes `b`: their characters when they are valid UTF-8.
pub open spec fn bytes_text(b: Seq<u8>) -> Seq<char> {
    if valid_utf8(b) {
        decode_utf8(b)
    } else {
        lossy_text(b)
    }
}

/// Relies on `String::from_utf8_lossy`: valid UTF-8 comes back unchanged;
/// otherwise the result depends on the bytes alone.
#[verifier::external_body]
fn from_utf8_lossy(v: &[u8]) -> (r: String)
    ensures
        valid_utf8(v@) ==> r@ == decode_utf8(v@),
        !valid_utf8(v@) ==> r@ == lossy_text(v@),
{
    String::from_utf8_lossy(v).into_owned()
}

/// The text of the bytes `s[a..b]`.
pub open spec fn text_of(s: Seq<u8>, a: int, b: int) -> Seq<char> {
    bytes_text(s.subrange(a, b))
}

/// The text of `s[a..b]`.
fn text_at(s: &[u8], a: usize, b: usize) -> (r: String)
    requires
        a <= b <= s@.len(),
    ensures
        r@ == text_of(s@, a as int, b as int),
{
    let mut bytes: Vec<u8> = Vec::new();
    crate::fragment::append_range(&mut bytes, s, a, b);
    from_utf8_lossy(bytes.as_slice())
}

/// The end of the keyword `kw` when it stands at `i` as a whole word.
fn keyword_at(s: &[u8], i: usize, kw: &str) -> (r: Option<usize>)
    requires
        i <= s@.len(),
    ensures
        r is Some ==> i < r->Some_0 <= s@.len(),
        same_end(r, sp_keyword(s@, i as int, encode_utf8(kw@))),
{
    let lit = kw.as_bytes();
    let total = s.len();
    if lit.len() == 0 || !starts_with_at(s, i, lit) {
        return None;
    }
    let e = i + lit.len();
    if e == s.len() || !is_ident_char_byte(s[e]) {
        Some(e)
    } else {
        None
    }
}

/// The end of the punctuation byte `c` at `i`, after skipping whitespace.
fn punct(s: &[u8], i: usize, c: u8) -> (r: Option<usize>)
    requires
        i <= s@.len(),
    ensures
        r is Some ==> i < r->Some_0 <= s@.len(),
        same_end(r, sp_punct(s@, i as int, c)),
{
    let j = skip_ws(s, i);
    if j < s.len() && s[j] == c {
        Some(j + 1)
    } else {
        None
    }
}

/// A parse of one rule from a position: the end reached and the token, whose
/// span ends there and starts at or after the position.
pub open spec fn parsed<V>(r: Option<(usize, Pair, V)>, i: usize, len: nat, rule: Rule) -> bool {
    r is Some ==> {
        let (e, p, _) = r->Some_0;
        &&& i <= p.start <= p.end
        &&& p.end == e
        &&& e <= len
        &&& p.rule == rule
        &&& tree_ok(p)
    }
}

/// Every token of the tree under `p` follows the grammar's production for its
/// rule.
pub open spec fn tree_ok(p: Pair) -> bool
    decreases p, 0int,
{
    shape_ok(p) && spans_ok(p) && children_ok(p.children@, p.children@.len() as int)
}

/// The spans of `cs` lie within `[lo, hi]`, each ending before the next starts.
pub open spec fn laid_out(cs: Seq<Pair>, lo: int, hi: int) -> bool {
    &&& forall|j: int| 0 <= j < cs.len() ==> lo <= #[trigger] cs[j].start && cs[j].end <= hi
    &&& forall|j: int| 0 < j < cs.len() ==> cs[j - 1].end <= #[trigger] cs[j].start
}

/// The token's span is well formed and its children lie within it, in order.
pub open spec fn spans_ok(p: Pair) -> bool {
    p.start <= p.end && laid_out(p.children@, p.start as int, p.end as int)
}

/// The trees under the first `k` of `cs` follow the grammar.
pub open spec fn children_ok(cs: Seq<Pair>, k: int) -> bool
    decreases cs, k,
{
    if k <= 0 || k > cs.len() {
        true
    } else {
        children_ok(cs, k - 1) && tree_ok(cs[k - 1])
    }
}

proof fn lemma_children_prefix(cs: Seq<Pair>, x: Pair, k: int)
    requires
        0 <= k <= cs.len(),
    ensures
        children_ok(cs.push(x), k) == children_ok(cs, k),
    decreases k,
{
    if k > 0 {
        lemma_children_prefix(cs, x, k - 1);
        assert(cs.push(x)[k - 1] == cs[k - 1]);
    }
}

/// Appends a well-formed token to a list of well-formed tokens.
fn push_child(children: &mut Vec<Pair>, x: Pair, Ghost(lo): Ghost<int>, Ghost(cur): Ghost<int>)
    requires
        children_ok(old(children)@, old(children)@.len() as int),
        tree_ok(x),
        laid_out(old(children)@, lo, cur),
        lo <= cur <= x.start,
    ensures
        final(children)@ == old(children)@.push(x),
        children_ok(final(children)@, final(children)@.len() as int),
        laid_out(final(children)@, lo, x.end as int),
{
    let ghost before = children@;
    children.push(x);
    proof {
        lemma_children_prefix(before, x, before.len() as int);
        assert(children@[before.len() as int] == x);
        assert forall|j: int| 0 < j < children@.len() implies children@[j - 1].end
            <= #[trigger] children@[j].start by {
            if j < before.len() {
                assert(children@[j - 1] == before[j - 1] && children@[j] == before[j]);
            } else {
                assert(before[j - 1].start >= lo);
                assert(children@[j - 1] == before[j - 1] && children@[j] == x);
            }
        }
    }
}

/// Whether `r` names a primitive type.
pub open spec fn is_primitive_rule(r: Rule) -> bool {
    r is int8_t || r is int16_t || r is int32_t || r is int64_t || r is float || r is double
        || r is string || r is boolean || r is byte
}

/// Whether a child of rule `c` may stand at position `i` of a token of rule
/// `r` that has `n` children.
pub open spec fn child_allowed(r: Rule, i: int, n: int, c: Rule) -> bool {
    match r {
        Rule::lcm_file => (i == 0 && c == Rule::lcm_package) || c == Rule::lcm_struct || c
            == Rule::comment,
        Rule::lcm_package => c == Rule::package_name,
        Rule::lcm_struct => if i == 0 {
            c == Rule::struct_name
        } else {
            c == Rule::member || c == Rule::constant_group || c == Rule::comment
        },
        Rule::member => if i == 0 {
            c == Rule::lcm_type
        } else if i == 1 {
            c == Rule::member_name
        } else {
            c == Rule::multiplicity
        },
        Rule::lcm_type => is_primitive_rule(c) || c == Rule::message_t,
        Rule::message_t => if i == n - 1 {
            c == Rule::struct_name
        } else {
            c == Rule::package_name
        },
        Rule::multiplicity => c == Rule::unsigned_int_literal || c == Rule::member_name,
        Rule::constant_group => if i == 0 {
            c == Rule::lcm_type
        } else {
            c == Rule::constant
        },
        Rule::constant => if i == 0 {
            c == Rule::constant_name
        } else {
            c == Rule::constant_value
        },
        Rule::constant_value => c == Rule::int_literal || c == Rule::float_literal,
        Rule::comment => c == Rule::line_comment || (n == 1 && c == Rule::block_comment),
        _ => false,
    }
}

/// The number of children a token of rule `r` has at least.
pub open spec fn min_children(r: Rule) -> int {
    match r {
        Rule::member | Rule::constant_group | Rule::constant => 2,
        Rule::lcm_package | Rule::lcm_struct | Rule::lcm_type | Rule::message_t | Rule::multiplicity
        | Rule::constant_value | Rule::comment => 1,
        _ => 0,
    }
}

/// The number of children a token of rule `r` has at most, if bounded.
pub open spec fn max_children(r: Rule) -> Option<int> {
    match r {
        Rule::lcm_type | Rule::multiplicity | Rule::constant_value => Some(1),
        Rule::constant => Some(2),
        Rule::lcm_file | Rule::lcm_package | Rule::lcm_struct | Rule::member | Rule::message_t
        | Rule::constant_group | Rule::comment => None,
        _ => Some(0),
    }
}

/// The token's children follow the grammar's production for its rule.
pub open spec fn shape_ok(p: Pair) -> bool {
    let n = p.children@.len() as int;
    &&& n >= min_children(p.rule)
    &&& match max_children(p.rule) {
        Some(m) => n <= m,
        None => true,
    }
    &&& forall|i: int| 0 <= i < n ==> child_allowed(p.rule, i, n, #[trigger] p.children@[i].rule)
}


/// The value of the decimal digits `b`.
pub open spec fn dec_value(b: Seq<u8>) -> nat
    decreases b.len(),
{
    if b.len() == 0 {
        0
    } else {
        (dec_value(b.drop_last()) * 10 + (b.last() as int - 0x30)) as nat
    }
}

/// The span of the name after the whitespace at `i`.
pub open spec fn sp_name(s: Seq<u8>, i: int) -> Option<(int, int)> {
    let j = sp_ws(s, i);
    let e = ident_end(s, j);
    if e == j {
        None
    } else {
        Some((j, e))
    }
}

/// The primitive type keyword at `j`: its end and its rule.
pub open spec fn sp_primitive(s: Seq<u8>, j: int) -> Option<(int, Rule)> {
    if sp_keyword(s, j, encode_utf8("int8_t"@)) is Some {
        Some((sp_keyword(s, j, encode_utf8("int8_t"@))->Some_0, Rule::int8_t))
    } else if sp_keyword(s, j, encode_utf8("int16_t"@)) is Some {
        Some((sp_keyword(s, j, encode_utf8("int16_t"@))->Some_0, Rule::int16_t))
    } else if sp_keyword(s, j, encode_utf8("int32_t"@)) is Some {
        Some((sp_keyword(s, j, encode_utf8("int32_t"@))->Some_0, Rule::int32_t))
    } else if sp_keyword(s, j, encode_utf8("int64_t"@)) is Some {
        Some((sp_keyword(s, j, encode_utf8("int64_t"@))->Some_0, Rule::int64_t))
    } else if sp_keyword(s, j, encode_utf8("float"@)) is Some {
        Some((sp_keyword(s, j, encode_utf8("float"@))->Some_0, Rule::float))
    } else if sp_keyword(s, j, encode_utf8("double"@)) is Some {
        Some((sp_keyword(s, j, encode_utf8("double"@))->Some_0, Rule::double))
    } else if sp_keyword(s, j, encode_utf8("string"@)) is Some {
        Some((sp_keyword(s, j, encode_utf8("string"@))->Some_0, Rule::string))
    } else if sp_keyword(s, j, encode_utf8("boolean"@)) is Some {
        Some((sp_keyword(s, j, encode_utf8("boolean"@))->Some_0, Rule::boolean))
    } else if sp_keyword(s, j, encode_utf8("byte"@)) is Some {
        Some((sp_keyword(s, j, encode_utf8("byte"@))->Some_0, Rule::byte))
    } else {
        None
    }
}

/// The type a primitive rule names.
pub open spec fn prim_type(r: Rule) -> TypeV {
    match r {
        Rule::int8_t => TypeV::Int8,
        Rule::int16_t => TypeV::Int16,
        Rule::int32_t => TypeV::Int32,
        Rule::int64_t => TypeV::Int64,
        Rule::float => TypeV::Float,
        Rule::double => TypeV::Double,
        Rule::string => TypeV::String,
        Rule::boolean => TypeV::Boolean,
        _ => TypeV::Byte,
    }
}

/// The dotted continuation of a record path from `e`: its end and the spans
/// of all its names.
pub open spec fn sp_path(s: Seq<u8>, e: int, names: Seq<(int, int)>) -> (int, Seq<(int, int)>)
    decreases s.len() - e,
{
    if 0 <= e < s.len() && s[e] == 0x2e {
        let e2 = ident_end(s, e + 1);
        if e2 <= e + 1 || e2 > s.len() {
            (e, names)
        } else {
            sp_path(s, e2, names.push((e + 1, e2)))
        }
    } else {
        (e, names)
    }
}

/// The texts of the spans `names`.
pub open spec fn span_texts(s: Seq<u8>, names: Seq<(int, int)>) -> Seq<Seq<char>> {
    names.map_values(|n: (int, int)| text_of(s, n.0, n.1))
}

/// A record path at `i` (no whitespace): its end and the record type.
pub open spec fn sp_message_type(s: Seq<u8>, i: int) -> Option<(int, TypeV)> {
    let e = ident_end(s, i);
    if e == i {
        None
    } else {
        let (end, names) = sp_path(s, e, seq![(i, e)]);
        let texts = span_texts(s, names);
        Some((end, TypeV::Struct(texts.drop_last(), texts.last())))
    }
}

/// A type after the whitespace at `i`.
pub open spec fn sp_type(s: Seq<u8>, i: int) -> Option<(int, TypeV)> {
    let j = sp_ws(s, i);
    match sp_primitive(s, j) {
        Some((e, r)) => Some((e, prim_type(r))),
        None => sp_message_type(s, j),
    }
}

/// A dimension `[n]` or `[name]`; a length must fit in `usize`.
pub open spec fn sp_mult(s: Seq<u8>, i: int) -> Option<(int, MultV)> {
    let j = sp_ws(s, i);
    if !(0 <= j < s.len() && s[j] == 0x5b) {
        None
    } else {
        let k = sp_ws(s, j + 1);
        let d = sp_digits(s, k);
        if d > k {
            if dec_value(s.subrange(k, d)) > usize::MAX {
                None
            } else {
                match sp_punct(s, d, 0x5d) {
                    Some(e) => Some((e, MultV::Constant(dec_value(s.subrange(k, d))))),
                    None => None,
                }
            }
        } else {
            match sp_name(s, k) {
                None => None,
                Some((a, b)) => match sp_punct(s, b, 0x5d) {
                    Some(e) => Some((e, MultV::Variable(text_of(s, a, b)))),
                    None => None,
                },
            }
        }
    }
}

/// The dimensions from `e` on, appended to `ms`.
pub open spec fn sp_mults(s: Seq<u8>, e: int, ms: Seq<MultV>) -> (int, Seq<MultV>)
    decreases s.len() - e,
{
    match sp_mult(s, e) {
        Some((e2, m)) => if e2 <= e || e2 > s.len() {
            (e, ms)
        } else {
            sp_mults(s, e2, ms.push(m))
        },
        None => (e, ms),
    }
}

/// A field declaration: type, name, dimensions, `;`.
pub open spec fn sp_member(s: Seq<u8>, i: int) -> Option<(int, FieldV)> {
    match sp_type(s, i) {
        None => None,
        Some((e1, ty)) => match sp_name(s, e1) {
            None => None,
            Some((a, b)) => {
                let (e, ms) = sp_mults(s, b, Seq::empty());
                match sp_punct(s, e, 0x3b) {
                    None => None,
                    Some(end) => Some(
                        (end, FieldV { comment: None, name: text_of(s, a, b), ty, multiplicity: ms }),
                    ),
                }
            },
        },
    }
}

/// A float literal after the whitespace at `i`.
pub open spec fn sp_float(s: Seq<u8>, i: int) -> Option<int> {
    match sp_number(s, sp_ws(s, i)) {
        Some((e, true)) => Some(e),
        _ => None,
    }
}

/// A constant `name = value`: its name and value texts.
pub open spec fn sp_constant(s: Seq<u8>, i: int) -> Option<(int, (Seq<char>, Seq<char>))> {
    match sp_name(s, i) {
        None => None,
        Some((a, b)) => match sp_punct(s, b, 0x3d) {
            None => None,
            Some(e2) => {
                let j = sp_ws(s, e2);
                match sp_number(s, j) {
                    None => None,
                    Some((e, _)) => Some((e, (text_of(s, a, b), text_of(s, j, e)))),
                }
            },
        },
    }
}

/// The `, constant` continuations from `e` on, appended to `cs`.
pub open spec fn sp_consts(s: Seq<u8>, e: int, cs: Seq<(Seq<char>, Seq<char>)>) -> Option<
    (int, Seq<(Seq<char>, Seq<char>)>),
>
    decreases s.len() - e,
{
    match sp_punct(s, e, 0x2c) {
        None => Some((e, cs)),
        Some(comma) => match sp_constant(s, comma) {
            None => None,
            Some((e2, c)) => if e2 <= e || e2 > s.len() {
                Some((e, cs))
            } else {
                sp_consts(s, e2, cs.push(c))
            },
        },
    }
}

/// A constant group: `const` type constants `;`.
pub open spec fn sp_group(s: Seq<u8>, i: int) -> Option<(int, (TypeV, Seq<(Seq<char>, Seq<char>)>))> {
    let start = sp_ws(s, i);
    match sp_keyword(s, start, encode_utf8("const"@)) {
        None => None,
        Some(e0) => match sp_type(s, e0) {
            None => None,
            Some((e1, ty)) => match sp_constant(s, e1) {
                None => None,
                Some((e, c)) => match sp_consts(s, e, seq![c]) {
                    None => None,
                    Some((e3, cs)) => match sp_punct(s, e3, 0x3b) {
                        None => None,
                        Some(end) => Some((end, (ty, cs))),
                    },
                },
            },
        },
    }
}

/// Where the `*/` that ends a block comment starts, searching from `j`.
pub open spec fn sp_block_close(s: Seq<u8>, j: int) -> Option<int>
    decreases s.len() - j,
{
    if j < 0 || j >= s.len() {
        None
    } else if sp_pair(s, j, 0x2a, 0x2f) {
        Some(j)
    } else {
        sp_block_close(s, j + 1)
    }
}

/// `acc` followed by one more comment line `t`.
pub open spec fn join_line(acc: Seq<char>, t: Seq<char>) -> Seq<char> {
    if acc.len() > 0 {
        acc.push('\n') + t
    } else {
        t
    }
}

/// The further line comments of a run from `e` on, their texts joined to `acc`.
pub open spec fn sp_lines(s: Seq<u8>, e: int, acc: Seq<char>) -> (int, Seq<char>)
    decreases s.len() - e,
{
    match sp_next_line(s, e) {
        None => (e, acc),
        Some(j) => {
            let e2 = sp_line_end(s, j);
            if e2 <= e || e2 > s.len() || e2 < j + 2 {
                (e, acc)
            } else {
                sp_lines(s, e2, join_line(acc, text_of(s, j + 2, e2)))
            }
        },
    }
}

/// A comment after the whitespace at `i`, and its text: a block comment
/// without `/*` and `*/`, or a run of line comments without their `//`, one
/// per line.
pub open spec fn sp_comment(s: Seq<u8>, i: int) -> Option<(int, Seq<char>)> {
    let start = sp_ws(s, i);
    if sp_pair(s, start, 0x2f, 0x2a) {
        match sp_block_close(s, start + 2) {
            None => None,
            Some(j) => Some((j + 2, text_of(s, start + 2, j))),
        }
    } else if !sp_pair(s, start, 0x2f, 0x2f) {
        None
    } else {
        let e = sp_line_end(s, start);
        if e < start + 2 {
            None
        } else {
            let (end, text) = sp_lines(s, e, text_of(s, start + 2, e));
            Some((end, text))
        }
    }
}

/// One item of a record body.
pub enum ItemV {
    Comment(Seq<char>),
    Member(FieldV),
    Group(TypeV, Seq<(Seq<char>, Seq<char>)>),
}

/// A record body read so far: its fields, its constants, and the comment
/// waiting for the next declaration.
pub struct BodyV {
    pub fields: Seq<FieldV>,
    pub constants: Seq<ConstantV>,
    pub last: Option<Seq<char>>,
}

/// `consts` with the constants `cs` of type `ty` appended, the first taking
/// the comment `last`.
pub open spec fn add_consts(consts: Seq<ConstantV>, ty: TypeV, cs: Seq<(Seq<char>, Seq<char>)>, last: Option<Seq<char>>) -> Seq<ConstantV>
    decreases cs.len(),
{
    if cs.len() == 0 {
        consts
    } else {
        add_consts(
            consts.push(ConstantV { comment: last, name: cs[0].0, ty, value: cs[0].1 }),
            ty,
            cs.drop_first(),
            None,
        )
    }
}

/// The body after one more item.
pub open spec fn apply_item(b: BodyV, it: ItemV) -> BodyV {
    match it {
        ItemV::Comment(t) => BodyV { fields: b.fields, constants: b.constants, last: Some(t) },
        ItemV::Member(f) => BodyV {
            fields: b.fields.push(FieldV { comment: b.last, ..f }),
            constants: b.constants,
            last: None,
        },
        ItemV::Group(ty, cs) => BodyV {
            fields: b.fields,
            constants: add_consts(b.constants, ty, cs, b.last),
            last: None,
        },
    }
}

/// One item of a record body at `e`: a comment, a constant group or a field.
pub open spec fn sp_item(s: Seq<u8>, e: int) -> Option<(int, ItemV)> {
    match sp_comment(s, e) {
        Some((e2, t)) => Some((e2, ItemV::Comment(t))),
        None => match sp_group(s, e) {
            Some((e2, (ty, cs))) => Some((e2, ItemV::Group(ty, cs))),
            None => match sp_member(s, e) {
                Some((e2, f)) => Some((e2, ItemV::Member(f))),
                None => None,
            },
        },
    }
}

/// The items of a record body from `e` on, applied to `b`.
pub open spec fn sp_items(s: Seq<u8>, e: int, b: BodyV) -> (int, BodyV)
    decreases s.len() - e,
{
    match sp_item(s, e) {
        None => (e, b),
        Some((e2, it)) => if e2 <= e || e2 > s.len() {
            (e, b)
        } else {
            sp_items(s, e2, apply_item(b, it))
        },
    }
}

/// An empty record body.
pub open spec fn empty_body() -> BodyV {
    BodyV { fields: Seq::empty(), constants: Seq::empty(), last: None }
}

/// A record `struct name { items }`, without documentation.
pub open spec fn sp_struct(s: Seq<u8>, i: int) -> Option<(int, StructV)> {
    let start = sp_ws(s, i);
    match sp_keyword(s, start, encode_utf8("struct"@)) {
        None => None,
        Some(e0) => match sp_name(s, e0) {
            None => None,
            Some((a, b)) => match sp_punct(s, b, 0x7b) {
                None => None,
                Some(e) => {
                    let (e3, body) = sp_items(s, e, empty_body());
                    match sp_punct(s, e3, 0x7d) {
                        None => None,
                        Some(end) => Some(
                            (
                                end,
                                StructV {
                                    comment: None,
                                    name: text_of(s, a, b),
                                    fields: body.fields,
                                    constants: body.constants,
                                },
                            ),
                        ),
                    }
                },
            },
        },
    }
}

/// The `. name` continuations of a package path from `e` on, appended to `ns`.
pub open spec fn sp_pkg_names(s: Seq<u8>, e: int, ns: Seq<Seq<char>>) -> Option<(int, Seq<Seq<char>>)>
    decreases s.len() - e,
{
    match sp_punct(s, e, 0x2e) {
        None => Some((e, ns)),
        Some(dot) => match sp_name(s, dot) {
            None => None,
            Some((a, b)) => if b <= e || b > s.len() {
                Some((e, ns))
            } else {
                sp_pkg_names(s, b, ns.push(text_of(s, a, b)))
            },
        },
    }
}

/// A package declaration `package a.b;`: its names.
pub open spec fn sp_package(s: Seq<u8>, i: int) -> Option<(int, Seq<Seq<char>>)> {
    let start = sp_ws(s, i);
    match sp_keyword(s, start, encode_utf8("package"@)) {
        None => None,
        Some(e0) => match sp_name(s, e0) {
            None => None,
            Some((a, b)) => match sp_pkg_names(s, b, seq![text_of(s, a, b)]) {
                None => None,
                Some((e, ns)) => match sp_punct(s, e, 0x3b) {
                    None => None,
                    Some(end) => Some((end, ns)),
                },
            },
        },
    }
}

/// The records read so far in a file, and the comment waiting for the next.
pub struct FileAcc {
    pub structs: Seq<StructV>,
    pub last: Option<Seq<char>>,
}

/// The comments and records of a file from `e` on, added to `acc`.
pub open spec fn sp_file_items(s: Seq<u8>, e: int, acc: FileAcc) -> (int, FileAcc)
    decreases s.len() - e,
{
    match sp_comment(s, e) {
        Some((e2, t)) => if e2 <= e || e2 > s.len() {
            (e, acc)
        } else {
            sp_file_items(s, e2, FileAcc { structs: acc.structs, last: Some(t) })
        },
        None => match sp_struct(s, e) {
            Some((e2, st)) => if e2 <= e || e2 > s.len() {
                (e, acc)
            } else {
                sp_file_items(
                    s,
                    e2,
                    FileAcc { structs: acc.structs.push(StructV { comment: acc.last, ..st }), last: None },
                )
            },
            None => (e, acc),
        },
    }
}

/// Whether the bytes `s` are a schema file: an optional package, then records
/// and comments, then only whitespace.
pub open spec fn accepts_file(s: Seq<u8>) -> bool {
    file_parse(s) is Some
}

/// The package and records of a schema file, each record with the comment
/// just before it.
pub open spec fn file_parse(s: Seq<u8>) -> Option<FileV> {
    let (e0, ns) = match sp_package(s, 0) {
        Some((e1, ns)) => (e1, ns),
        None => (0int, Seq::<Seq<char>>::empty()),
    };
    let (e, acc) = sp_file_items(s, e0, FileAcc { structs: Seq::empty(), last: None });
    if sp_ws(s, e) != s.len() {
        None
    } else {
        Some(FileV { namespaces: ns, structs: acc.structs })
    }
}

/// The value of a schema file that `accepts_file` accepts.
pub open spec fn file_of(s: Seq<u8>) -> FileV {
    file_parse(s)->Some_0
}

/// Whether `rule` derives a prefix of `s` (for `lcm_file`, all of it).
pub open spec fn derives(rule: Rule, s: Seq<u8>) -> bool {
    match rule {
        Rule::lcm_file => accepts_file(s),
        Rule::lcm_package => sp_package(s, 0) is Some,
        Rule::lcm_struct => sp_struct(s, 0) is Some,
        Rule::member => sp_member(s, 0) is Some,
        Rule::lcm_type => sp_type(s, 0) is Some,
        Rule::multiplicity => sp_mult(s, 0) is Some,
        Rule::constant_group => sp_group(s, 0) is Some,
        Rule::constant => sp_constant(s, 0) is Some,
        Rule::float_literal => sp_float(s, 0) is Some,
        Rule::comment => sp_comment(s, 0) is Some,
        _ => false,
    }
}

/// A token without inner tokens.
fn leaf(rule: Rule, start: usize, end: usize) -> (r: Pair)
    requires
        start <= end,
    ensures
        r.rule == rule,
        r.start == start,
        r.end == end,
        r.children@.len() == 0,
{
    Pair { rule, start, end, children: Vec::new() }
}

/// A number literal at `i`: an optional minus sign, digits, then a fraction
/// and/or an exponent for a float. Returns its end and whether it is a float.
fn scan_number(s: &[u8], i: usize) -> (r: Option<(usize, bool)>)
    requires
        i <= s@.len(),
    ensures
        r is Some ==> i < r->Some_0.0 <= s@.len(),
        match (r, sp_number(s@, i as int)) {
            (Some((a, f)), Some((b, g))) => a as int == b && f == g,
            (None, None) => true,
            _ => false,
        },
{
    let mut j = i;
    if j < s.len() && s[j] == 0x2d {
        j = j + 1;
    }
    let d = digits_end(s, j);
    if d == j {
        return None;
    }
    let mut e = d;
    let mut is_float = false;
    if e < s.len() && s[e] == 0x2e {
        e = digits_end(s, e + 1);
        is_float = true;
    }
    if e < s.len() && (s[e] == 0x65 || s[e] == 0x45) {
        let mut k = e + 1;
        if k < s.len() && (s[k] == 0x2b || s[k] == 0x2d) {
            k = k + 1;
        }
        let d2 = digits_end(s, k);
        if d2 > k {
            e = d2;
            is_float = true;
        }
    }
    Some((e, is_float))
}

/// The end of the line comment that starts at `i` (before its newline).
fn line_comment_end(s: &[u8], i: usize) -> (r: usize)
    requires
        i <= s@.len(),
    ensures
        i <= r <= s@.len(),
        r == sp_line_end(s@, i as int),
{
    let mut j = i;
    while j < s.len() && s[j] != 0x0a
        invariant
            i <= j <= s@.len(),
            sp_line_end(s@, i as int) == sp_line_end(s@, j as int),
        decreases s@.len() - j,
    {
        j = j + 1;
    }
    j
}

/// Where the next line comment starts, when only spaces and a single line
/// break separate it from `e`.
fn next_line_comment(s: &[u8], e: usize) -> (r: Option<usize>)
    requires
        e <= s@.len(),
    ensures
        r is Some ==> e < r->Some_0 <= s@.len(),
        same_end(r, sp_next_line(s@, e as int)),
{
    let mut j = e;
    while j < s.len() && (s[j] == 0x20 || s[j] == 0x09 || s[j] == 0x0d)
        invariant
            e <= j <= s@.len(),
            run_end(s@, e as int, |b: u8| is_blank(b)) == run_end(s@, j as int, |b: u8| is_blank(b)),
        decreases s@.len() - j,
    {
        j = j + 1;
    }
    if j >= s.len() || s[j] != 0x0a {
        return None;
    }
    let ghost j1 = j + 1;
    j = j + 1;
    while j < s.len() && (s[j] == 0x20 || s[j] == 0x09 || s[j] == 0x0d)
        invariant
            e < j <= s@.len(),
            run_end(s@, j1, |b: u8| is_blank(b)) == run_end(s@, j as int, |b: u8| is_blank(b)),
        decreases s@.len() - j,
    {
        j = j + 1;
    }
    if pair_at(s, j, 0x2f, 0x2f) {
        Some(j)
    } else {
        None
    }
}

/// A name token of rule `rule` after the whitespace at `i`, and its text.
fn p_name(s: &[u8], i: usize, rule: Rule) -> (r: Option<(usize, Pair, String)>)
    requires
        i <= s@.len(),
        min_children(rule) <= 0,
    ensures
        parsed(r, i, s@.len(), rule),
        match (r, sp_name(s@, i as int)) {
            (Some((e, p, v)), Some((a, b))) => e as int == b && p.start as int == a && v@
                == text_of(s@, a, b),
            (None, None) => true,
            _ => false,
        },
{
    let j = skip_ws(s, i);
    let e = scan_ident(s, j);
    if e == j {
        return None;
    }
    let text = text_at(s, j, e);
    Some((e, leaf(rule, j, e), text))
}

/// The primitive type keyword at `j`: its end and its rule.
fn primitive_at(s: &[u8], j: usize) -> (r: Option<(usize, Rule)>)
    requires
        j <= s@.len(),
    ensures
        match (r, sp_primitive(s@, j as int)) {
            (Some((e, ru)), Some((b, rv))) => e as int == b && ru == rv && j < e <= s@.len()
                && is_primitive_rule(ru),
            (None, None) => true,
            _ => false,
        },
{
    if let Some(e) = keyword_at(s, j, "int8_t") {
        return Some((e, Rule::int8_t));
    }
    if let Some(e) = keyword_at(s, j, "int16_t") {
        return Some((e, Rule::int16_t));
    }
    if let Some(e) = keyword_at(s, j, "int32_t") {
        return Some((e, Rule::int32_t));
    }
    if let Some(e) = keyword_at(s, j, "int64_t") {
        return Some((e, Rule::int64_t));
    }
    if let Some(e) = keyword_at(s, j, "float") {
        return Some((e, Rule::float));
    }
    if let Some(e) = keyword_at(s, j, "double") {
        return Some((e, Rule::double));
    }
    if let Some(e) = keyword_at(s, j, "string") {
        return Some((e, Rule::string));
    }
    if let Some(e) = keyword_at(s, j, "boolean") {
        return Some((e, Rule::boolean));
    }
    if let Some(e) = keyword_at(s, j, "byte") {
        return Some((e, Rule::byte));
    }
    None
}

/// The type a primitive rule names.
fn prim_ast(rule: Rule) -> (t: ast::Type)
    ensures
        t@ == prim_type(rule),
{
    match rule {
        Rule::int8_t => ast::Type::Int8,
        Rule::int16_t => ast::Type::Int16,
        Rule::int32_t => ast::Type::Int32,
        Rule::int64_t => ast::Type::Int64,
        Rule::float => ast::Type::Float,
        Rule::double => ast::Type::Double,
        Rule::string => ast::Type::String,
        Rule::boolean => ast::Type::Boolean,
        _ => ast::Type::Byte,
    }
}

/// Whether an exec parse agrees with a spec parse: the same end and value.
pub open spec fn agrees<V: View>(r: Option<(usize, Pair, V)>, v: Option<(int, V::V)>) -> bool {
    match (r, v) {
        (Some((e, _, x)), Some((b, y))) => e as int == b && x@ == y,
        (None, None) => true,
        _ => false,
    }
}

/// A primitive type keyword or a (possibly namespaced) record name.
fn p_type(s: &[u8], i: usize) -> (r: Option<(usize, Pair, ast::Type)>)
    requires
        i <= s@.len(),
    ensures
        parsed(r, i, s@.len(), Rule::lcm_type),
        agrees(r, sp_type(s@, i as int)),
{
    let j = skip_ws(s, i);
    if let Some((e, rule)) = primitive_at(s, j) {
        let mut children: Vec<Pair> = Vec::new();
        push_child(&mut children, leaf(rule, j, e), Ghost(j as int), Ghost(j as int));
        return Some((e, Pair { rule: Rule::lcm_type, start: j, end: e, children }, prim_ast(rule)));
    }
    let (e, m, t) = p_message_type(s, j)?;
    let mut children: Vec<Pair> = Vec::new();
    push_child(&mut children, m, Ghost(j as int), Ghost(j as int));
    Some((e, Pair { rule: Rule::lcm_type, start: j, end: e, children }, t))
}

/// The spans of names as integers.
pub open spec fn int_spans(v: Seq<(usize, usize)>) -> Seq<(int, int)> {
    v.map_values(|n: (usize, usize)| (n.0 as int, n.1 as int))
}

/// A record name with its namespace path: `ns.ns.name`, without whitespace.
fn p_message_type(s: &[u8], i: usize) -> (r: Option<(usize, Pair, ast::Type)>)
    requires
        i <= s@.len(),
    ensures
        parsed(r, i, s@.len(), Rule::message_t),
        agrees(r, sp_message_type(s@, i as int)),
{
    let mut e = scan_ident(s, i);
    if e == i {
        return None;
    }
    let ghost e_first = e as int;
    let mut names: Vec<(usize, usize)> = Vec::new();
    names.push((i, e));
    assert(int_spans(names@) =~= seq![(i as int, e as int)]);
    loop
        invariant
            i < e <= s@.len(),
            names@.len() >= 1,
            forall|m: int| 0 <= m < names@.len() ==> #[trigger] names@[m].0 <= names@[m].1 <= e,
            forall|m: int| 0 <= m < names@.len() ==> i <= #[trigger] names@[m].0,
            forall|m: int| 0 < m < names@.len() ==> names@[m - 1].1 < #[trigger] names@[m].0,
            names@[names@.len() - 1].1 == e,
            sp_path(s@, e_first, seq![(i as int, e_first)]) == sp_path(
                s@,
                e as int,
                int_spans(names@),
            ),
        ensures
            sp_path(s@, e as int, int_spans(names@)) == (e as int, int_spans(names@)),
        decreases s@.len() - e,
    {
        if !(e < s.len() && s[e] == 0x2e) {
            break;
        }
        let e2 = scan_ident(s, e + 1);
        if e2 <= e + 1 {
            break;
        }
        let ghost old_names = names@;
        names.push((e + 1, e2));
        assert forall|m: int| 0 <= m < names@.len() implies #[trigger] names@[m].0 <= names@[m].1
            <= e2 by {
            if m < old_names.len() {
                assert(names@[m] == old_names[m]);
                assert(old_names[m].0 <= old_names[m].1 <= e);
            }
        }
        assert(forall|m: int| 0 <= m < old_names.len() ==> names@[m] == old_names[m]);
        assert(int_spans(names@) =~= int_spans(old_names).push(((e + 1) as int, e2 as int)));
        e = e2;
    }
    let ghost spans = int_spans(names@);
    let ghost texts = span_texts(s@, spans);
    let mut children: Vec<Pair> = Vec::new();
    let mut ns: Vec<ast::Namespace> = Vec::new();
    let mut last_name = String::new();
    let n = names.len();
    let ghost mut cur: int = i as int;
    let mut k: usize = 0;
    while k < n
        invariant
            children_ok(children@, children@.len() as int),
            laid_out(children@, i as int, cur),
            i <= cur <= e,
            k == 0 ==> cur == i,
            k > 0 ==> cur == names@[k - 1].1,
            forall|m: int| 0 <= m < names@.len() ==> #[trigger] names@[m].0 <= names@[m].1 <= e,
            forall|m: int| 0 <= m < names@.len() ==> i <= #[trigger] names@[m].0,
            forall|m: int| 0 < m < names@.len() ==> names@[m - 1].1 < #[trigger] names@[m].0,
            n == names@.len(),
            n >= 1,
            k <= n,
            e <= s@.len(),
            children@.len() == k,
            forall|j: int|
                0 <= j < k ==> (#[trigger] children@[j].rule == if j == n - 1 {
                    Rule::struct_name
                } else {
                    Rule::package_name
                }),
            forall|j: int| 0 <= j < k ==> (#[trigger] children@[j].children@.len() == 0),
            spans == int_spans(names@),
            texts == span_texts(s@, spans),
            ns@.len() == if k < n { k as int } else { n - 1 },
            forall|m: int| 0 <= m < ns@.len() ==> #[trigger] ns@[m].0@ == texts[m],
            k == n ==> last_name@ == texts[n - 1],
        decreases n - k,
    {
        let (a, b) = names[k];
        let rule = if k + 1 == n {
            Rule::struct_name
        } else {
            Rule::package_name
        };
        let text = text_at(s, a, b);
        assert(texts[k as int] == text_of(s@, a as int, b as int));
        if k + 1 < n {
            ns.push(ast::Namespace(text));
        } else {
            last_name = text;
        }
        push_child(&mut children, leaf(rule, a, b), Ghost(i as int), Ghost(cur));
        proof {
            cur = b as int;
        }
        k = k + 1;
    }
    let t = ast::Type::Struct(ns, last_name);
    assert(t@ == TypeV::Struct(texts.drop_last(), texts.last())) by {
        assert(crate::ast::path_names(ns@) =~= texts.drop_last());
    }
    Some((e, Pair { rule: Rule::message_t, start: i, end: e, children }, t))
}

proof fn lemma_dec_prefix(b: Seq<u8>, m: int)
    requires
        0 <= m <= b.len(),
        forall|j: int| 0 <= j < b.len() ==> is_digit(#[trigger] b[j]),
    ensures
        dec_value(b.subrange(0, m)) <= dec_value(b),
    decreases b.len() - m,
{
    if m < b.len() {
        lemma_dec_prefix(b, m + 1);
        assert(b.subrange(0, m + 1).drop_last() =~= b.subrange(0, m));
        assert(is_digit(b.subrange(0, m + 1).last()));
    } else {
        assert(b.subrange(0, m) =~= b);
    }
}

/// The value of the digits `s[k..d]`, if it fits in `usize`.
fn decimal_at(s: &[u8], k: usize, d: usize) -> (r: Option<usize>)
    requires
        k <= d <= s@.len(),
        forall|m: int| k <= m < d ==> is_digit(#[trigger] s@[m]),
    ensures
        match r {
            Some(v) => v as int == dec_value(s@.subrange(k as int, d as int)),
            None => dec_value(s@.subrange(k as int, d as int)) > usize::MAX,
        },
{
    let ghost b = s@.subrange(k as int, d as int);
    let mut v: usize = 0;
    let mut j = k;
    while j < d
        invariant
            k <= j <= d <= s@.len(),
            b == s@.subrange(k as int, d as int),
            forall|m: int| k <= m < d ==> is_digit(#[trigger] s@[m]),
            v as int == dec_value(s@.subrange(k as int, j as int)),
        decreases d - j,
    {
        assert(s@.subrange(k as int, j + 1).drop_last() =~= s@.subrange(k as int, j as int));
        assert(is_digit(s@[j as int]));
        let digit = (s[j] - 0x30) as usize;
        if v > (usize::MAX - digit) / 10 {
            proof {
                assert(v * 10 + digit > usize::MAX) by (nonlinear_arith)
                    requires
                        v > (usize::MAX - digit) / 10,
                        digit <= 9,
                ;
                assert(forall|m: int| 0 <= m < b.len() ==> is_digit(#[trigger] b[m]) ) by {
                    assert forall|m: int| 0 <= m < b.len() implies is_digit(#[trigger] b[m]) by {
                        assert(b[m] == s@[k + m]);
                    }
                }
                assert(b.subrange(0, j + 1 - k) =~= s@.subrange(k as int, j + 1));
                lemma_dec_prefix(b, j + 1 - k);
            }
            return None;
        }
        v = v * 10 + digit;
        j = j + 1;
    }
    Some(v)
}

/// A dimension: `[` a length or a size field `]`.
fn p_multiplicity(s: &[u8], i: usize) -> (r: Option<(usize, Pair, ast::Multiplicity)>)
    requires
        i <= s@.len(),
    ensures
        parsed(r, i, s@.len(), Rule::multiplicity),
        agrees(r, sp_mult(s@, i as int)),
{
    let j = skip_ws(s, i);
    if j >= s.len() || s[j] != 0x5b {
        return None;
    }
    let k = skip_ws(s, j + 1);
    let d = digits_end(s, k);
    let (inner, m) = if d > k {
        let v = decimal_at(s, k, d)?;
        (leaf(Rule::unsigned_int_literal, k, d), ast::Multiplicity::Constant(v))
    } else {
        let (_, name, text) = p_name(s, k, Rule::member_name)?;
        (name, ast::Multiplicity::Variable(text))
    };
    let e = punct(s, inner.end, 0x5d)?;
    let mut children: Vec<Pair> = Vec::new();
    push_child(&mut children, inner, Ghost(j as int), Ghost(j as int));
    Some((e, Pair { rule: Rule::multiplicity, start: j, end: e, children }, m))
}

/// The values of a list of exec values.
pub open spec fn views<T: View>(v: Seq<T>) -> Seq<T::V> {
    v.map_values(|x: T| x@)
}

/// A field: type, name, dimensions, `;`.
fn p_member(s: &[u8], i: usize) -> (r: Option<(usize, Pair, ast::Field)>)
    requires
        i <= s@.len(),
    ensures
        parsed(r, i, s@.len(), Rule::member),
        agrees(r, sp_member(s@, i as int)),
{
    let (e1, ty, t) = p_type(s, i)?;
    let start = ty.start;
    let (mut e, name, ntext) = p_name(s, e1, Rule::member_name)?;
    let ghost b0 = e as int;
    let mut children: Vec<Pair> = Vec::new();
    push_child(&mut children, ty, Ghost(start as int), Ghost(start as int));
    push_child(&mut children, name, Ghost(start as int), Ghost(e1 as int));
    assert(children@[0].rule == Rule::lcm_type && children@[1].rule == Rule::member_name);
    let mut ms: Vec<ast::Multiplicity> = Vec::new();
    assert(views(ms@) =~= Seq::<MultV>::empty());
    loop
        invariant
            children_ok(children@, children@.len() as int),
            laid_out(children@, start as int, e as int),
            i <= start <= e <= s@.len(),
            children@.len() >= 2,
            forall|j: int|
                0 <= j < children@.len() ==> child_allowed(
                    Rule::member,
                    j,
                    children@.len() as int,
                    #[trigger] children@[j].rule,
                ),
            sp_mults(s@, b0, Seq::empty()) == sp_mults(s@, e as int, views(ms@)),
        ensures
            sp_mults(s@, e as int, views(ms@)) == (e as int, views(ms@)),
        decreases s@.len() - e,
    {
        match p_multiplicity(s, e) {
            Some((e2, m, mv)) => {
                if e2 <= e {
                    break;
                }
                push_child(&mut children, m, Ghost(start as int), Ghost(e as int));
                let ghost before = ms@;
                ms.push(mv);
                assert(views(ms@) =~= views(before).push(mv@));
                e = e2;
            },
            None => {
                break;
            },
        }
    }
    let end = punct(s, e, 0x3b)?;
    let f = ast::Field { comment: None, name: ntext, ty: t, multiplicity: ms };
    assert(f.multiplicity@.map_values(|m: ast::Multiplicity| m@) =~= views(f.multiplicity@));
    Some((end, Pair { rule: Rule::member, start, end, children }, f))
}

/// A float literal alone (used to check a value by itself).
fn p_float(s: &[u8], i: usize) -> (r: Option<(usize, Pair, ())>)
    requires
        i <= s@.len(),
    ensures
        parsed(r, i, s@.len(), Rule::float_literal),
        match (r, sp_float(s@, i as int)) {
            (Some((e, _, _)), Some(b)) => e as int == b,
            (None, None) => true,
            _ => false,
        },
{
    let j = skip_ws(s, i);
    let (e, is_float) = scan_number(s, j)?;
    if !is_float {
        return None;
    }
    Some((e, leaf(Rule::float_literal, j, e), ()))
}

/// A constant: name `=` value; its name and value texts.
fn p_constant(s: &[u8], i: usize) -> (r: Option<(usize, Pair, (String, String))>)
    requires
        i <= s@.len(),
    ensures
        parsed(r, i, s@.len(), Rule::constant),
        agrees(r, sp_constant(s@, i as int)),
{
    let (e1, name, ntext) = p_name(s, i, Rule::constant_name)?;
    let start = name.start;
    let e2 = punct(s, e1, 0x3d)?;
    let j = skip_ws(s, e2);
    let (e, is_float) = scan_number(s, j)?;
    let vtext = text_at(s, j, e);
    let lit = leaf(if is_float { Rule::float_literal } else { Rule::int_literal }, j, e);
    let mut vchildren: Vec<Pair> = Vec::new();
    push_child(&mut vchildren, lit, Ghost(j as int), Ghost(j as int));
    let value = Pair { rule: Rule::constant_value, start: j, end: e, children: vchildren };
    let mut children: Vec<Pair> = Vec::new();
    push_child(&mut children, name, Ghost(start as int), Ghost(start as int));
    push_child(&mut children, value, Ghost(start as int), Ghost(e1 as int));
    Some((e, Pair { rule: Rule::constant, start, end: e, children }, (ntext, vtext)))
}

/// A constant group: `const` type constant (`,` constant)* `;`.
fn p_constant_group(s: &[u8], i: usize) -> (r: Option<(usize, Pair, (ast::Type, Vec<(String, String)>))>)
    requires
        i <= s@.len(),
    ensures
        parsed(r, i, s@.len(), Rule::constant_group),
        match (r, sp_group(s@, i as int)) {
            (Some((e, _, (t, cs))), Some((b, (tv, csv)))) => e as int == b && t@ == tv && views(
                cs@,
            ) == csv,
            (None, None) => true,
            _ => false,
        },
{
    let start = skip_ws(s, i);
    let e0 = keyword_at(s, start, "const")?;
    let (e1, ty, t) = p_type(s, e0)?;
    let (mut e, c, cv) = p_constant(s, e1)?;
    let ghost c0 = cv@;
    let ghost e_first = e as int;
    let mut children: Vec<Pair> = Vec::new();
    push_child(&mut children, ty, Ghost(start as int), Ghost(start as int));
    push_child(&mut children, c, Ghost(start as int), Ghost(e1 as int));
    let mut cs: Vec<(String, String)> = Vec::new();
    cs.push(cv);
    assert(views(cs@) =~= seq![c0]);
    let mut failed = false;
    loop
        invariant_except_break
            !failed,
        invariant
            children_ok(children@, children@.len() as int),
            laid_out(children@, start as int, e as int),
            i <= start <= e <= s@.len(),
            children@.len() >= 2,
            forall|j: int|
                0 <= j < children@.len() ==> child_allowed(
                    Rule::constant_group,
                    j,
                    children@.len() as int,
                    #[trigger] children@[j].rule,
                ),
            sp_consts(s@, e_first, seq![c0]) == sp_consts(s@, e as int, views(cs@)),
        ensures
            failed ==> sp_consts(s@, e as int, views(cs@)) is None,
            !failed ==> sp_consts(s@, e as int, views(cs@)) == Some((e as int, views(cs@))),
        decreases s@.len() - e,
    {
        let comma = match punct(s, e, 0x2c) {
            Some(c) => c,
            None => {
                break;
            },
        };
        let (e2, c2, cv2) = match p_constant(s, comma) {
            Some(x) => x,
            None => {
                failed = true;
                break;
            },
        };
        if e2 <= e {
            break;
        }
        push_child(&mut children, c2, Ghost(start as int), Ghost(e as int));
        let ghost before = cs@;
        cs.push(cv2);
        assert(views(cs@) =~= views(before).push(cv2@));
        e = e2;
    }
    if failed {
        return None;
    }
    let end = punct(s, e, 0x3b)?;
    Some((end, Pair { rule: Rule::constant_group, start, end, children }, (t, cs)))
}

/// A comment: a block comment, or a run of line comments on consecutive
/// lines; and its text.
fn p_comment(s: &[u8], i: usize) -> (r: Option<(usize, Pair, String)>)
    requires
        i <= s@.len(),
    ensures
        parsed(r, i, s@.len(), Rule::comment),
        agrees(r, sp_comment(s@, i as int)),
{
    let start = skip_ws(s, i);
    let total = s.len();
    let mut children: Vec<Pair> = Vec::new();
    if pair_at(s, start, 0x2f, 0x2a) {
        let mut j = start + 2;
        let mut open_end = false;
        loop
            invariant_except_break
                !open_end,
            invariant
                start + 2 <= j <= s@.len(),
                total == s@.len(),
                sp_block_close(s@, start + 2) == sp_block_close(s@, j as int),
            ensures
                open_end ==> sp_block_close(s@, j as int) is None,
                !open_end ==> j + 2 <= s@.len() && sp_block_close(s@, j as int) == Some(j as int),
            decreases s@.len() - j,
        {
            if j >= s.len() {
                open_end = true;
                break;
            }
            if pair_at(s, j, 0x2a, 0x2f) {
                break;
            }
            j = j + 1;
        }
        if open_end {
            return None;
        }
        let text = text_at(s, start + 2, j);
        let e = j + 2;
        push_child(
            &mut children,
            leaf(Rule::block_comment, start, e),
            Ghost(start as int),
            Ghost(start as int),
        );
        return Some((e, Pair { rule: Rule::comment, start, end: e, children }, text));
    }
    if !pair_at(s, start, 0x2f, 0x2f) {
        return None;
    }
    let mut e = line_comment_end(s, start);
    if e < start + 2 {
        return None;
    }
    let mut text = text_at(s, start + 2, e);
    let ghost e_first = e as int;
    let ghost t_first = text@;
    push_child(
        &mut children,
        leaf(Rule::line_comment, start, e),
        Ghost(start as int),
        Ghost(start as int),
    );
    loop
        invariant
            children_ok(children@, children@.len() as int),
            laid_out(children@, start as int, e as int),
            start <= e <= s@.len(),
            children@.len() >= 1,
            forall|j: int| 0 <= j < children@.len() ==> #[trigger] children@[j].rule
                == Rule::line_comment,
            sp_lines(s@, e_first, t_first) == sp_lines(s@, e as int, text@),
        ensures
            sp_lines(s@, e as int, text@) == (e as int, text@),
        decreases s@.len() - e,
    {
        match next_line_comment(s, e) {
            Some(j) => {
                let e2 = line_comment_end(s, j);
                if e2 <= e || e2 - j < 2 {
                    break;
                }
                let line = text_at(s, j + 2, e2);
                if !text.as_str().is_empty() {
                    crate::ast::push_char(&mut text, '\n');
                }
                crate::codegen::append(&mut text, line.as_str());
                push_child(
                    &mut children,
                    leaf(Rule::line_comment, j, e2),
                    Ghost(start as int),
                    Ghost(e as int),
                );
                e = e2;
            },
            None => {
                break;
            },
        }
    }
    Some((e, Pair { rule: Rule::comment, start, end: e, children }, text))
}

/// A copy of a type.
fn copy_type(t: &ast::Type) -> (r: ast::Type)
    ensures
        r@ == t@,
{
    match t {
        ast::Type::Int8 => ast::Type::Int8,
        ast::Type::Int16 => ast::Type::Int16,
        ast::Type::Int32 => ast::Type::Int32,
        ast::Type::Int64 => ast::Type::Int64,
        ast::Type::Float => ast::Type::Float,
        ast::Type::Double => ast::Type::Double,
        ast::Type::String => ast::Type::String,
        ast::Type::Boolean => ast::Type::Boolean,
        ast::Type::Byte => ast::Type::Byte,
        ast::Type::Struct(ns, name) => {
            let mut copy: Vec<ast::Namespace> = Vec::new();
            let mut k: usize = 0;
            while k < ns.len()
                invariant
                    k <= ns@.len(),
                    crate::ast::path_names(copy@) == crate::ast::path_names(ns@).subrange(
                        0,
                        k as int,
                    ),
                decreases ns@.len() - k,
            {
                let ghost before = copy@;
                let item = ast::Namespace(ns[k].0.clone());
                copy.push(item);
                assert(crate::ast::path_names(copy@) =~= crate::ast::path_names(before).push(
                    item.0@,
                ));
                assert(crate::ast::path_names(copy@) =~= crate::ast::path_names(ns@).subrange(
                    0,
                    k + 1,
                ));
                k = k + 1;
            }
            assert(crate::ast::path_names(ns@).subrange(0, k as int) =~= crate::ast::path_names(
                ns@,
            ));
            ast::Type::Struct(copy, name.clone())
        },
    }
}

/// The value of a record body read so far.
pub open spec fn body_view(fields: Seq<ast::Field>, constants: Seq<ast::Constant>, last: Option<ast::Comment>) -> BodyV {
    BodyV { fields: views(fields), constants: views(constants), last: crate::ast::comment_view(last) }
}

/// Adds the constants `cs` of type `t`, the first taking the pending comment.
fn add_constants(
    constants: &mut Vec<ast::Constant>,
    last: &mut Option<ast::Comment>,
    t: &ast::Type,
    cs: Vec<(String, String)>,
)
    ensures
        views(final(constants)@) == add_consts(
            views(old(constants)@),
            t@,
            views(cs@),
            crate::ast::comment_view(*old(last)),
        ),
        *final(last) is None,
{
    let n = cs.len();
    assert(views(cs@).subrange(0, n as int) =~= views(cs@));
    let mut k: usize = 0;
    while k < n
        invariant
            n == cs@.len(),
            k <= n,
            k > 0 ==> *last is None,
            add_consts(
                views(old(constants)@),
                t@,
                views(cs@),
                crate::ast::comment_view(*old(last)),
            ) == add_consts(
                views(constants@),
                t@,
                views(cs@).subrange(k as int, n as int),
                crate::ast::comment_view(*last),
            ),
        decreases n - k,
    {
        let ghost sub = views(cs@).subrange(k as int, n as int);
        assert(sub.drop_first() =~= views(cs@).subrange(k + 1, n as int));
        let comment = last.take();
        let (name, value) = (cs[k].0.clone(), cs[k].1.clone());
        let c = ast::Constant { comment, name, ty: copy_type(t), value };
        let ghost before = constants@;
        constants.push(c);
        assert(views(constants@) =~= views(before).push(c@));
        k = k + 1;
    }
    assert(views(cs@).subrange(n as int, n as int) =~= Seq::<(Seq<char>, Seq<char>)>::empty());
    if n == 0 {
        *last = None;
    }
}

/// A record: `struct` name `{` (member | constant group | comment)* `}`; its
/// value, without documentation.
fn p_struct(s: &[u8], i: usize) -> (r: Option<(usize, Pair, ast::Struct)>)
    requires
        i <= s@.len(),
    ensures
        parsed(r, i, s@.len(), Rule::lcm_struct),
        agrees(r, sp_struct(s@, i as int)),
{
    let start = skip_ws(s, i);
    let e0 = keyword_at(s, start, "struct")?;
    let (e1, name, ntext) = p_name(s, e0, Rule::struct_name)?;
    let mut e = punct(s, e1, 0x7b)?;
    let ghost e_open = e as int;
    let mut children: Vec<Pair> = Vec::new();
    push_child(&mut children, name, Ghost(start as int), Ghost(start as int));
    let mut fields: Vec<ast::Field> = Vec::new();
    let mut constants: Vec<ast::Constant> = Vec::new();
    let mut last: Option<ast::Comment> = None;
    assert(views(fields@) =~= Seq::<FieldV>::empty());
    assert(views(constants@) =~= Seq::<ConstantV>::empty());
    assert(body_view(fields@, constants@, last) == empty_body());
    loop
        invariant
            children_ok(children@, children@.len() as int),
            laid_out(children@, start as int, e as int),
            children@.len() >= 1,
            forall|j: int|
                0 <= j < children@.len() ==> child_allowed(
                    Rule::lcm_struct,
                    j,
                    children@.len() as int,
                    #[trigger] children@[j].rule,
                ),
            i <= start <= e <= s@.len(),
            sp_items(s@, e_open, empty_body()) == sp_items(
                s@,
                e as int,
                body_view(fields@, constants@, last),
            ),
        ensures
            sp_items(s@, e as int, body_view(fields@, constants@, last)) == (
                e as int,
                body_view(fields@, constants@, last),
            ),
        decreases s@.len() - e,
    {
        if let Some((e2, t, text)) = p_comment(s, e) {
            if e2 <= e {
                break;
            }
            push_child(&mut children, t, Ghost(start as int), Ghost(e as int));
            last = Some(ast::Comment(text));
            e = e2;
        } else if let Some((e2, t, (ty, cs))) = p_constant_group(s, e) {
            if e2 <= e {
                break;
            }
            push_child(&mut children, t, Ghost(start as int), Ghost(e as int));
            add_constants(&mut constants, &mut last, &ty, cs);
            e = e2;
        } else if let Some((e2, t, f)) = p_member(s, e) {
            if e2 <= e {
                break;
            }
            push_child(&mut children, t, Ghost(start as int), Ghost(e as int));
            let ghost before = fields@;
            let taken = last;
            last = None;
            let f2 = ast::Field { comment: taken, ..f };
            fields.push(f2);
            assert(views(fields@) =~= views(before).push(f2@));
            e = e2;
        } else {
            break;
        }
    }
    let end = punct(s, e, 0x7d)?;
    let st = ast::Struct { comment: None, name: ntext, fields, constants };
    assert(st.fields@.map_values(|f: ast::Field| f@) =~= views(st.fields@));
    assert(st.constants@.map_values(|c: ast::Constant| c@) =~= views(st.constants@));
    Some((end, Pair { rule: Rule::lcm_struct, start, end, children }, st))
}

/// A package declaration: `package` name (`.` name)* `;`; its names.
fn p_package(s: &[u8], i: usize) -> (r: Option<(usize, Pair, Vec<ast::Namespace>)>)
    requires
        i <= s@.len(),
    ensures
        parsed(r, i, s@.len(), Rule::lcm_package),
        match (r, sp_package(s@, i as int)) {
            (Some((e, _, ns)), Some((b, nsv))) => e as int == b && crate::ast::path_names(ns@)
                == nsv,
            (None, None) => true,
            _ => false,
        },
{
    let start = skip_ws(s, i);
    let e0 = keyword_at(s, start, "package")?;
    let (mut e, first, ftext) = p_name(s, e0, Rule::package_name)?;
    let ghost f0 = ftext@;
    let ghost e_first = e as int;
    let mut children: Vec<Pair> = Vec::new();
    push_child(&mut children, first, Ghost(start as int), Ghost(start as int));
    let mut ns: Vec<ast::Namespace> = Vec::new();
    ns.push(ast::Namespace(ftext));
    assert(crate::ast::path_names(ns@) =~= seq![f0]);
    let mut failed = false;
    loop
        invariant_except_break
            !failed,
        invariant
            children_ok(children@, children@.len() as int),
            laid_out(children@, start as int, e as int),
            i <= start <= e <= s@.len(),
            children@.len() >= 1,
            forall|j: int| 0 <= j < children@.len() ==> #[trigger] children@[j].rule
                == Rule::package_name,
            sp_pkg_names(s@, e_first, seq![f0]) == sp_pkg_names(
                s@,
                e as int,
                crate::ast::path_names(ns@),
            ),
        ensures
            failed ==> sp_pkg_names(s@, e as int, crate::ast::path_names(ns@)) is None,
            !failed ==> sp_pkg_names(s@, e as int, crate::ast::path_names(ns@)) == Some(
                (e as int, crate::ast::path_names(ns@)),
            ),
        decreases s@.len() - e,
    {
        let dot = match punct(s, e, 0x2e) {
            Some(d) => d,
            None => {
                break;
            },
        };
        let (e2, n, ntext) = match p_name(s, dot, Rule::package_name) {
            Some(x) => x,
            None => {
                failed = true;
                break;
            },
        };
        if e2 <= e {
            break;
        }
        push_child(&mut children, n, Ghost(start as int), Ghost(e as int));
        let ghost before = ns@;
        let item = ast::Namespace(ntext);
        ns.push(item);
        assert(crate::ast::path_names(ns@) =~= crate::ast::path_names(before).push(item.0@));
        e = e2;
    }
    if failed {
        return None;
    }
    let end = punct(s, e, 0x3b)?;
    Some((end, Pair { rule: Rule::lcm_package, start, end, children }, ns))
}

/// The value of the records read so far in a file.
pub open spec fn file_acc_view(structs: Seq<ast::Struct>, last: Option<ast::Comment>) -> FileAcc {
    FileAcc { structs: views(structs), last: crate::ast::comment_view(last) }
}

/// A whole schema file: an optional package, then records and comments, up to
/// the end of the input.
fn p_file(s: &[u8]) -> (r: Option<(usize, Pair, ast::File)>)
    ensures
        parsed(r, 0, s@.len(), Rule::lcm_file),
        r is Some ==> r->Some_0.0 == s@.len() && r->Some_0.1.start == 0,
        r is Some <==> accepts_file(s@),
        r is Some ==> r->Some_0.2@ == file_of(s@),
{
    let mut children: Vec<Pair> = Vec::new();
    let mut e: usize = 0;
    let mut namespaces: Vec<ast::Namespace> = Vec::new();
    if let Some((e1, p, ns)) = p_package(s, 0) {
        push_child(&mut children, p, Ghost(0int), Ghost(0int));
        e = e1;
        namespaces = ns;
    }
    let ghost e0 = e as int;
    let mut structs: Vec<ast::Struct> = Vec::new();
    let mut last: Option<ast::Comment> = None;
    assert(views(structs@) =~= Seq::<StructV>::empty());
    assert(file_acc_view(structs@, last) == FileAcc { structs: Seq::empty(), last: None });
    assert(crate::ast::path_names(namespaces@) == match sp_package(s@, 0) {
        Some((_, ns)) => ns,
        None => Seq::<Seq<char>>::empty(),
    }) by {
        if sp_package(s@, 0) is None {
            assert(crate::ast::path_names(namespaces@) =~= Seq::<Seq<char>>::empty());
        }
    }
    loop
        invariant
            e <= s@.len(),
            children_ok(children@, children@.len() as int),
            laid_out(children@, 0int, e as int),
            forall|j: int|
                0 <= j < children@.len() ==> child_allowed(
                    Rule::lcm_file,
                    j,
                    children@.len() as int,
                    #[trigger] children@[j].rule,
                ),
            sp_file_items(s@, e0, FileAcc { structs: Seq::empty(), last: None }) == sp_file_items(
                s@,
                e as int,
                file_acc_view(structs@, last),
            ),
        ensures
            sp_file_items(s@, e as int, file_acc_view(structs@, last)) == (
                e as int,
                file_acc_view(structs@, last),
            ),
        decreases s@.len() - e,
    {
        if let Some((e2, t, text)) = p_comment(s, e) {
            if e2 <= e {
                break;
            }
            push_child(&mut children, t, Ghost(0int), Ghost(e as int));
            last = Some(ast::Comment(text));
            e = e2;
        } else if let Some((e2, t, st)) = p_struct(s, e) {
            if e2 <= e {
                break;
            }
            push_child(&mut children, t, Ghost(0int), Ghost(e as int));
            let ghost before = structs@;
            let taken = last;
            last = None;
            let st2 = ast::Struct { comment: taken, ..st };
            structs.push(st2);
            assert(views(structs@) =~= views(before).push(st2@));
            e = e2;
        } else {
            break;
        }
    }
    let end = skip_ws(s, e);
    if end != s.len() {
        return None;
    }
    let file = ast::File { namespaces, structs };
    assert(file.structs@.map_values(|x: ast::Struct| x@) =~= views(file.structs@));
    Some((end, Pair { rule: Rule::lcm_file, start: 0, end, children }, file))
}

/// The input could not be parsed as the requested rule.
#[derive(Debug, Clone, Copy, PartialEq, Eq, Structural)]
pub struct ParseError {
    pub rule: Rule,
}

/// The rules that can be parsed on their own.
pub open spec fn is_entry_rule(rule: Rule) -> bool {
    rule is lcm_file || rule is lcm_package || rule is lcm_struct || rule is member || rule is lcm_type
        || rule is multiplicity || rule is constant_group || rule is constant || rule is float_literal
        || rule is comment
}

/// The parser of the schema grammar.
pub struct LcmParser;

impl LcmParser {
    /// Parses `input` from its start as `rule`; see [`parse`].
    pub fn parse(rule: Rule, input: &str) -> (r: Result<Vec<Pair>, ParseError>)
        ensures
            is_entry_rule(rule) ==> (r is Ok <==> derives(rule, encode_utf8(input@))),
            !is_entry_rule(rule) ==> r == Err::<Vec<Pair>, ParseError>(ParseError { rule }),
            r is Err ==> r->Err_0.rule == rule,
            r is Ok ==> r->Ok_0@.len() == 1 && r->Ok_0@[0].rule == rule && tree_ok(r->Ok_0@[0]),
    {
        parse(rule, input)
    }
}

/// Keeps the end and token of a parse.
fn token_of<V>(r: Option<(usize, Pair, V)>) -> (t: Option<Pair>)
    ensures
        t is Some == r is Some,
        t is Some ==> t->Some_0 == r->Some_0.1,
{
    match r {
        Some((_, p, _)) => Some(p),
        None => None,
    }
}

/// Parses `input` from its start as `rule`, returning the top-level token.
///
/// It succeeds exactly when `rule` derives a prefix of the input (for
/// `lcm_file`, all of it). The token is of `rule` and its span lies within the
/// input; every token of the tree has the children its rule's production
/// allows, inside its own span and in order.
pub fn parse(rule: Rule, input: &str) -> (r: Result<Vec<Pair>, ParseError>)
    ensures
        is_entry_rule(rule) ==> (r is Ok <==> derives(rule, encode_utf8(input@))),
        !is_entry_rule(rule) ==> r == Err::<Vec<Pair>, ParseError>(ParseError { rule }),
        r is Err ==> r->Err_0.rule == rule,
        r is Ok ==> r->Ok_0@.len() == 1 && r->Ok_0@[0].rule == rule && r->Ok_0@[0].start
            <= r->Ok_0@[0].end <= encode_utf8(input@).len() && tree_ok(r->Ok_0@[0]),
        r is Ok && rule == Rule::lcm_file ==> r->Ok_0@[0].start == 0 && r->Ok_0@[0].end
            == encode_utf8(input@).len(),
{
    let s = input.as_bytes();
    let res = match rule {
        Rule::lcm_file => token_of(p_file(s)),
        Rule::lcm_package => token_of(p_package(s, 0)),
        Rule::lcm_struct => token_of(p_struct(s, 0)),
        Rule::member => token_of(p_member(s, 0)),
        Rule::lcm_type => token_of(p_type(s, 0)),
        Rule::multiplicity => token_of(p_multiplicity(s, 0)),
        Rule::constant_group => token_of(p_constant_group(s, 0)),
        Rule::constant => token_of(p_constant(s, 0)),
        Rule::float_literal => token_of(p_float(s, 0)),
        Rule::comment => token_of(p_comment(s, 0)),
        _ => None,
    };
    match res {
        Some(p) => {
            let mut v: Vec<Pair> = Vec::new();
            v.push(p);
            Ok(v)
        },
        None => Err(ParseError { rule }),
    }
}

/// Parses a schema file into its package path and records; a comment right
/// before a record, field or constant becomes its documentation.
///
/// It succeeds exactly on the inputs that are schema files, and then returns
/// their value.
pub fn parse_file(input: &str) -> (r: Result<ast::File, ParseError>)
    ensures
        r is Ok <==> accepts_file(encode_utf8(input@)),
        r is Ok ==> r->Ok_0@ == file_of(encode_utf8(input@)),
        r is Err ==> r->Err_0.rule == Rule::lcm_file,
{
    match p_file(input.as_bytes()) {
        Some((_, _, file)) => Ok(file),
        None => Err(ParseError { rule: Rule::lcm_file }),
    }
}

} // verus!
