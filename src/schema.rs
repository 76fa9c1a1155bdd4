//! The type hash: a 64-bit digest of a record's schema, computed from its
//! field names, primitive type tags and array dimensions.
use vstd::prelude::*;
use vstd::utf8::encode_utf8;

verus! {

/// The base type of a record field.
#[derive(Clone, Debug, PartialEq, Eq)]
pub enum Ty {
    Int8,
    Int16,
    Int32,
    Int64,
    Float,
    Double,
    String,
    Boolean,
    /// Another record, by the name it is referred to.
    User(String),
}

/// One dimension of an array field.
#[derive(Clone, Debug, PartialEq, Eq)]
pub enum Dim {
    /// A length fixed by the schema.
    Fixed(usize),
    /// A length held by an earlier integer field of the same record.
    Variable(String),
}

/// A record field as the hash sees it.
#[derive(Clone, Debug, PartialEq, Eq)]
pub struct Field {
    pub name: String,
    pub base_type: Ty,
    /// Empty for a scalar; one entry per array dimension, outermost first.
    pub dims: Vec<Dim>,
}

/// Whether `t` is a primitive of the protocol.
pub open spec fn is_primitive(t: Ty) -> bool {
    !(t is User)
}

/// The tag of a type: a primitive's protocol name, or a record's own name.
pub open spec fn ty_text(t: Ty) -> Seq<char> {
    match t {
        Ty::Int8 => "int8_t"@,
        Ty::Int16 => "int16_t"@,
        Ty::Int32 => "int32_t"@,
        Ty::Int64 => "int64_t"@,
        Ty::Float => "float"@,
        Ty::Double => "double"@,
        Ty::String => "string"@,
        Ty::Boolean => "boolean"@,
        Ty::User(s) => s@,
    }
}

/// The decimal digit character of `d < 10`.
pub open spec fn digit_char(d: nat) -> char {
    if d == 0 { '0' }
    else if d == 1 { '1' }
    else if d == 2 { '2' }
    else if d == 3 { '3' }
    else if d == 4 { '4' }
    else if d == 5 { '5' }
    else if d == 6 { '6' }
    else if d == 7 { '7' }
    else if d == 8 { '8' }
    else { '9' }
}

/// The base-10 digits of `n`, without leading zeros.
pub open spec fn decimal(n: nat) -> Seq<char>
    decreases n,
{
    if n < 10 {
        seq![digit_char(n)]
    } else {
        decimal(n / 10).push(digit_char(n % 10))
    }
}

/// The mode of a dimension: 0 if fixed, 1 if variable.
pub open spec fn dim_mode(d: Dim) -> u8 {
    match d {
        Dim::Fixed(_) => 0,
        Dim::Variable(_) => 1,
    }
}

/// The text of a dimension: its length in base 10, or the name of its size field.
pub open spec fn dim_text(d: Dim) -> Seq<char> {
    match d {
        Dim::Fixed(n) => decimal(n as nat),
        Dim::Variable(s) => s@,
    }
}

/// One step of the hash: mixes the byte `c` (taken as signed) into `v`.
///
/// With `v` read as a signed 64-bit integer this is `((v << 8) ^ (v >> 55)) + c`,
/// the shift right being arithmetic and the sum wrapping.
pub open spec fn hash_byte(v: u64, c: u8) -> u64 {
    let high = if v >> 63u64 == 1 {
        (v >> 55u64) | 0xffff_ffff_ffff_fe00u64
    } else {
        v >> 55u64
    };
    let signed_c = if c >= 128 {
        (c as u64) | 0xffff_ffff_ffff_ff00u64
    } else {
        c as u64
    };
    ((v << 8u64) ^ high).wrapping_add(signed_c)
}

/// The hash steps for each byte of `s` in order.
pub open spec fn hash_bytes(v: u64, s: Seq<u8>) -> u64
    decreases s.len(),
{
    if s.len() == 0 {
        v
    } else {
        hash_byte(hash_bytes(v, s.drop_last()), s.last())
    }
}

/// Mixes a string into `v`: its length (as one byte), then its bytes.
pub open spec fn hash_string(v: u64, s: Seq<char>) -> u64 {
    hash_bytes(hash_byte(v, encode_utf8(s).len() as u8), encode_utf8(s))
}

/// Mixes a dimension list into `v`: the mode and text of each dimension.
pub open spec fn hash_dims(v: u64, dims: Seq<Dim>) -> u64
    decreases dims.len(),
{
    if dims.len() == 0 {
        v
    } else {
        let d = dims.last();
        hash_string(hash_byte(hash_dims(v, dims.drop_last()), dim_mode(d)), dim_text(d))
    }
}

/// Mixes a field into `v`: its name, its type tag when primitive, the number of
/// its dimensions and the dimensions.
pub open spec fn hash_field(v: u64, f: Field) -> u64 {
    let v1 = hash_string(v, f.name@);
    let v2 = if is_primitive(f.base_type) {
        hash_string(v1, ty_text(f.base_type))
    } else {
        v1
    };
    hash_dims(hash_byte(v2, f.dims@.len() as u8), f.dims@)
}

/// Mixes each field of `fields` in order into `v`.
pub open spec fn hash_fields(v: u64, fields: Seq<Field>) -> u64
    decreases fields.len(),
{
    if fields.len() == 0 {
        v
    } else {
        hash_field(hash_fields(v, fields.drop_last()), fields.last())
    }
}

/// The seed of the hash.
pub const HASH_SEED: u64 = 0x12345678;

/// The local hash of a record: its fields mixed into the seed. Names of
/// referenced record types do not enter it.
pub open spec fn local_hash(fields: Seq<Field>) -> u64 {
    hash_fields(HASH_SEED, fields)
}

/// The wrapping sum of `local` and the hashes in `refs`.
pub open spec fn sum_hashes(local: u64, refs: Seq<u64>) -> u64
    decreases refs.len(),
{
    if refs.len() == 0 {
        local
    } else {
        sum_hashes(local, refs.drop_last()).wrapping_add(refs.last())
    }
}

/// `v` rotated left by one bit.
pub open spec fn rotl1(v: u64) -> u64 {
    (v << 1u64) | (v >> 63u64)
}

/// The final hash of a record: its local hash plus the hashes of the records
/// its fields refer to, rotated left by one bit.
pub open spec fn full_hash(local: u64, refs: Seq<u64>) -> u64 {
    rotl1(sum_hashes(local, refs))
}

impl Ty {
    /// Returns `true` if this is a protocol primitive.
    pub fn is_primitive_type(&self) -> (r: bool)
        ensures
            r == is_primitive(*self),
    {
        match self {
            Ty::User(_) => false,
            _ => true,
        }
    }

    /// Returns the tag of this type.
    pub fn as_str(&self) -> (r: &str)
        ensures
            r@ == ty_text(*self),
    {
        match self {
            Ty::Int8 => "int8_t",
            Ty::Int16 => "int16_t",
            Ty::Int32 => "int32_t",
            Ty::Int64 => "int64_t",
            Ty::Float => "float",
            Ty::Double => "double",
            Ty::String => "string",
            Ty::Boolean => "boolean",
            Ty::User(s) => s.as_str(),
        }
    }

    /// Returns the encoded size of a fixed-size primitive, `None` for a string
    /// or a record.
    pub fn size(&self) -> (r: Option<usize>)
        ensures
            r == match *self {
                Ty::Int8 | Ty::Boolean => Some(1usize),
                Ty::Int16 => Some(2usize),
                Ty::Int32 | Ty::Float => Some(4usize),
                Ty::Int64 | Ty::Double => Some(8usize),
                Ty::String | Ty::User(_) => None::<usize>,
            },
    {
        match self {
            Ty::Int8 | Ty::Boolean => Some(1),
            Ty::Int16 => Some(2),
            Ty::Int32 | Ty::Float => Some(4),
            Ty::Int64 | Ty::Double => Some(8),
            Ty::String | Ty::User(_) => None,
        }
    }
}

/// The decimal digit character of `d`.
fn digit(d: usize) -> (c: char)
    requires
        d < 10,
    ensures
        c == digit_char(d as nat),
{
    if d == 0 { '0' }
    else if d == 1 { '1' }
    else if d == 2 { '2' }
    else if d == 3 { '3' }
    else if d == 4 { '4' }
    else if d == 5 { '5' }
    else if d == 6 { '6' }
    else if d == 7 { '7' }
    else if d == 8 { '8' }
    else { '9' }
}

/// The base-10 digits of `n`.
pub(crate) fn usize_to_decimal(n: usize) -> (r: String)
    ensures
        r@ == decimal(n as nat),
    decreases n,
{
    if n < 10 {
        let mut r = String::new();
        crate::ast::push_char(&mut r, digit(n));
        assert(r@ =~= seq![digit_char(n as nat)]);
        r
    } else {
        let mut r = usize_to_decimal(n / 10);
        crate::ast::push_char(&mut r, digit(n % 10));
        r
    }
}
impl Dim {
    /// Returns the mode of this dimension: 0 if fixed, 1 if variable.
    pub fn mode(&self) -> (r: u8)
        ensures
            r == dim_mode(*self),
    {
        match self {
            Dim::Fixed(_) => 0,
            Dim::Variable(_) => 1,
        }
    }

    /// Returns the text of this dimension.
    pub fn as_cow(&self) -> (r: String)
        ensures
            r@ == dim_text(*self),
    {
        match self {
            Dim::Fixed(n) => usize_to_decimal(*n),
            Dim::Variable(s) => s.clone(),
        }
    }
}

fn hash_update(v: u64, c: u8) -> (r: u64)
    ensures
        r == hash_byte(v, c),
{
    let high = if v >> 63u64 == 1 {
        (v >> 55u64) | 0xffff_ffff_ffff_fe00u64
    } else {
        v >> 55u64
    };
    let signed_c = if c >= 128 {
        (c as u64) | 0xffff_ffff_ffff_ff00u64
    } else {
        c as u64
    };
    ((v << 8u64) ^ high).wrapping_add(signed_c)
}

fn hash_string_update(v: u64, s: &str) -> (r: u64)
    ensures
        r == hash_string(v, s@),
{
    let bytes = s.as_bytes();
    let mut acc = hash_update(v, bytes.len() as u8);
    let ghost start = acc;
    let mut i: usize = 0;
    while i < bytes.len()
        invariant
            bytes@ == encode_utf8(s@),
            i <= bytes@.len(),
            acc == hash_bytes(start, bytes@.subrange(0, i as int)),
        decreases bytes@.len() - i,
    {
        assert(bytes@.subrange(0, i + 1).drop_last() =~= bytes@.subrange(0, i as int));
        acc = hash_update(acc, bytes[i]);
        i = i + 1;
    }
    assert(bytes@.subrange(0, i as int) =~= bytes@);
    acc
}

fn hash_field_update(v: u64, f: &Field) -> (r: u64)
    ensures
        r == hash_field(v, *f),
{
    let mut acc = hash_string_update(v, f.name.as_str());
    if f.base_type.is_primitive_type() {
        acc = hash_string_update(acc, f.base_type.as_str());
    }
    acc = hash_update(acc, f.dims.len() as u8);
    let ghost start = acc;
    let mut i: usize = 0;
    while i < f.dims.len()
        invariant
            i <= f.dims@.len(),
            acc == hash_dims(start, f.dims@.subrange(0, i as int)),
        decreases f.dims@.len() - i,
    {
        assert(f.dims@.subrange(0, i + 1).drop_last() =~= f.dims@.subrange(0, i as int));
        let d = &f.dims[i];
        acc = hash_update(acc, d.mode());
        let text = d.as_cow();
        acc = hash_string_update(acc, text.as_str());
        i = i + 1;
    }
    assert(f.dims@.subrange(0, i as int) =~= f.dims@);
    acc
}

/// Calculates the local hash of a record from its fields.
pub fn calculate_hash(fields: &Vec<Field>) -> (r: u64)
    ensures
        r == local_hash(fields@),
{
    let mut acc: u64 = HASH_SEED;
    let mut i: usize = 0;
    while i < fields.len()
        invariant
            i <= fields@.len(),
            acc == hash_fields(HASH_SEED, fields@.subrange(0, i as int)),
        decreases fields@.len() - i,
    {
        assert(fields@.subrange(0, i + 1).drop_last() =~= fields@.subrange(0, i as int));
        acc = hash_field_update(acc, &fields[i]);
        i = i + 1;
    }
    assert(fields@.subrange(0, i as int) =~= fields@);
    acc
}

/// Combines a record's local hash with the hashes of the records it refers to
/// (in field order) into its final hash.
pub fn combine_hash(local: u64, referents: &Vec<u64>) -> (r: u64)
    ensures
        r == full_hash(local, referents@),
{
    let mut acc = local;
    let mut i: usize = 0;
    while i < referents.len()
        invariant
            i <= referents@.len(),
            acc == sum_hashes(local, referents@.subrange(0, i as int)),
        decreases referents@.len() - i,
    {
        assert(referents@.subrange(0, i + 1).drop_last() =~= referents@.subrange(0, i as int));
        acc = acc.wrapping_add(referents[i]);
        i = i + 1;
    }
    assert(referents@.subrange(0, i as int) =~= referents@);
    (acc << 1u64) | (acc >> 63u64)
}

/// Two fields agree in everything the hash reads: name, dimensions, and type,
/// where any two record references agree whatever their names.
pub open spec fn same_shape(a: Field, b: Field) -> bool {
    &&& a.name@ == b.name@
    &&& a.dims@ == b.dims@
    &&& if is_primitive(a.base_type) {
        a.base_type == b.base_type
    } else {
        !is_primitive(b.base_type)
    }
}

/// Renaming the record types that fields refer to leaves the hash unchanged:
/// the local hash, and the final hash when the referenced records hash alike.
pub proof fn lemma_hash_ignores_type_names(a: Seq<Field>, b: Seq<Field>, refs: Seq<u64>)
    requires
        a.len() == b.len(),
        forall|i: int| 0 <= i < a.len() ==> same_shape(#[trigger] a[i], b[i]),
    ensures
        local_hash(a) == local_hash(b),
        full_hash(local_hash(a), refs) == full_hash(local_hash(b), refs),
{
    lemma_hash_fields_shape(HASH_SEED, a, b);
}

proof fn lemma_hash_fields_shape(v: u64, a: Seq<Field>, b: Seq<Field>)
    requires
        a.len() == b.len(),
        forall|i: int| 0 <= i < a.len() ==> same_shape(#[trigger] a[i], b[i]),
    ensures
        hash_fields(v, a) == hash_fields(v, b),
    decreases a.len(),
{
    if a.len() > 0 {
        let n = a.len() - 1;
        assert(same_shape(a[n], b[n]));
        assert forall|i: int| 0 <= i < a.drop_last().len() implies same_shape(
            #[trigger] a.drop_last()[i],
            b.drop_last()[i],
        ) by {
            assert(same_shape(a[i], b[i]));
        }
        lemma_hash_fields_shape(v, a.drop_last(), b.drop_last());
    }
}

} // verus!
