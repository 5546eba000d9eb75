use vstd::prelude::*;
use vstd::string::{StrSliceExecFns, StringExecFns};
use crate::bignat::BigNat;
use crate::decimal::{decimal, u128_to_decimal, IntErrorKind};
use crate::u256::U256;

verus! {

/// A piece of source text and where it stands.
#[derive(Debug, PartialEq, Eq)]
pub struct Span {
    pub text: String,
    pub start: usize,
    pub end: usize,
}

impl Clone for Span {
    fn clone(&self) -> (r: Span)
        ensures
            r == *self,
    {
        Span { text: self.text.clone(), start: self.start, end: self.end }
    }
}

impl Span {
    pub fn new(text: String, start: usize, end: usize) -> (r: Span)
        ensures
            r.text@ == text@,
            r.start == start,
            r.end == end,
    {
        Span { text, start, end }
    }

    /// The text the span covers.
    pub fn as_str(&self) -> (r: &str)
        ensures
            r@ == self.text@,
    {
        self.text.as_str()
    }
}

/// The widths of unsigned integers.
#[derive(Debug, Clone, Copy, PartialEq, Eq, Structural)]
pub enum IntegerBits {
    Eight,
    Sixteen,
    ThirtyTwo,
    SixtyFour,
    V128,
    V256,
}

/// The types that literals are given.
#[derive(Debug, Clone, PartialEq, Eq)]
pub enum TypeInfo {
    /// A string type of `len` bytes, from the literal at `span`.
    Str { len: usize, span: Span },
    /// A number whose width is not chosen yet.
    Numeric,
    UnsignedInteger(IntegerBits),
    Boolean,
    B256,
}

/// What is reported when integer text does not fit its type.
#[derive(Debug, Clone, PartialEq, Eq)]
pub enum CompileError {
    IntegerTooLarge { ty: TypeInfo, span: Span },
    IntegerTooSmall { ty: TypeInfo, span: Span },
    IntegerContainsInvalidDigit { ty: TypeInfo, span: Span },
    Internal { message: &'static str, span: Span },
}

/// A literal value of the source language.
#[derive(Debug, Clone, Eq)]
pub enum Literal {
    U8(u8),
    U16(u16),
    U32(u32),
    U64(u64),
    U128(u128),
    U256(U256),
    String(Span),
    Numeric(BigNat),
    Boolean(bool),
    B256([u8; 32]),
}

/// Equality of literals: same variant, same payload; strings by their text,
/// numbers by their normal bytes, that is by their value.
pub open spec fn literal_eq(a: &Literal, b: &Literal) -> bool {
    match (a, b) {
        (Literal::U8(x), Literal::U8(y)) => x == y,
        (Literal::U16(x), Literal::U16(y)) => x == y,
        (Literal::U32(x), Literal::U32(y)) => x == y,
        (Literal::U64(x), Literal::U64(y)) => x == y,
        (Literal::U128(x), Literal::U128(y)) => x == y,
        (Literal::U256(x), Literal::U256(y)) => x.bytes() == y.bytes(),
        (Literal::String(x), Literal::String(y)) => x.text@ == y.text@,
        (Literal::Numeric(x), Literal::Numeric(y)) => x.bytes() == y.bytes(),
        (Literal::Boolean(x), Literal::Boolean(y)) => x == y,
        (Literal::B256(x), Literal::B256(y)) => x@ == y@,
        _ => false,
    }
}

/// The byte that each variant writes first when hashed.
pub open spec fn hash_tag(l: &Literal) -> u8 {
    match l {
        Literal::U8(_) => 1,
        Literal::U16(_) => 2,
        Literal::U32(_) => 3,
        Literal::U64(_) => 4,
        Literal::Numeric(_) => 5,
        Literal::String(_) => 6,
        Literal::Boolean(_) => 7,
        Literal::B256(_) => 8,
        Literal::U128(_) => 9,
        Literal::U256(_) => 10,
    }
}

/// The `k` low bytes of `n`, least significant first.
pub open spec fn le_bytes(n: nat, k: nat) -> Seq<u8>
    decreases k,
{
    if k == 0 {
        Seq::empty()
    } else {
        seq![(n % 256) as u8] + le_bytes(n / 256, (k - 1) as nat)
    }
}

/// The bytes hashed after the tag.
pub open spec fn hash_payload(l: &Literal) -> Seq<u8> {
    match l {
        Literal::U8(x) => le_bytes(*x as nat, 1),
        Literal::U16(x) => le_bytes(*x as nat, 2),
        Literal::U32(x) => le_bytes(*x as nat, 4),
        Literal::U64(x) => le_bytes(*x as nat, 8),
        Literal::U128(x) => le_bytes(*x as nat, 16),
        Literal::U256(x) => x.bytes(),
        Literal::String(s) => vstd::utf8::encode_utf8(s.text@),
        Literal::Numeric(x) => x.bytes(),
        Literal::Boolean(b) => if *b { seq![1u8] } else { seq![0u8] },
        Literal::B256(x) => x@,
    }
}

/// Everything that hashing a literal writes: its tag, then its payload.
pub open spec fn hash_input(l: &Literal) -> Seq<u8> {
    seq![hash_tag(l)] + hash_payload(l)
}

/// The decimal text of each byte, joined by `", "`.
pub open spec fn joined_decimals(s: Seq<u8>) -> Seq<char>
    decreases s.len(),
{
    if s.len() == 0 {
        Seq::empty()
    } else if s.len() == 1 {
        decimal(s[0] as nat)
    } else {
        joined_decimals(s.drop_last()) + ", "@ + decimal(s.last() as nat)
    }
}

/// The text a literal is shown as.
pub open spec fn display_text(l: &Literal) -> Seq<char> {
    match l {
        Literal::U8(x) => decimal(*x as nat),
        Literal::U16(x) => decimal(*x as nat),
        Literal::U32(x) => decimal(*x as nat),
        Literal::U64(x) => decimal(*x as nat),
        Literal::U128(x) => decimal(*x as nat),
        Literal::U256(x) => decimal(x.value()),
        Literal::Numeric(x) => decimal(x.value()),
        Literal::String(s) => s.text@,
        Literal::Boolean(b) => if *b { "true"@ } else { "false"@ },
        Literal::B256(x) => joined_decimals(x@),
    }
}

/// The type a literal is given.
pub open spec fn type_of(l: &Literal) -> TypeInfo {
    match l {
        Literal::String(s) => TypeInfo::Str { len: vstd::utf8::encode_utf8(s.text@).len() as usize, span: *s },
        Literal::Numeric(_) => TypeInfo::Numeric,
        Literal::U8(_) => TypeInfo::UnsignedInteger(IntegerBits::Eight),
        Literal::U16(_) => TypeInfo::UnsignedInteger(IntegerBits::Sixteen),
        Literal::U32(_) => TypeInfo::UnsignedInteger(IntegerBits::ThirtyTwo),
        Literal::U64(_) => TypeInfo::UnsignedInteger(IntegerBits::SixtyFour),
        Literal::U128(_) => TypeInfo::UnsignedInteger(IntegerBits::V128),
        Literal::U256(_) => TypeInfo::UnsignedInteger(IntegerBits::V256),
        Literal::Boolean(_) => TypeInfo::Boolean,
        Literal::B256(_) => TypeInfo::B256,
    }
}

/// Appends the `k` low bytes of `n` to `out`, least significant first.
fn push_le_bytes(out: &mut Vec<u8>, n: u128, k: usize)
    requires
        k <= 16,
    ensures
        final(out)@ == old(out)@ + le_bytes(n as nat, k as nat),
{
    let mut v: u128 = n;
    let mut i: usize = 0;
    while i < k
        invariant
            i <= k,
            old(out)@ + le_bytes(n as nat, k as nat) == out@ + le_bytes(v as nat, (k - i) as nat),
        decreases k - i,
    {
        let b: u8 = (v % 256) as u8;
        proof {
            assert(le_bytes(v as nat, (k - i) as nat) == seq![b] + le_bytes(
                (v / 256) as nat,
                (k - i - 1) as nat,
            ));
            assert(out@.push(b) + le_bytes((v / 256) as nat, (k - i - 1) as nat) =~= out@ + (seq![b]
                + le_bytes((v / 256) as nat, (k - i - 1) as nat)));
        }
        out.push(b);
        v = v / 256;
        i = i + 1;
    }
    assert(out@ + le_bytes(v as nat, 0) =~= out@);
}

fn bytes32_eq(a: &[u8; 32], b: &[u8; 32]) -> (r: bool)
    ensures
        r == (a@ == b@),
{
    let mut i: usize = 0;
    while i < 32
        invariant
            a@.len() == 32,
            b@.len() == 32,
            i <= 32,
            forall|j: int| 0 <= j < i ==> a@[j] == b@[j],
        decreases 32 - i,
    {
        if a[i] != b[i] {
            return false;
        }
        i = i + 1;
    }
    assert(a@ =~= b@);
    true
}

fn bytes_eq(a: &[u8], b: &[u8]) -> (r: bool)
    ensures
        r == (a@ == b@),
{
    if a.len() != b.len() {
        return false;
    }
    let mut i: usize = 0;
    while i < a.len()
        invariant
            a@.len() == b@.len(),
            i <= a@.len(),
            forall|j: int| 0 <= j < i ==> a@[j] == b@[j],
        decreases a@.len() - i,
    {
        if a[i] != b[i] {
            return false;
        }
        i = i + 1;
    }
    assert(a@ =~= b@);
    true
}

impl Literal {
    /// The bytes a hasher is fed: a tag byte of the variant, then the payload.
    pub fn hash_bytes(&self) -> (r: Vec<u8>)
        ensures
            r@ == hash_input(self),
    {
        let mut out: Vec<u8> = Vec::new();
        match self {
            Literal::U8(x) => {
                out.push(1);
                push_le_bytes(&mut out, *x as u128, 1);
            },
            Literal::U16(x) => {
                out.push(2);
                push_le_bytes(&mut out, *x as u128, 2);
            },
            Literal::U32(x) => {
                out.push(3);
                push_le_bytes(&mut out, *x as u128, 4);
            },
            Literal::U64(x) => {
                out.push(4);
                push_le_bytes(&mut out, *x as u128, 8);
            },
            Literal::U128(x) => {
                out.push(9);
                push_le_bytes(&mut out, *x, 16);
            },
            Literal::U256(x) => {
                out.push(10);
                let mut b = x.to_bytes_le();
                out.append(&mut b);
            },
            Literal::Numeric(x) => {
                out.push(5);
                let mut b = x.to_bytes_le();
                out.append(&mut b);
            },
            Literal::String(s) => {
                out.push(6);
                let bytes = s.as_str().as_bytes();
                let mut i: usize = 0;
                while i < bytes.len()
                    invariant
                        i <= bytes@.len(),
                        out@ == seq![6u8] + bytes@.take(i as int),
                    decreases bytes@.len() - i,
                {
                    out.push(bytes[i]);
                    i = i + 1;
                    assert(out@ =~= seq![6u8] + bytes@.take(i as int));
                }
                assert(bytes@.take(i as int) =~= bytes@);
            },
            Literal::Boolean(b) => {
                out.push(7);
                out.push(if *b { 1 } else { 0 });
            },
            Literal::B256(x) => {
                out.push(8);
                let mut i: usize = 0;
                while i < 32
                    invariant
                        x@.len() == 32,
                        i <= 32,
                        out@ == seq![8u8] + x@.take(i as int),
                    decreases 32 - i,
                {
                    out.push(x[i]);
                    i = i + 1;
                    assert(out@ =~= seq![8u8] + x@.take(i as int));
                }
                assert(x@.take(32) =~= x@);
            },
        }
        assert(out@ =~= hash_input(self));
        out
    }

    /// The literal as text: numbers in decimal, strings as written, byte
    /// arrays as their decimal bytes joined by `", "`.
    pub fn to_display_string(&self) -> (r: String)
        ensures
            r@ == display_text(self),
    {
        match self {
            Literal::U8(x) => u128_to_decimal(*x as u128),
            Literal::U16(x) => u128_to_decimal(*x as u128),
            Literal::U32(x) => u128_to_decimal(*x as u128),
            Literal::U64(x) => u128_to_decimal(*x as u128),
            Literal::U128(x) => u128_to_decimal(*x),
            Literal::U256(x) => x.to_decimal_string(),
            Literal::Numeric(x) => x.to_decimal_string(),
            Literal::String(s) => s.text.clone(),
            Literal::Boolean(b) => if *b {
                String::from_str("true")
            } else {
                String::from_str("false")
            },
            Literal::B256(x) => {
                let mut out = String::from_str("");
                proof {
                    reveal_strlit("");
                    assert(x@.take(0) =~= Seq::<u8>::empty());
                }
                let mut i: usize = 0;
                while i < 32
                    invariant
                        x@.len() == 32,
                        i <= 32,
                        out@ == joined_decimals(x@.take(i as int)),
                    decreases 32 - i,
                {
                    if i > 0 {
                        out.append(", ");
                    }
                    let d = u128_to_decimal(x[i] as u128);
                    out.append(d.as_str());
                    proof {
                        let t = x@.take(i + 1);
                        assert(t.drop_last() =~= x@.take(i as int));
                        if i == 0 {
                            assert(x@.take(i as int) =~= Seq::<u8>::empty());
                        }
                    }
                    i = i + 1;
                }
                assert(x@.take(32) =~= x@);
                out
            },
        }
    }

    /// Sorts an integer parse failure into the error reported for a literal
    /// of type `ty` at `span`.
    pub fn handle_parse_int_error(e: &IntErrorKind, ty: TypeInfo, span: Span) -> (r: CompileError)
        ensures
            r == match *e {
                IntErrorKind::PosOverflow => CompileError::IntegerTooLarge { ty, span },
                IntErrorKind::NegOverflow => CompileError::IntegerTooSmall { ty, span },
                IntErrorKind::InvalidDigit => CompileError::IntegerContainsInvalidDigit { ty, span },
                _ => CompileError::Internal {
                    message: "Called incorrect internal sway-core on literal type.",
                    span,
                },
            },
    {
        match e {
            IntErrorKind::PosOverflow => CompileError::IntegerTooLarge { ty, span },
            IntErrorKind::NegOverflow => CompileError::IntegerTooSmall { ty, span },
            IntErrorKind::InvalidDigit => CompileError::IntegerContainsInvalidDigit { ty, span },
            _ => CompileError::Internal {
                message: "Called incorrect internal sway-core on literal type.",
                span,
            },
        }
    }

    /// The type the literal is given.
    pub fn to_typeinfo(&self) -> (r: TypeInfo)
        ensures
            r == type_of(self),
    {
        match self {
            Literal::String(s) => TypeInfo::Str { len: s.as_str().len(), span: s.clone() },
            Literal::Numeric(_) => TypeInfo::Numeric,
            Literal::U8(_) => TypeInfo::UnsignedInteger(IntegerBits::Eight),
            Literal::U16(_) => TypeInfo::UnsignedInteger(IntegerBits::Sixteen),
            Literal::U32(_) => TypeInfo::UnsignedInteger(IntegerBits::ThirtyTwo),
            Literal::U64(_) => TypeInfo::UnsignedInteger(IntegerBits::SixtyFour),
            Literal::U128(_) => TypeInfo::UnsignedInteger(IntegerBits::V128),
            Literal::U256(_) => TypeInfo::UnsignedInteger(IntegerBits::V256),
            Literal::Boolean(_) => TypeInfo::Boolean,
            Literal::B256(_) => TypeInfo::B256,
        }
    }
}

impl PartialEq for Literal {
    fn eq(&self, other: &Literal) -> (r: bool) {
        match (self, other) {
            (Literal::U8(x), Literal::U8(y)) => *x == *y,
            (Literal::U16(x), Literal::U16(y)) => *x == *y,
            (Literal::U32(x), Literal::U32(y)) => *x == *y,
            (Literal::U64(x), Literal::U64(y)) => *x == *y,
            (Literal::U128(x), Literal::U128(y)) => *x == *y,
            (Literal::U256(x), Literal::U256(y)) => x.same_value(y),
            (Literal::String(x), Literal::String(y)) => crate::decimal::str_eq(x.as_str(), y.as_str()),
            (Literal::Numeric(x), Literal::Numeric(y)) => x.same_value(y),
            (Literal::Boolean(x), Literal::Boolean(y)) => *x == *y,
            (Literal::B256(x), Literal::B256(y)) => bytes32_eq(x, y),
            _ => false,
        }
    }
}

impl vstd::std_specs::cmp::PartialEqSpecImpl for Literal {
    open spec fn obeys_eq_spec() -> bool {
        true
    }

    open spec fn eq_spec(&self, other: &Literal) -> bool {
        literal_eq(self, other)
    }
}

impl std::hash::Hash for Literal {
    /// Feeds the hasher the bytes of `hash_bytes`.
    fn hash<H: std::hash::Hasher>(&self, state: &mut H) {
        let bytes = self.hash_bytes();
        hasher_write(state, &bytes);
    }
}

/// Relies on `std::hash::Hasher::write`, which takes the bytes into the
/// hasher's state.
#[verifier::external_body]
fn hasher_write<H: std::hash::Hasher>(state: &mut H, bytes: &Vec<u8>) {
    state.write(bytes.as_slice())
}

/// Literals of different variants are never equal and never hash alike: the
/// first byte hashed differs.
pub proof fn lemma_variants_separate(a: &Literal, b: &Literal)
    requires
        hash_tag(a) != hash_tag(b),
    ensures
        !literal_eq(a, b),
        hash_input(a) != hash_input(b),
{
    assert(hash_input(a)[0] != hash_input(b)[0]);
}

/// Equal literals hash alike.
pub proof fn lemma_eq_hash_agree(a: &Literal, b: &Literal)
    requires
        literal_eq(a, b),
    ensures
        hash_input(a) == hash_input(b),
{
}

} // verus!
