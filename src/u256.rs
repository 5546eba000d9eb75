use vstd::prelude::*;
use crate::bignat::{
    BigNat,
    le_value,
    is_normal,
    pow256,
    significant_len,
    lemma_significant_prefix,
    lemma_value_bound,
};
use crate::decimal::IntErrorKind;

verus! {

/// The largest value a 256-bit unsigned integer holds.
pub open spec fn u256_max_value() -> nat {
    (pow256(32) - 1) as nat
}

/// An unsigned integer in `[0, 2^256 - 1]`.
#[derive(Debug, Eq)]
pub struct U256 {
    value: BigNat,
}

impl U256 {
    #[verifier::type_invariant]
    closed spec fn wf(&self) -> bool {
        self.value.bytes().len() <= 32
    }

    pub closed spec fn value(&self) -> nat {
        self.value.value()
    }

    /// Zero.
    pub fn min() -> (r: U256)
        ensures
            r.value() == 0,
    {
        let bytes: Vec<u8> = Vec::new();
        let value = BigNat::from_bytes_le(bytes.as_slice());
        U256 { value }
    }

    /// `2^256 - 1`: all 32 bytes set.
    pub fn max() -> (r: U256)
        ensures
            r.value() == u256_max_value(),
    {
        let bytes: [u8; 32] = [255; 32];
        let value = BigNat::from_bytes_le(&bytes);
        proof {
            lemma_all_ones(bytes@);
            assert(bytes@.take(32) =~= bytes@);
        }
        U256 { value }
    }

    /// The number that little-endian `bytes` stand for. Most-significant zero
    /// bytes are dropped first; more than 32 bytes left is an overflow.
    pub fn try_from_bytes_le(bytes: &[u8]) -> (r: Result<U256, IntErrorKind>)
        ensures
            significant_len(bytes@) <= 32 <==> r is Ok,
            r matches Ok(u) ==> u.value() == le_value(bytes@),
            r matches Err(e) ==> e == IntErrorKind::PosOverflow,
    {
        let value = BigNat::from_bytes_le(bytes);
        proof {
            lemma_significant_prefix(bytes@);
        }
        if value.byte_len() <= 32 {
            Ok(U256 { value })
        } else {
            Err(IntErrorKind::PosOverflow)
        }
    }

    /// The same number, if it fits in 256 bits.
    pub fn try_from(value: BigNat) -> (r: Result<U256, IntErrorKind>)
        ensures
            value.value() <= u256_max_value() <==> r is Ok,
            r matches Ok(u) ==> u.value() == value.value(),
            r matches Err(e) ==> e == IntErrorKind::PosOverflow,
    {
        let bytes = value.to_bytes_le();
        proof {
            lemma_normal_fits(bytes@);
            lemma_normal_significant(bytes@);
        }
        U256::try_from_bytes_le(bytes.as_slice())
    }

    /// The normal little-endian bytes of the number.
    pub closed spec fn bytes(&self) -> Seq<u8> {
        self.value.bytes()
    }

    /// Equality of the numbers, which is equality of their bytes.
    pub fn same_value(&self, other: &U256) -> (r: bool)
        ensures
            r == (self.value() == other.value()),
            r == (self.bytes() == other.bytes()),
    {
        self.value.same_value(&other.value)
    }

    /// The normal little-endian bytes of the number.
    pub fn to_bytes_le(&self) -> (r: Vec<u8>)
        ensures
            r@ == self.bytes(),
    {
        self.value.to_bytes_le()
    }

    /// The number.
    pub fn as_big_nat(&self) -> (r: &BigNat)
        ensures
            r.value() == self.value(),
    {
        &self.value
    }

    /// The number as decimal text.
    pub fn to_decimal_string(&self) -> (r: String)
        ensures
            r@ == crate::decimal::decimal(self.value()),
    {
        self.value.to_decimal_string()
    }
}

impl Clone for U256 {
    fn clone(&self) -> (r: U256)
        ensures
            r.bytes() == self.bytes(),
            r.value() == self.value(),
    {
        proof {
            use_type_invariant(self);
        }
        U256 { value: self.value.clone() }
    }
}

impl PartialEq for U256 {
    fn eq(&self, other: &U256) -> (r: bool) {
        self.same_value(other)
    }
}

impl vstd::std_specs::cmp::PartialEqSpecImpl for U256 {
    open spec fn obeys_eq_spec() -> bool {
        true
    }

    open spec fn eq_spec(&self, other: &U256) -> bool {
        self.value() == other.value()
    }
}

proof fn lemma_all_ones(s: Seq<u8>)
    requires
        forall|i: int| 0 <= i < s.len() ==> s[i] == 255,
    ensures
        le_value(s) + 1 == pow256(s.len()),
    decreases s.len(),
{
    if s.len() > 0 {
        lemma_all_ones(s.drop_last());
    }
}

proof fn lemma_normal_significant(s: Seq<u8>)
    requires
        is_normal(s),
    ensures
        significant_len(s) == s.len(),
{
}

/// A normal byte sequence holds at most 32 bytes exactly when its value fits
/// in 256 bits.
proof fn lemma_normal_fits(s: Seq<u8>)
    requires
        is_normal(s),
    ensures
        s.len() <= 32 <==> le_value(s) <= u256_max_value(),
{
    lemma_value_bound(s);
    crate::bignat::lemma_pow256_positive(32);
    if s.len() <= 32 {
        crate::bignat::lemma_pow256_monotonic(s.len(), 32);
    } else {
        crate::bignat::lemma_pow256_monotonic(32, (s.len() - 1) as nat);
    }
}

/// Extra most-significant zero bytes change neither the value nor whether the
/// construction succeeds; more than 32 significant bytes always overflow.
pub proof fn lemma_trailing_zeros_normalize(s: Seq<u8>, k: nat)
    ensures
        le_value(s + Seq::new(k, |i: int| 0u8)) == le_value(s),
        significant_len(s + Seq::new(k, |i: int| 0u8)) == significant_len(s),
    decreases k,
{
    let z = Seq::new(k, |i: int| 0u8);
    if k == 0 {
        assert(s + z =~= s);
    } else {
        let z1 = Seq::new((k - 1) as nat, |i: int| 0u8);
        lemma_trailing_zeros_normalize(s, (k - 1) as nat);
        assert((s + z).drop_last() =~= s + z1);
        assert((s + z).last() == 0u8);
        assert(le_value(s + z) == le_value((s + z).drop_last()) + (s + z).last() as nat * pow256(
            ((s + z).len() - 1) as nat,
        ));
    }
}

} // verus!
