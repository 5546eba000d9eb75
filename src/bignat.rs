use vstd::prelude::*;
use crate::decimal::decimal;

verus! {

/// 256 to the power `n`.
pub open spec fn pow256(n: nat) -> nat
    decreases n,
{
    if n == 0 {
        1
    } else {
        256 * pow256((n - 1) as nat)
    }
}

/// The number that little-endian bytes `s` stand for.
pub open spec fn le_value(s: Seq<u8>) -> nat
    decreases s.len(),
{
    if s.len() == 0 {
        0
    } else {
        le_value(s.drop_last()) + s.last() as nat * pow256((s.len() - 1) as nat)
    }
}

/// No most-significant zero byte is left.
pub open spec fn is_normal(s: Seq<u8>) -> bool {
    s.len() == 0 || s.last() != 0
}

/// The number of bytes left once the most-significant zero bytes are dropped.
pub open spec fn significant_len(s: Seq<u8>) -> nat
    decreases s.len(),
{
    if s.len() == 0 {
        0
    } else if s.last() == 0 {
        significant_len(s.drop_last())
    } else {
        s.len()
    }
}

pub proof fn lemma_significant_prefix(s: Seq<u8>)
    ensures
        significant_len(s) <= s.len(),
        is_normal(s.take(significant_len(s) as int)),
        le_value(s.take(significant_len(s) as int)) == le_value(s),
    decreases s.len(),
{
    if s.len() > 0 && s.last() == 0 {
        lemma_significant_prefix(s.drop_last());
        assert(s.drop_last().take(significant_len(s) as int) =~= s.take(significant_len(s) as int));
    } else {
        assert(s.take(s.len() as int) =~= s);
    }
}

pub proof fn lemma_pow256_positive(n: nat)
    ensures
        pow256(n) >= 1,
    decreases n,
{
    if n > 0 {
        lemma_pow256_positive((n - 1) as nat);
    }
}

pub proof fn lemma_pow256_monotonic(a: nat, b: nat)
    requires
        a <= b,
    ensures
        pow256(a) <= pow256(b),
    decreases b,
{
    if a < b {
        lemma_pow256_monotonic(a, (b - 1) as nat);
        lemma_pow256_positive((b - 1) as nat);
    }
}

pub proof fn lemma_value_bound(s: Seq<u8>)
    ensures
        le_value(s) < pow256(s.len()),
        is_normal(s) && s.len() > 0 ==> le_value(s) >= pow256((s.len() - 1) as nat),
    decreases s.len(),
{
    if s.len() > 0 {
        let p = pow256((s.len() - 1) as nat);
        let v = le_value(s.drop_last());
        let l = s.last() as nat;
        lemma_value_bound(s.drop_last());
        assert(v + l * p < 256 * p) by (nonlinear_arith)
            requires
                v < p,
                l <= 255,
        ;
        if is_normal(s) {
            assert(l * p >= p) by (nonlinear_arith)
                requires
                    l >= 1,
            ;
        }
    }
}

/// Two normal byte sequences with the same value are the same sequence.
pub proof fn lemma_normal_value_injective(a: Seq<u8>, b: Seq<u8>)
    requires
        is_normal(a),
        is_normal(b),
        le_value(a) == le_value(b),
    ensures
        a == b,
    decreases a.len(),
{
    lemma_value_bound(a);
    lemma_value_bound(b);
    if a.len() < b.len() {
        lemma_pow256_monotonic(a.len(), (b.len() - 1) as nat);
    } else if b.len() < a.len() {
        lemma_pow256_monotonic(b.len(), (a.len() - 1) as nat);
    } else if a.len() > 0 {
        let p = pow256((a.len() - 1) as nat);
        let va = le_value(a.drop_last());
        let vb = le_value(b.drop_last());
        let la = a.last() as nat;
        let lb = b.last() as nat;
        lemma_value_bound(a.drop_last());
        lemma_value_bound(b.drop_last());
        assert(la == lb) by (nonlinear_arith)
            requires
                va < p,
                vb < p,
                va + la * p == vb + lb * p,
        {
            if la < lb {
                assert(la * p + p <= lb * p);
            } else if lb < la {
                assert(lb * p + p <= la * p);
            }
        }
        lemma_same_len_value_injective(a.drop_last(), b.drop_last());
        assert(a =~= a.drop_last().push(a.last()));
        assert(b =~= b.drop_last().push(b.last()));
    } else {
        assert(a =~= b);
    }
}

/// Two byte sequences of one length with the same value are the same sequence.
pub proof fn lemma_same_len_value_injective(a: Seq<u8>, b: Seq<u8>)
    requires
        a.len() == b.len(),
        le_value(a) == le_value(b),
    ensures
        a == b,
    decreases a.len(),
{
    if a.len() > 0 {
        let p = pow256((a.len() - 1) as nat);
        let va = le_value(a.drop_last());
        let vb = le_value(b.drop_last());
        let la = a.last() as nat;
        let lb = b.last() as nat;
        lemma_value_bound(a.drop_last());
        lemma_value_bound(b.drop_last());
        assert(la == lb) by (nonlinear_arith)
            requires
                va < p,
                vb < p,
                va + la * p == vb + lb * p,
        {
            if la < lb {
                assert(la * p + p <= lb * p);
            } else if lb < la {
                assert(lb * p + p <= la * p);
            }
        }
        lemma_same_len_value_injective(a.drop_last(), b.drop_last());
        assert(a =~= a.drop_last().push(a.last()));
        assert(b =~= b.drop_last().push(b.last()));
    } else {
        assert(a =~= b);
    }
}

/// An unbounded natural number, held as its little-endian bytes with no
/// most-significant zero byte (zero is held as no bytes).
#[derive(Debug, Eq)]
pub struct BigNat {
    le: Vec<u8>,
}

impl BigNat {
    #[verifier::type_invariant]
    pub closed spec fn wf(&self) -> bool {
        is_normal(self.le@)
    }

    pub closed spec fn bytes(&self) -> Seq<u8> {
        self.le@
    }

    pub open spec fn value(&self) -> nat {
        le_value(self.bytes())
    }

    /// The number that little-endian `bytes` stand for; most-significant zero
    /// bytes are dropped.
    pub fn from_bytes_le(bytes: &[u8]) -> (r: BigNat)
        ensures
            r.value() == le_value(bytes@),
            r.bytes() == bytes@.take(significant_len(bytes@) as int),
    {
        let mut len: usize = bytes.len();
        assert(bytes@.take(len as int) =~= bytes@);
        while len > 0 && bytes[len - 1] == 0
            invariant
                len <= bytes@.len(),
                significant_len(bytes@.take(len as int)) == significant_len(bytes@),
            decreases len,
        {
            assert(bytes@.take(len as int).drop_last() =~= bytes@.take(len - 1));
            len = len - 1;
        }
        assert(bytes@.take(len as int) =~= bytes@.take(significant_len(bytes@) as int)) by {
            if len > 0 {
                assert(bytes@.take(len as int).last() != 0);
            }
        }
        proof {
            lemma_significant_prefix(bytes@);
        }
        let mut le: Vec<u8> = Vec::new();
        let mut i: usize = 0;
        while i < len
            invariant
                i <= len <= bytes@.len(),
                le@ =~= bytes@.take(i as int),
            decreases len - i,
        {
            le.push(bytes[i]);
            i = i + 1;
        }
        BigNat { le }
    }

    /// The little-endian bytes, with no most-significant zero byte.
    pub fn to_bytes_le(&self) -> (r: Vec<u8>)
        ensures
            r@ == self.bytes(),
            is_normal(r@),
            le_value(r@) == self.value(),
    {
        proof {
            use_type_invariant(self);
        }
        self.le.clone()
    }

    /// The number of significant bytes.
    pub fn byte_len(&self) -> (r: usize)
        ensures
            r == self.bytes().len(),
    {
        self.le.len()
    }

    /// Equality of the numbers.
    pub fn same_value(&self, other: &BigNat) -> (r: bool)
        ensures
            r == (self.value() == other.value()),
            r == (self.bytes() == other.bytes()),
    {
        proof {
            use_type_invariant(self);
            use_type_invariant(other);
        }
        let n = self.le.len();
        if n != other.le.len() {
            proof {
                if self.value() == other.value() {
                    lemma_normal_value_injective(self.le@, other.le@);
                }
            }
            return false;
        }
        let mut i: usize = 0;
        while i < n
            invariant
                n == self.le@.len() == other.le@.len(),
                is_normal(self.le@),
                is_normal(other.le@),
                i <= n,
                forall|j: int| 0 <= j < i ==> self.le@[j] == other.le@[j],
            decreases n - i,
        {
            if self.le[i] != other.le[i] {
                proof {
                    if self.value() == other.value() {
                        lemma_normal_value_injective(self.le@, other.le@);
                    }
                }
                return false;
            }
            i = i + 1;
        }
        assert(self.le@ =~= other.le@);
        true
    }

    /// The number as decimal text.
    pub fn to_decimal_string(&self) -> (r: String)
        ensures
            r@ == decimal(self.value()),
    {
        biguint_decimal(&self.le)
    }
}

impl Clone for BigNat {
    fn clone(&self) -> (r: BigNat)
        ensures
            r.bytes() == self.bytes(),
    {
        proof {
            use_type_invariant(self);
        }
        let le = self.le.clone();
        assert(le@ =~= self.le@);
        BigNat { le }
    }
}

impl PartialEq for BigNat {
    fn eq(&self, other: &BigNat) -> (r: bool) {
        self.same_value(other)
    }
}

impl vstd::std_specs::cmp::PartialEqSpecImpl for BigNat {
    open spec fn obeys_eq_spec() -> bool {
        true
    }

    open spec fn eq_spec(&self, other: &BigNat) -> bool {
        self.value() == other.value()
    }
}

/// Relies on `num_bigint::BigUint::from_bytes_le`, which reads little-endian
/// bytes, and on the `Display` of `BigUint`, which writes the shortest
/// decimal text of the number.
#[verifier::external_body]
fn biguint_decimal(le: &Vec<u8>) -> (r: String)
    ensures
        r@ == decimal(le_value(le@)),
{
    num_bigint::BigUint::from_bytes_le(le).to_string()
}

} // verus!
