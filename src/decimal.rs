use vstd::prelude::*;
use vstd::string::StrSliceExecFns;

verus! {

/// Why text did not parse as an integer of a given width.
#[derive(Debug, Clone, Copy, PartialEq, Eq, Structural)]
pub enum IntErrorKind {
    Empty,
    InvalidDigit,
    PosOverflow,
    NegOverflow,
    Zero,
}

pub open spec fn is_digit(c: char) -> bool {
    '0' <= c && c <= '9'
}

pub open spec fn digit_value(c: char) -> nat {
    (c as nat - '0' as nat) as nat
}

pub open spec fn digit_char(d: nat) -> char
    recommends
        d < 10,
{
    ((d + '0' as nat) as u8) as char
}

/// The shortest decimal text of `n`.
pub open spec fn decimal(n: nat) -> Seq<char>
    decreases n,
{
    if n < 10 {
        seq![digit_char(n)]
    } else {
        decimal(n / 10).push(digit_char(n % 10))
    }
}

/// Reading the digits of `s` from the left, no value above `max` allowed:
/// the value, or the first failure met.
pub open spec fn scan_digits(s: Seq<char>, max: nat) -> Result<nat, IntErrorKind>
    decreases s.len(),
{
    if s.len() == 0 {
        Ok(0)
    } else {
        match scan_digits(s.drop_last(), max) {
            Err(e) => Err(e),
            Ok(acc) => if !is_digit(s.last()) {
                Err(IntErrorKind::InvalidDigit)
            } else if acc * 10 + digit_value(s.last()) > max {
                Err(IntErrorKind::PosOverflow)
            } else {
                Ok(acc * 10 + digit_value(s.last()))
            },
        }
    }
}

/// Unsigned decimal text no greater than `max`: an optional `+`, then digits.
pub open spec fn parse_unsigned_spec(s: Seq<char>, max: nat) -> Result<nat, IntErrorKind> {
    if s.len() == 0 {
        Err(IntErrorKind::Empty)
    } else if s[0] == '+' {
        if s.len() == 1 {
            Err(IntErrorKind::InvalidDigit)
        } else {
            scan_digits(s.drop_first(), max)
        }
    } else {
        scan_digits(s, max)
    }
}

/// Decimal text of any number up to `max` reads back as that number.
pub proof fn lemma_decimal_round_trip(n: nat, max: nat)
    requires
        n <= max,
    ensures
        scan_digits(decimal(n), max) == Ok::<nat, IntErrorKind>(n),
        parse_unsigned_spec(decimal(n), max) == Ok::<nat, IntErrorKind>(n),
        decimal(n).len() > 0,
        decimal(n)[0] != '+',
    decreases n,
{
    lemma_digit_char((n % 10) as nat);
    if n < 10 {
        assert(decimal(n).drop_last() =~= Seq::<char>::empty());
        assert(scan_digits(decimal(n).drop_last(), max) == Ok::<nat, IntErrorKind>(0));
    } else {
        lemma_decimal_round_trip(n / 10, max);
        assert(decimal(n).drop_last() =~= decimal(n / 10));
    }
}

pub proof fn lemma_digit_char(d: nat)
    requires
        d < 10,
    ensures
        is_digit(digit_char(d)),
        digit_value(digit_char(d)) == d,
        digit_char(d) != '+',
{
    assert(((d + '0' as nat) as u8) as char as nat == d + 48);
}

/// Reads `s` as an unsigned decimal number no greater than `max`.
pub fn parse_unsigned(s: &str, max: u64) -> (r: Result<u64, IntErrorKind>)
    ensures
        match parse_unsigned_spec(s@, max as nat) {
            Ok(v) => r == Ok::<u64, IntErrorKind>(v as u64),
            Err(e) => r == Err::<u64, IntErrorKind>(e),
        },
{
    let len = s.unicode_len();
    if len == 0 {
        return Err(IntErrorKind::Empty);
    }
    let mut start: usize = 0;
    if s.get_char(0) == '+' {
        if len == 1 {
            return Err(IntErrorKind::InvalidDigit);
        }
        start = 1;
    }
    let ghost digits = s@.subrange(start as int, len as int);
    assert(start == 1 ==> digits =~= s@.drop_first());
    assert(start == 0 ==> digits =~= s@);
    assert(start == 0 ==> s@[0] != '+');
    assert(s@.subrange(start as int, start as int) =~= Seq::<char>::empty());
    assert(parse_unsigned_spec(s@, max as nat) == scan_digits(digits, max as nat));
    let mut acc: u128 = 0;
    let mut i: usize = start;
    while i < len
        invariant
            len == s@.len(),
            start <= i <= len,
            digits == s@.subrange(start as int, len as int),
            parse_unsigned_spec(s@, max as nat) == scan_digits(digits, max as nat),
            scan_digits(s@.subrange(start as int, i as int), max as nat) == Ok::<nat, IntErrorKind>(
                acc as nat,
            ),
            acc <= max,
        decreases len - i,
    {
        let c = s.get_char(i);
        assert(s@.subrange(start as int, i + 1).drop_last() =~= s@.subrange(start as int, i as int));
        assert(s@.subrange(start as int, i + 1).last() == c);
        if !('0' <= c && c <= '9') {
            proof {
                assert(scan_digits(s@.subrange(start as int, i + 1), max as nat) == Err::<nat, IntErrorKind>(IntErrorKind::InvalidDigit));
                assert(digits.take((i + 1 - start) as int) =~= s@.subrange(start as int, i + 1));
                lemma_scan_error_persists(digits, max as nat, (i + 1 - start) as nat);
                assert(scan_digits(digits, max as nat) == Err::<nat, IntErrorKind>(IntErrorKind::InvalidDigit));
                assert(parse_unsigned_spec(s@, max as nat) == scan_digits(digits, max as nat));
            }
            return Err(IntErrorKind::InvalidDigit);
        }
        let d: u128 = (c as u32 - '0' as u32) as u128;
        let next: u128 = acc * 10 + d;
        if next > max as u128 {
            proof {
                assert(scan_digits(s@.subrange(start as int, i + 1), max as nat) == Err::<nat, IntErrorKind>(IntErrorKind::PosOverflow));
                assert(digits.take((i + 1 - start) as int) =~= s@.subrange(start as int, i + 1));
                lemma_scan_error_persists(digits, max as nat, (i + 1 - start) as nat);
                assert(scan_digits(digits, max as nat) == Err::<nat, IntErrorKind>(IntErrorKind::PosOverflow));
                assert(parse_unsigned_spec(s@, max as nat) == scan_digits(digits, max as nat));
            }
            return Err(IntErrorKind::PosOverflow);
        }
        acc = next;
        i = i + 1;
    }
    assert(s@.subrange(start as int, len as int) =~= digits);
    Ok(acc as u64)
}

/// Once a prefix fails, the whole text fails the same way.
pub proof fn lemma_scan_error_persists(s: Seq<char>, max: nat, k: nat)
    requires
        k <= s.len(),
    ensures
        scan_digits(s.take(k as int), max) is Err ==> scan_digits(s, max) == scan_digits(
            s.take(k as int),
            max,
        ),
    decreases s.len() - k,
{
    if k < s.len() {
        lemma_scan_error_persists(s, max, k + 1);
        assert(s.take((k + 1) as int).drop_last() =~= s.take(k as int));
    } else {
        assert(s.take(k as int) =~= s);
    }
}

/// Whether `s` holds exactly the characters of `t`.
pub fn str_eq(s: &str, t: &str) -> (r: bool)
    ensures
        r == (s@ == t@),
{
    let n = s.unicode_len();
    if n != t.unicode_len() {
        return false;
    }
    let mut i: usize = 0;
    while i < n
        invariant
            n == s@.len() == t@.len(),
            i <= n,
            forall|j: int| 0 <= j < i ==> s@[j] == t@[j],
        decreases n - i,
    {
        if s.get_char(i) != t.get_char(i) {
            return false;
        }
        i = i + 1;
    }
    assert(s@ =~= t@);
    true
}

/// Relies on the `Display` of `u128` in std: the shortest decimal text.
#[verifier::external_body]
pub(crate) fn u128_to_decimal(n: u128) -> (r: String)
    ensures
        r@ == decimal(n as nat),
{
    n.to_string()
}

/// `s` without its leading `'0'`s.
pub open spec fn strip_zeros(s: Seq<char>) -> Seq<char>
    decreases s.len(),
{
    if s.len() > 0 && s[0] == '0' {
        strip_zeros(s.drop_first())
    } else {
        s
    }
}

/// The shortest form of unsigned decimal text: no `+`, no leading zeros, and
/// `"0"` where only zeros are left.
pub open spec fn canonical_decimal(s: Seq<char>) -> Seq<char> {
    let d = if s.len() > 0 && s[0] == '+' { s.drop_first() } else { s };
    if strip_zeros(d).len() == 0 { seq!['0'] } else { strip_zeros(d) }
}

proof fn lemma_strip_append(p: Seq<char>, q: Seq<char>)
    ensures
        strip_zeros(p + q) == if strip_zeros(p).len() == 0 {
            strip_zeros(q)
        } else {
            strip_zeros(p) + q
        },
    decreases p.len(),
{
    if p.len() == 0 {
        assert(p + q =~= q);
    } else if p[0] == '0' {
        lemma_strip_append(p.drop_first(), q);
        assert((p + q).drop_first() =~= p.drop_first() + q);
    } else {
        assert((p + q)[0] == p[0]);
    }
}

proof fn lemma_digit_round(c: char)
    requires
        is_digit(c),
    ensures
        digit_char(digit_value(c)) == c,
        digit_value(c) < 10,
        (c == '0') == (digit_value(c) == 0),
{
    lemma_digit_char(digit_value(c));
    assert(digit_char(digit_value(c)) as nat == c as nat);
}

/// Digits that read as `n` are, without their leading zeros, the decimal text
/// of `n` (nothing at all when `n` is zero).
pub proof fn lemma_scan_canonical(s: Seq<char>, max: nat)
    requires
        scan_digits(s, max) is Ok,
    ensures
        scan_digits(s, max)->Ok_0 == 0 ==> strip_zeros(s).len() == 0,
        scan_digits(s, max)->Ok_0 > 0 ==> strip_zeros(s) == decimal(scan_digits(s, max)->Ok_0),
    decreases s.len(),
{
    if s.len() == 0 {
    } else {
        let p = s.drop_last();
        let c = s.last();
        lemma_scan_canonical(p, max);
        lemma_digit_round(c);
        let m = scan_digits(p, max)->Ok_0;
        let n = scan_digits(s, max)->Ok_0;
        assert(s =~= p + seq![c]);
        lemma_strip_append(p, seq![c]);
        assert(seq![c].drop_first() =~= Seq::<char>::empty());
        if m == 0 {
            if c == '0' {
                assert(seq![c][0] == '0');
                assert(strip_zeros(seq![c]) == strip_zeros(Seq::<char>::empty()));
            }
            if c != '0' {
                assert(decimal(n) == seq![digit_char(n)]);
            }
        } else {
            assert(n / 10 == m && n % 10 == digit_value(c));
            assert(decimal(n) == decimal(m).push(c));
            assert(decimal(m) + seq![c] =~= decimal(m).push(c));
            lemma_decimal_round_trip(m, m);
        }
    }
}

/// What the digits read as never exceeds the bound.
pub proof fn lemma_scan_bounded(s: Seq<char>, max: nat)
    ensures
        scan_digits(s, max) matches Ok(v) ==> v <= max,
    decreases s.len(),
{
    if s.len() > 0 {
        lemma_scan_bounded(s.drop_last(), max);
    }
}

/// Text that reads as an unsigned number `n` is, in its shortest form, the
/// decimal text of `n`.
pub proof fn lemma_parse_canonical(s: Seq<char>, max: nat)
    requires
        parse_unsigned_spec(s, max) is Ok,
    ensures
        canonical_decimal(s) == decimal(parse_unsigned_spec(s, max)->Ok_0),
        parse_unsigned_spec(s, max)->Ok_0 <= max,
{
    let d = if s.len() > 0 && s[0] == '+' { s.drop_first() } else { s };
    lemma_scan_canonical(d, max);
    lemma_scan_bounded(d, max);
    reveal_strlit("0");
    lemma_digit_char(0);
}

} // verus!
