use forc_encode::{BigNat, CompileError, IntErrorKind, IntegerBits, Literal, Span, TypeInfo, U256};
use std::collections::hash_map::DefaultHasher;
use std::hash::{Hash, Hasher};

fn std_hash(l: &Literal) -> u64 {
    let mut h = DefaultHasher::new();
    l.hash(&mut h);
    h.finish()
}

fn span(text: &str) -> Span {
    Span::new(text.to_string(), 0, text.len())
}

#[test]
fn u256_bounds() {
    assert_eq!(U256::min().to_decimal_string(), "0");
    assert_eq!(
        U256::max().to_decimal_string(),
        "115792089237316195423570985008687907853269984665640564039457584007913129639935"
    );
}

#[test]
fn u256_trailing_zeros_are_dropped() {
    let short = U256::try_from_bytes_le(&[1, 2]).unwrap();
    let mut long = vec![1u8, 2];
    long.extend(std::iter::repeat(0).take(40));
    let padded = U256::try_from_bytes_le(&long).unwrap();
    assert_eq!(short, padded);
    assert_eq!(padded.to_bytes_le(), vec![1, 2]);
    assert_eq!(padded.to_decimal_string(), "513");
}

#[test]
fn u256_overflow() {
    let mut bytes = vec![0u8; 32];
    bytes.push(1);
    assert_eq!(U256::try_from_bytes_le(&bytes), Err(IntErrorKind::PosOverflow));
    let big = BigNat::from_bytes_le(&bytes);
    assert_eq!(U256::try_from(big), Err(IntErrorKind::PosOverflow));
    let fits = BigNat::from_bytes_le(&[255; 32]);
    assert_eq!(U256::try_from(fits).unwrap(), U256::max());
}

#[test]
fn literal_variants_never_collide() {
    let a = Literal::U8(5);
    let b = Literal::Boolean(true);
    assert_ne!(a, b);
    assert_ne!(a.hash_bytes(), b.hash_bytes());
    assert_eq!(a.hash_bytes(), vec![1, 5]);
    assert_eq!(b.hash_bytes(), vec![7, 1]);
    assert_ne!(std_hash(&a), std_hash(&b));
}

#[test]
fn literal_equality() {
    assert_eq!(Literal::String(span("abc")), Literal::String(Span::new("abc".to_string(), 7, 10)));
    assert_ne!(Literal::String(span("abc")), Literal::String(span("abd")));
    assert_eq!(
        std_hash(&Literal::String(span("abc"))),
        std_hash(&Literal::String(Span::new("abc".to_string(), 7, 10)))
    );
    assert_eq!(
        Literal::Numeric(BigNat::from_bytes_le(&[7, 0, 0])),
        Literal::Numeric(BigNat::from_bytes_le(&[7]))
    );
    assert_ne!(Literal::U16(1), Literal::U32(1));
    assert_eq!(Literal::B256([3; 32]), Literal::B256([3; 32]));
    assert_ne!(Literal::B256([3; 32]), Literal::B256([4; 32]));
}

#[test]
fn literal_hash_of_wide_values() {
    let a = Literal::U128(1 << 70);
    assert_eq!(a.hash_bytes().len(), 17);
    assert_eq!(a.hash_bytes()[0], 9);
    let u = Literal::U256(U256::try_from_bytes_le(&[1, 0, 2]).unwrap());
    assert_eq!(u.hash_bytes(), vec![10, 1, 0, 2]);
    assert_eq!(Literal::U16(0x0102).hash_bytes(), vec![2, 2, 1]);
}

#[test]
fn literal_display() {
    assert_eq!(Literal::U8(7).to_display_string(), "7");
    assert_eq!(Literal::U64(u64::MAX).to_display_string(), "18446744073709551615");
    assert_eq!(Literal::U128(u128::MAX).to_display_string(), "340282366920938463463374607431768211455");
    assert_eq!(Literal::Boolean(false).to_display_string(), "false");
    assert_eq!(Literal::String(span("hi there")).to_display_string(), "hi there");
    let two_pow_64 = BigNat::from_bytes_le(&[0, 0, 0, 0, 0, 0, 0, 0, 1]);
    assert_eq!(Literal::Numeric(two_pow_64).to_display_string(), "18446744073709551616");
    let mut b = [0u8; 32];
    b[0] = 10;
    b[31] = 255;
    let text = Literal::B256(b).to_display_string();
    assert!(text.starts_with("10, 0, 0, "));
    assert!(text.ends_with(", 0, 255"));
    assert_eq!(text.split(", ").count(), 32);
}

#[test]
fn literal_types() {
    assert_eq!(Literal::U8(1).to_typeinfo(), TypeInfo::UnsignedInteger(IntegerBits::Eight));
    assert_eq!(Literal::U256(U256::min()).to_typeinfo(), TypeInfo::UnsignedInteger(IntegerBits::V256));
    assert_eq!(Literal::Numeric(BigNat::from_bytes_le(&[1])).to_typeinfo(), TypeInfo::Numeric);
    assert_eq!(Literal::Boolean(true).to_typeinfo(), TypeInfo::Boolean);
    assert_eq!(Literal::B256([0; 32]).to_typeinfo(), TypeInfo::B256);
    assert_eq!(
        Literal::String(span("héllo")).to_typeinfo(),
        TypeInfo::Str { len: 6, span: span("héllo") }
    );
}

#[test]
fn parse_int_errors_are_classified() {
    let ty = TypeInfo::UnsignedInteger(IntegerBits::Eight);
    let s = span("300");
    assert_eq!(
        Literal::handle_parse_int_error(&IntErrorKind::PosOverflow, ty.clone(), s.clone()),
        CompileError::IntegerTooLarge { ty: ty.clone(), span: s.clone() }
    );
    assert_eq!(
        Literal::handle_parse_int_error(&IntErrorKind::NegOverflow, ty.clone(), s.clone()),
        CompileError::IntegerTooSmall { ty: ty.clone(), span: s.clone() }
    );
    assert_eq!(
        Literal::handle_parse_int_error(&IntErrorKind::InvalidDigit, ty.clone(), s.clone()),
        CompileError::IntegerContainsInvalidDigit { ty: ty.clone(), span: s.clone() }
    );
    assert!(matches!(
        Literal::handle_parse_int_error(&IntErrorKind::Empty, ty.clone(), s.clone()),
        CompileError::Internal { .. }
    ));
    assert!(matches!(
        Literal::handle_parse_int_error(&IntErrorKind::Zero, ty, s),
        CompileError::Internal { .. }
    ));
}
