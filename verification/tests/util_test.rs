use diodon::util::{crt_pow_mod, inverse, squaring};
use diodon::Natural;
use num_bigint::BigUint;

fn natural(number: &BigUint) -> Natural {
    Natural::from_bytes_le(&number.to_bytes_le())
}

fn parse(digits: &[u8]) -> Natural {
    natural(&BigUint::parse_bytes(digits, 10).unwrap())
}

#[test]
fn util_test_2pow2pow2() {
    let b = parse(b"2");
    let e = 2usize;
    let n = parse(b"1_000");
    let result = squaring(&b, e, &n);
    assert_eq!(result, natural(&16usize.into()));
}

#[test]
fn util_test_2pow2pow3() {
    let b = parse(b"2");
    let e = 3usize;
    let n = parse(b"1_000");
    let result = squaring(&b, e, &n);
    assert_eq!(result, natural(&256usize.into()));
}

#[test]
fn util_test_2pow2pow4() {
    let b = parse(b"2");
    let e = 4usize;
    let n = parse(b"1_000_000");
    let result = squaring(&b, e, &n);
    assert_eq!(result, natural(&65536usize.into()));
}

#[test]
fn util_test_2pow2pow10() {
    let b = parse(b"2");
    let e = 10usize;
    let n = parse(b"1_000_000");
    let result = squaring(&b, e, &n);
    assert_eq!(result, natural(&137216usize.into()));
}

#[test]
fn util_test_1024pow2pow1024() {
    let b = parse(b"1024");
    let e = 1024usize;
    let n = parse(b"1_000_000");
    let result = squaring(&b, e, &n);
    assert_eq!(result, natural(&662976usize.into()));
}

#[test]
fn test_inverse() {
    let p = Natural::from_u64(31);
    let q = Natural::from_u64(37);
    let expected = Natural::from_u64(6);
    assert_eq!(inverse(&p, &q), Ok(expected));
}

#[test]
fn test_crt_pow_mod() {
    let c = Natural::from_u64(5);
    let d = Natural::from_u64(200);

    let p = Natural::from_u64(37);
    let q = Natural::from_u64(31);

    let expected = Natural::from_u64(1048);

    assert_eq!(crt_pow_mod(&c, &d, &p, &q), Ok(expected));
}
