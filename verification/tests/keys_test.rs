use diodon::keys::{assemble_keys, from_biguint_dig_to_biguint, is_factor_size};
use diodon::{
    generate_keys, non_priviledged, privileged, DiodonError, Natural, Params, PrivateKey,
    PublicKey,
};

#[test]
fn generated_keys_are_matched() {
    let (private_key, public_key) = generate_keys(256).unwrap();
    let product = private_key.p().mul(private_key.q());
    assert_eq!(&product, public_key.n());
    assert!(private_key.p().at_least_two());
    assert!(private_key.q().at_least_two());
    assert_ne!(private_key.p(), private_key.q());
    assert!(public_key.n().has_bits(256));
    assert!(private_key.p().has_bits(128));
    assert!(private_key.q().has_bits(128));
    let one = Natural::from_u64(1);
    let totient = private_key.p().sub(&one).mul(&private_key.q().sub(&one));
    assert!(!totient.is_power_of_two());
}

#[test]
fn generated_keys_of_an_odd_size() {
    let (private_key, public_key) = generate_keys(129).unwrap();
    assert!(public_key.n().has_bits(129));
    assert!(is_factor_size(private_key.p(), 129));
    assert!(is_factor_size(private_key.q(), 129));
    assert!(private_key.p().has_bits(64) || private_key.p().has_bits(65));
    assert!(private_key.q().has_bits(64) || private_key.q().has_bits(65));
}

#[test]
fn a_key_of_no_bits_is_an_invalid_parameter() {
    assert!(matches!(generate_keys(0), Err(DiodonError::InvalidParameters)));
}

#[test]
fn key_generation_can_fail() {
    assert!(matches!(generate_keys(1), Err(DiodonError::KeyGenFailed)));
    assert!(matches!(generate_keys(3), Err(DiodonError::KeyGenFailed)));
}

#[test]
fn empty_message_with_generated_keys() {
    let params = Params { m: 12, l: 9, time_complexity: 2, key_bit_size: 256, hash_bytes_size: 16 };
    let (private_key, public_key) = generate_keys(params.key_bit_size).unwrap();
    let easy = privileged(b"", private_key, &params).unwrap();
    let hard = non_priviledged(b"", public_key, &params).unwrap();
    assert_eq!(easy, hard);
    assert_eq!(easy.len(), 16);
}

#[test]
fn key_material_is_checked() {
    let number = |v: u64| Natural::from_u64(v);
    let taken = assemble_keys(&vec![number(37), number(31)], number(1147), 11);
    let (private_key, public_key) = taken.unwrap();
    assert_eq!(private_key.p(), &number(37));
    assert_eq!(private_key.q(), &number(31));
    assert_eq!(public_key.n(), &number(1147));

    let refused = |primes: Vec<Natural>, modulus: Natural, bits: usize| {
        matches!(assemble_keys(&primes, modulus, bits), Err(DiodonError::KeyGenFailed))
    };
    assert!(refused(vec![number(37), number(31)], number(1148), 11));
    assert!(refused(vec![number(37), number(31)], number(1147), 10));
    assert!(refused(vec![number(37), number(31)], number(1147), 12));
    assert!(refused(vec![number(37), number(31)], number(1147), 0));
    assert!(refused(vec![number(37), number(37)], number(1369), 11));
    assert!(refused(vec![number(37)], number(37), 6));
    assert!(refused(vec![], number(1), 1));
    assert!(refused(vec![number(1), number(31)], number(31), 5));
    assert!(refused(vec![number(31), number(0)], number(0), 0));
    assert!(refused(vec![number(3), number(5), number(7)], number(105), 7));
    assert!(assemble_keys(&vec![number(5), number(7), number(3)], number(35), 6).is_ok());
    // Factors of the right product and a modulus of the right size, but not
    // of half its size each.
    assert!(refused(vec![number(3), number(43)], number(129), 8));
    assert!(refused(vec![number(43), number(3)], number(129), 8));
    assert!(refused(vec![number(3), number(5)], number(15), 4));
    // The totient of 3 and 5 is 8, a power of two.
    assert!(refused(vec![number(3), number(5)], number(15), 5));
    assert!(assemble_keys(&vec![number(11), number(13)], number(143), 8).is_ok());
}

#[test]
fn factor_size_is_half_the_modulus() {
    let number = |v: u64| Natural::from_u64(v);
    assert!(is_factor_size(&number(11), 8));
    assert!(is_factor_size(&number(15), 8));
    assert!(!is_factor_size(&number(7), 8));
    assert!(!is_factor_size(&number(16), 8));
    assert!(is_factor_size(&number(31), 11));
    assert!(is_factor_size(&number(37), 11));
    assert!(!is_factor_size(&number(15), 11));
    assert!(!is_factor_size(&number(64), 11));
    assert!(!is_factor_size(&number(1), 0));
    assert!(!is_factor_size(&number(0), 0));
    assert!(is_factor_size(&number(1), 1));
    assert!(is_factor_size(&number(1), 2));
}

#[test]
fn keys_from_known_factors() {
    let number = |v: u64| Natural::from_u64(v);
    let key = PrivateKey::new(number(37), number(31)).unwrap();
    assert_eq!(key.public_key().n(), &number(1147));
    assert!(matches!(
        PrivateKey::new(number(1), number(31)),
        Err(DiodonError::ArithmeticPreconditionViolated)
    ));
    assert!(matches!(
        PrivateKey::new(number(31), number(0)),
        Err(DiodonError::ArithmeticPreconditionViolated)
    ));
    assert!(matches!(
        PrivateKey::new(number(31), number(31)),
        Err(DiodonError::ArithmeticPreconditionViolated)
    ));
    assert!(matches!(
        PublicKey::new(number(0)),
        Err(DiodonError::ArithmeticPreconditionViolated)
    ));
    assert_eq!(PublicKey::new(number(1147)).unwrap().n(), &number(1147));
}

#[test]
fn numbers_of_the_rsa_crate_are_brought_over() {
    for value in [0u64, 1, 255, 256, 513, u64::MAX] {
        let theirs = rsa::BigUint::from(value);
        assert_eq!(from_biguint_dig_to_biguint(&theirs), Natural::from_u64(value));
    }
    let theirs = rsa::BigUint::from_bytes_be(b"Hello Diodon, hello factors");
    assert_eq!(
        from_biguint_dig_to_biguint(&theirs),
        Natural::from_bytes_be(b"Hello Diodon, hello factors")
    );
}

#[test]
fn errors_describe_themselves() {
    assert_eq!(DiodonError::InvalidParameters.describe(), "invalid parameters");
    assert_eq!(DiodonError::KeyGenFailed.describe(), "key generation failed");
    assert_eq!(DiodonError::OutOfMemory.describe(), "out of memory");
    assert_eq!(
        DiodonError::ArithmeticPreconditionViolated.describe(),
        "arithmetic precondition violated"
    );
}
