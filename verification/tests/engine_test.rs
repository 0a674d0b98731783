use diodon::engine::{absorb, digest_tail, mix_table, table_index};
use diodon::util::memory_blocks;
use diodon::{
    diodon_non_privileged, diodon_non_privileged_in, diodon_privileged, non_priviledged,
    privileged, DiodonError, Natural, Params, PrivateKey,
};
use num_bigint::BigUint;

const P_1024: &[u8] = b"138154375592216506317406833347480794151135359156985136226058739441317232969359215666883048156303905347167585362049791808140291742161041436935911667281520624494327845377621238269655349853869338664638587537443448410326271340862757680139090487799781391799061369299343370912316229801139344805020703321280063177759";
const Q_1024: &[u8] = b"156968538006454153552154918080725604889881249793955878307143380021187327061208436911326291489110631759094141457413830907419424449436820339912357318330772975266767639408357800395570329480229784588927678308046854933619619353739869481851305550105159797781519661688972486987059268302270270193066850179922150396937";
const P_512: &[u8] = b"13270159569298364102590828989123999927823242049974571921817075346300096102090311023718167382683031794589299932545623449542461777499628836970633616840367291";
const Q_512: &[u8] = b"12772322319733548247851901381850054224408980869676616358291561606873489416423155106454795516367791954119113161475136097310823566024399906461641393526506223";

fn decimal(digits: &[u8]) -> Natural {
    Natural::from_bytes_le(&BigUint::parse_bytes(digits, 10).unwrap().to_bytes_le())
}

fn big(number: &Natural) -> BigUint {
    BigUint::from_bytes_be(&number.to_bytes_be())
}

/// The table path written out with plain big integers: one squaring at a
/// time, indices through division.
fn by_the_book(msg: &[u8], n: &BigUint, m: usize, l: usize, t: usize, u: usize) -> Vec<u8> {
    let mut table: Vec<BigUint> = vec![BigUint::from_bytes_le(msg)];
    for i in 1..m {
        let mut entry = table[i - 1].clone();
        for _ in 0..t {
            entry = &entry * &entry % n;
        }
        table.push(entry);
    }
    let mut state = table[m - 1].to_bytes_be();
    for _ in 0..l {
        let index = BigUint::from_bytes_be(&state) % BigUint::from(m);
        let j = index.to_u64_digits().first().copied().unwrap_or(0) as usize;
        assert!(j < m);
        state.extend(table[j].to_bytes_be());
        state = blake3::hash(&state).as_bytes().to_vec();
    }
    state[state.len() - u..].to_vec()
}

#[test]
fn hard_equals_privileged_with_1024_bit_primes() {
    let q = decimal(Q_1024);
    let p = decimal(P_1024);
    let rsa_n = p.mul(&q);
    let cipher: &[u8] = b"Hello Diodon";
    let m = 24usize;
    let l = 24usize;
    let u_bytes: usize = 16;
    let time_complexity = 16;
    let hashed_easy = diodon_privileged(cipher, &p, &q, m, l, time_complexity, u_bytes).unwrap();
    let hashed_hard =
        diodon_non_privileged(cipher, &rsa_n, m, l, time_complexity, u_bytes).unwrap();
    assert_eq!(hashed_hard, hashed_easy);
    assert_eq!(hashed_hard.len(), 16);
    assert_eq!(
        hashed_hard,
        by_the_book(cipher, &big(&rsa_n), m, l, time_complexity, u_bytes)
    );
}

#[test]
fn hard_equals_privileged_with_512_bit_primes() {
    let q = decimal(Q_512);
    let p = decimal(P_512);
    let rsa_n = p.mul(&q);
    let cipher: usize = 21;
    let m = 40;
    let l = 40;
    let u_bytes: usize = 16;
    let time_complexity = 32;
    let hashed_hard =
        diodon_non_privileged(&cipher.to_le_bytes(), &rsa_n, m, l, time_complexity, u_bytes)
            .unwrap();
    let hashed_easy =
        diodon_privileged(&cipher.to_le_bytes(), &p, &q, m, l, time_complexity, u_bytes).unwrap();
    assert_eq!(hashed_hard, hashed_easy);
    assert_eq!(
        hashed_hard,
        by_the_book(&[21], &big(&rsa_n), m, l, time_complexity, u_bytes)
    );
}

#[test]
fn paths_agree_on_small_primes() {
    let primes: [(u64, u64); 4] = [(1009, 2003), (65537, 65539), (7, 11), (4294967311, 1000003)];
    let messages: [&[u8]; 4] = [b"\x02", b"\x05\x01", b"AB", b"\x03\x00\x00"];
    for (p, q) in primes {
        let rsa_p = Natural::from_u64(p);
        let rsa_q = Natural::from_u64(q);
        let rsa_n = rsa_p.mul(&rsa_q);
        for msg in messages {
            if BigUint::from_bytes_le(msg) >= big(&rsa_n) {
                continue;
            }
            let shapes = [(1usize, 0usize, 1usize), (1, 3, 1), (5, 7, 1), (9, 20, 3), (33, 50, 0)];
            for (m, l, t) in shapes {
                for u in [0usize, 1, 16, 32] {
                    let easy = diodon_privileged(msg, &rsa_p, &rsa_q, m, l, t, u);
                    let hard = diodon_non_privileged(msg, &rsa_n, m, l, t, u);
                    assert_eq!(easy, hard);
                    if l >= 1 {
                        assert_eq!(hard.unwrap(), by_the_book(msg, &big(&rsa_n), m, l, t, u));
                    }
                }
            }
        }
    }
}

#[test]
fn known_digest_of_a_small_run() {
    let rsa_p = Natural::from_u64(1009);
    let rsa_q = Natural::from_u64(2003);
    let rsa_n = rsa_p.mul(&rsa_q);
    let expected: Vec<u8> =
        vec![219, 205, 161, 204, 74, 5, 205, 25, 124, 136, 230, 129, 149, 229, 118, 45];
    let hard = diodon_non_privileged(b"\x02", &rsa_n, 5, 7, 1, 16).unwrap();
    let easy = diodon_privileged(b"\x02", &rsa_p, &rsa_q, 5, 7, 1, 16).unwrap();
    assert_eq!(hard, expected);
    assert_eq!(easy, expected);
}

#[test]
fn empty_message_gives_equal_digests() {
    let rsa_p = Natural::from_u64(1009);
    let rsa_q = Natural::from_u64(2003);
    let rsa_n = rsa_p.mul(&rsa_q);
    let table = memory_blocks(&Natural::from_bytes_le(b""), 6, 2, &rsa_n).unwrap();
    assert_eq!(table.len(), 6);
    for entry in &table {
        assert!(entry.is_zero());
        assert_eq!(entry.to_bytes_be(), vec![0u8]);
    }
    let hard = diodon_non_privileged(b"", &rsa_n, 6, 9, 2, 16).unwrap();
    let easy = diodon_privileged(b"", &rsa_p, &rsa_q, 6, 9, 2, 16).unwrap();
    assert_eq!(hard, easy);
    assert_eq!(hard.len(), 16);
    assert_eq!(hard, by_the_book(b"", &big(&rsa_n), 6, 9, 2, 16));
    // Without mixing the state is the encoding of zero: one zero byte.
    assert_eq!(diodon_non_privileged(b"", &rsa_n, 6, 0, 2, 1), Ok(vec![0u8]));
    assert_eq!(diodon_privileged(b"", &rsa_p, &rsa_q, 6, 0, 2, 1), Ok(vec![0u8]));
}

#[test]
fn empty_message_with_1024_bit_primes() {
    let q = decimal(Q_1024);
    let p = decimal(P_1024);
    let rsa_n = p.mul(&q);
    let hard = diodon_non_privileged(b"", &rsa_n, 10, 10, 4, 16).unwrap();
    let easy = diodon_privileged(b"", &p, &q, 10, 10, 4, 16).unwrap();
    assert_eq!(hard, easy);
}

#[test]
fn repeated_runs_give_the_same_digest() {
    let rsa_p = Natural::from_u64(65537);
    let rsa_q = Natural::from_u64(65539);
    let rsa_n = rsa_p.mul(&rsa_q);
    let first = diodon_non_privileged(b"AB", &rsa_n, 12, 12, 2, 16);
    let second = diodon_non_privileged(b"AB", &rsa_n, 12, 12, 2, 16);
    assert_eq!(first, second);
    let first = diodon_privileged(b"AB", &rsa_p, &rsa_q, 12, 12, 2, 16);
    let second = diodon_privileged(b"AB", &rsa_p, &rsa_q, 12, 12, 2, 16);
    assert_eq!(first, second);
}

#[test]
fn digest_has_the_length_asked_for() {
    let rsa_p = Natural::from_u64(1009);
    let rsa_q = Natural::from_u64(2003);
    let rsa_n = rsa_p.mul(&rsa_q);
    for u in 0usize..=32 {
        assert_eq!(diodon_non_privileged(b"\x07", &rsa_n, 3, 2, 1, u).unwrap().len(), u);
        assert_eq!(diodon_privileged(b"\x07", &rsa_p, &rsa_q, 3, 2, 1, u).unwrap().len(), u);
    }
}

#[test]
fn digest_is_the_tail_of_the_state() {
    let rsa_n = Natural::from_u64(1009 * 2003);
    let whole = diodon_non_privileged(b"\x07", &rsa_n, 3, 2, 1, 32).unwrap();
    for u in 0usize..=32 {
        let digest = diodon_non_privileged(b"\x07", &rsa_n, 3, 2, 1, u).unwrap();
        assert_eq!(digest, whole[32 - u..].to_vec());
    }
    assert_eq!(digest_tail(&[1, 2, 3], 2), Ok(vec![2u8, 3]));
    assert_eq!(digest_tail(&[1, 2, 3], 3), Ok(vec![1u8, 2, 3]));
    assert_eq!(digest_tail(&[1, 2, 3], 0), Ok(vec![]));
    assert_eq!(digest_tail(&[1, 2, 3], 4), Err(DiodonError::InvalidParameters));
}

#[test]
fn table_index_is_the_state_modulo_the_table_size() {
    assert_eq!(table_index(&[1, 0], 7), 4);
    assert_eq!(table_index(&[0], 7), 0);
    assert_eq!(table_index(&[255], 255), 0);
    assert_eq!(table_index(&[1, 2, 3], 1), 0);
    let state = blake3::hash(b"state").as_bytes().to_vec();
    for m in [1usize, 2, 40, 4000, 8_000_000] {
        let j = table_index(&state, m);
        assert!(j < m);
        assert_eq!(BigUint::from(j), BigUint::from_bytes_be(&state) % BigUint::from(m));
    }
}

#[test]
fn absorb_appends_the_entry_bytes() {
    assert_eq!(absorb(vec![9, 9], &Natural::from_u64(258)), vec![9u8, 9, 1, 2]);
    assert_eq!(absorb(vec![9, 9], &Natural::from_u64(0)), vec![9u8, 9, 0]);
    assert_eq!(absorb(vec![], &Natural::from_u64(7)), vec![7u8]);
}

#[test]
fn one_round_hashes_state_and_entry() {
    let table = vec![Natural::from_u64(5)];
    assert_eq!(mix_table(&table, 0), vec![5u8]);
    assert_eq!(mix_table(&table, 1), blake3::hash(&[5, 5]).as_bytes().to_vec());
    let table = vec![Natural::from_u64(258), Natural::from_u64(3)];
    // The state [3] selects entry 3 mod 2 == 1, whose bytes are [3].
    let first = blake3::hash(&[3, 3]).as_bytes().to_vec();
    assert_eq!(mix_table(&table, 1), first);
    let j = table_index(&first, 2);
    let mut input = first.clone();
    input.extend(table[j].to_bytes_be());
    assert_eq!(mix_table(&table, 2), blake3::hash(&input).as_bytes().to_vec());
    assert_eq!(mix_table(&table, 2).len(), 32);
}

#[test]
fn invalid_parameters_are_refused() {
    let rsa_p = Natural::from_u64(1009);
    let rsa_q = Natural::from_u64(2003);
    let rsa_n = rsa_p.mul(&rsa_q);
    let refused = Err(DiodonError::InvalidParameters);
    assert_eq!(diodon_non_privileged(b"\x02", &rsa_n, 0, 7, 1, 16), refused);
    assert_eq!(diodon_privileged(b"\x02", &rsa_p, &rsa_q, 0, 7, 1, 16), refused);
    assert_eq!(diodon_non_privileged(b"\x02", &rsa_n, 5, 7, 1, 33), refused);
    assert_eq!(diodon_privileged(b"\x02", &rsa_p, &rsa_q, 5, 7, 1, 33), refused);
    // Without a round of mixing the state is one byte, which cannot fill two.
    assert_eq!(diodon_non_privileged(b"\x02", &rsa_n, 1, 0, 1, 2), refused);
    assert_eq!(diodon_privileged(b"\x02", &rsa_p, &rsa_q, 1, 0, 1, 2), refused);
    assert_eq!(diodon_non_privileged(b"\x02", &rsa_n, 1, 0, 1, 1), Ok(vec![2u8]));
    assert_eq!(diodon_privileged(b"\x02", &rsa_p, &rsa_q, 1, 0, 1, 1), Ok(vec![2u8]));
}

#[test]
fn invalid_parameter_records_are_refused() {
    let good = Params { m: 5, l: 7, time_complexity: 1, key_bit_size: 16, hash_bytes_size: 16 };
    let records = [
        Params { m: 0, ..good },
        Params { key_bit_size: 0, ..good },
        Params { hash_bytes_size: 33, ..good },
    ];
    for params in records {
        let key = PrivateKey::new(Natural::from_u64(1009), Natural::from_u64(2003)).unwrap();
        let public = key.public_key();
        assert_eq!(privileged(b"\x02", key, &params), Err(DiodonError::InvalidParameters));
        assert_eq!(non_priviledged(b"\x02", public, &params), Err(DiodonError::InvalidParameters));
    }
    let key = PrivateKey::new(Natural::from_u64(1009), Natural::from_u64(2003)).unwrap();
    let public = key.public_key();
    let easy = privileged(b"\x02", key, &good).unwrap();
    let hard = non_priviledged(b"\x02", public, &good).unwrap();
    assert_eq!(easy, hard);
    assert_eq!(easy.len(), 16);
}

#[test]
fn moduli_outside_the_arithmetic_are_refused() {
    let refused = Err(DiodonError::ArithmeticPreconditionViolated);
    let zero = Natural::from_u64(0);
    let one = Natural::from_u64(1);
    let seven = Natural::from_u64(7);
    assert_eq!(diodon_non_privileged(b"\x02", &zero, 5, 7, 1, 16), refused);
    assert_eq!(diodon_privileged(b"\x02", &one, &seven, 5, 7, 1, 16), refused);
    assert_eq!(diodon_privileged(b"\x02", &seven, &one, 5, 7, 1, 16), refused);
    assert_eq!(diodon_privileged(b"\x02", &zero, &seven, 5, 7, 1, 16), refused);
    assert!(diodon_non_privileged(b"\x02", &one, 5, 7, 1, 16).is_ok());
}

#[test]
fn a_message_above_the_modulus_is_not_reduced_in_the_table() {
    // With one entry and no mixing the state is the message itself for the
    // table path, and the message modulo N for the holder of the factors.
    let rsa_p = Natural::from_u64(3);
    let rsa_q = Natural::from_u64(5);
    let rsa_n = rsa_p.mul(&rsa_q);
    assert_eq!(diodon_non_privileged(&[16], &rsa_n, 1, 0, 1, 1), Ok(vec![16u8]));
    assert_eq!(diodon_privileged(&[16], &rsa_p, &rsa_q, 1, 0, 1, 1), Ok(vec![1u8]));
}

#[test]
fn zero_meets_a_totient_that_is_a_power_of_two() {
    // The totient of 15 is 8, and 2^3 reduces to the exponent zero.
    let rsa_p = Natural::from_u64(3);
    let rsa_q = Natural::from_u64(5);
    let rsa_n = rsa_p.mul(&rsa_q);
    assert_eq!(diodon_non_privileged(b"", &rsa_n, 4, 0, 1, 1), Ok(vec![0u8]));
    assert_eq!(diodon_privileged(b"", &rsa_p, &rsa_q, 4, 0, 1, 1), Ok(vec![1u8]));
}

#[test]
fn digest_in_reserved_room_is_the_digest() {
    let rsa_n = Natural::from_u64(1009 * 2003);
    let direct = diodon_non_privileged(b"AB", &rsa_n, 9, 20, 3, 16);
    let with_capacity =
        diodon_non_privileged_in(Vec::with_capacity(9), b"AB", &rsa_n, 9, 20, 3, 16);
    let without = diodon_non_privileged_in(Vec::new(), b"AB", &rsa_n, 9, 20, 3, 16);
    assert_eq!(direct, with_capacity);
    assert_eq!(direct, without);
    assert_eq!(direct.unwrap(), by_the_book(b"AB", &big(&rsa_n), 9, 20, 3, 16));
    let refused = Err(DiodonError::InvalidParameters);
    assert_eq!(diodon_non_privileged_in(Vec::new(), b"AB", &rsa_n, 0, 20, 3, 16), refused);
    assert_eq!(diodon_non_privileged_in(Vec::new(), b"AB", &rsa_n, 9, 20, 3, 33), refused);
    assert_eq!(
        diodon_non_privileged_in(Vec::new(), b"AB", &Natural::from_u64(0), 9, 20, 3, 16),
        Err(DiodonError::ArithmeticPreconditionViolated)
    );
}
