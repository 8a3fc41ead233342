use hypertron::field::{amount_fr, fr_from_be_bytes_mod_order};
use hypertron::groth16::{check_vk_json, hex0x, proof_json, vk_json, VkJson, VkJsonError};
use hypertron::merkle;
use hypertron::note::{commitment, nullifier, owner_pk, Note};
use hypertron::parse::{check_hex_len, parse_bytes32, parse_fr, parse_hex, ParseError};
use hypertron::poseidon::poseidon2to1;
use hypertron::proof_verifier::VerifyingKey;
use hypertron::witness::{
    deposit_witness, leaves_to_fr, transfer_n_arity, transfer_n_sum, transfer_n_witness, transfer_witness,
    unshield_witness, DepositCircuit,
    TransferCircuit, TransferNCircuit, UnshieldCircuit, WitnessError,
};

fn fe(n: u64) -> [u8; 32] {
    let mut a = [0u8; 32];
    a[24..].copy_from_slice(&n.to_be_bytes());
    a
}

#[test]
fn parse_fr_accepts_hex_and_decimal() {
    assert_eq!(parse_fr("255").unwrap(), parse_fr("0xff").unwrap());
    assert!(parse_bytes32("0x00").is_err());
}

#[test]
fn parse_fr_values_and_errors() {
    assert_eq!(parse_fr("  42 \n"), Ok(fe(42)));
    assert_eq!(parse_fr("+7"), Ok(fe(7)));
    assert_eq!(parse_fr("0x1"), Ok(fe(1)));
    assert_eq!(parse_fr("0xABC"), Ok(fe(0xabc)));
    assert_eq!(parse_fr("0xzz"), Err(ParseError::BadHex));
    assert_eq!(parse_fr("abc"), Err(ParseError::BadDecimal));
    assert_eq!(parse_fr(""), Err(ParseError::BadDecimal));
    assert_eq!(parse_fr("-1"), Err(ParseError::BadDecimal));
    assert_eq!(parse_fr("340282366920938463463374607431768211456"), Err(ParseError::BadDecimal));
    assert_eq!(parse_fr(&format!("0x{}", "11".repeat(33))), Err(ParseError::TooLong));
    // The scalar-field order itself reduces to zero.
    let r = "0x73eda753299d7d483339d80809a1d80553bda402fffe5bfeffffffff00000001";
    assert_eq!(parse_fr(r), Ok([0u8; 32]));
}

#[test]
fn parse_bytes32_exact_length() {
    let s = format!("0x{}", "ab".repeat(32));
    assert_eq!(parse_bytes32(&s), Ok([0xab; 32]));
    assert_eq!(parse_bytes32(&"cd".repeat(32)), Ok([0xcd; 32]));
    assert_eq!(parse_bytes32("0x00"), Err(ParseError::BadLength));
    assert_eq!(parse_bytes32("0x0"), Err(ParseError::BadHex));
    assert_eq!(parse_hex(" 0x0102 "), Ok(vec![1u8, 2]));
    assert_eq!(check_hex_len("0xabcd", 2), Ok(()));
    assert_eq!(check_hex_len("0xabcd", 3), Err(ParseError::BadLength));
}

#[test]
fn note_algebra() {
    let sk = fe(1234);
    let pk = owner_pk(sk);
    assert_eq!(pk, poseidon2to1(sk, [0u8; 32]));
    let note = Note::from_spend_key(sk, fe(5678), fe(1000));
    assert_eq!(note.owner_pk, pk);
    let cm = note.commitment();
    assert_eq!(cm, commitment(pk, fe(5678), fe(1000)));
    assert_eq!(cm, poseidon2to1(poseidon2to1(pk, fe(5678)), fe(1000)));
    assert_eq!(note.nullifier(sk), nullifier(sk, fe(5678)));
    assert_ne!(note.nullifier(sk), note.nullifier(fe(1235)));
}

#[test]
fn field_helpers() {
    assert_eq!(amount_fr(700), fe(700));
    let r_bytes = parse_fr("0x73eda753299d7d483339d80809a1d80553bda402fffe5bfeffffffff00000002").unwrap();
    assert_eq!(r_bytes, fe(1));
    assert_eq!(fr_from_be_bytes_mod_order(&fe(9)), fe(9));
    assert_eq!(hex0x(&fe(255)), format!("0x{}ff", "00".repeat(31)));
}

#[test]
fn merkle_zeros_and_paths() {
    let z = merkle::zeros(3);
    assert_eq!(z[0], [0u8; 32]);
    assert_eq!(z[1], poseidon2to1(z[0], z[0]));
    let leaves = vec![fe(1), fe(2), fe(3)];
    let (root, sib, bits) = merkle::path(&leaves, 2, 2);
    // level 0: leaf 2 is a left child; its sibling is the empty leaf.
    assert_eq!(sib[0], [0u8; 32]);
    assert!(!bits[0]);
    // level 1: node 1 is a right child of the root.
    assert!(bits[1]);
    assert_eq!(sib[1], poseidon2to1(fe(1), fe(2)));
    assert_eq!(root, poseidon2to1(poseidon2to1(fe(1), fe(2)), poseidon2to1(fe(3), [0u8; 32])));
    assert_eq!(merkle::root(&leaves, 2), root);
    assert_eq!(merkle::root(&[], 2), z[2]);
    assert_eq!(merkle::leaf(fe(1), fe(2)), poseidon2to1(fe(1), fe(2)));
    assert_eq!(merkle::nullifier(fe(1)), poseidon2to1(fe(1), [0u8; 32]));
}

#[test]
fn empty_circuits_have_the_shape() {
    let d = DepositCircuit::empty();
    assert!(d.cm.is_none());
    let u = UnshieldCircuit::empty(20);
    assert_eq!(u.siblings.len(), 20);
    let t = TransferCircuit::empty(20);
    assert_eq!(t.path_bits.len(), 20);
    let n = TransferNCircuit::empty(4, 20);
    assert_eq!(n.inputs.len(), 4);
    assert_eq!(n.inputs[3].siblings.len(), 20);
}

#[test]
fn deposit_witness_binds_amount() {
    let (c, publics) = deposit_witness(fe(7), fe(8), 500);
    let cm = commitment(fe(7), fe(8), fe(500));
    assert_eq!(c.cm, Some(cm));
    assert_eq!(publics, vec![cm, fe(500)]);
}

#[test]
fn unshield_witness_conserves_value() {
    let sk = fe(1234);
    let note = Note::from_spend_key(sk, fe(5678), fe(1000));
    let leaves = vec![note.commitment()];
    let recipient = fe(0xABCD);
    let (c, publics) = unshield_witness(sk, fe(5678), 1000, 0, &leaves, recipient, 700, fe(10), 20).unwrap();
    let change = commitment(owner_pk(sk), fe(10), fe(300));
    let root = merkle::root(&leaves, 20);
    assert_eq!(publics, vec![root, nullifier(sk, fe(5678)), recipient, fe(700), change]);
    assert_eq!(c.vc, Some(fe(300)));
    assert_eq!(c.siblings.len(), 20);
    // Over-withdrawal and a wrong leaf are refused.
    assert_eq!(
        unshield_witness(sk, fe(5678), 1000, 0, &leaves, recipient, 1001, fe(10), 20).err(),
        Some(WitnessError::AmountExceedsValue)
    );
    assert_eq!(
        unshield_witness(sk, fe(5678), 999, 0, &leaves, recipient, 700, fe(10), 20).err(),
        Some(WitnessError::LeafMismatch)
    );
    assert_eq!(
        unshield_witness(sk, fe(5678), 1000, 1, &leaves, recipient, 700, fe(10), 20).err(),
        Some(WitnessError::LeafMismatch)
    );
}

#[test]
fn transfer_witness_conserves_value() {
    let sk = fe(3);
    let note = Note::from_spend_key(sk, fe(4), fe(1000));
    let leaves = vec![fe(99), note.commitment()];
    let (c, publics) =
        transfer_witness(sk, fe(4), 1000, 1, &leaves, fe(21), fe(22), 600, fe(31), fe(32), 400, 20).unwrap();
    let cm1 = commitment(fe(21), fe(22), fe(600));
    let cm2 = commitment(fe(31), fe(32), fe(400));
    assert_eq!(publics, vec![merkle::root(&leaves, 20), nullifier(sk, fe(4)), cm1, cm2]);
    assert_eq!(c.path_bits[0], Some(true));
    assert_eq!(
        transfer_witness(sk, fe(4), 1000, 1, &leaves, fe(21), fe(22), 600, fe(31), fe(32), 401, 20).err(),
        Some(WitnessError::ValueMismatch)
    );
}

#[test]
fn transfer_n_witness_checks_inputs() {
    let sk = fe(424242);
    let n1 = Note::from_spend_key(sk, fe(21), fe(40));
    let n2 = Note::from_spend_key(sk, fe(22), fe(60));
    let leaves = vec![n1.commitment(), n2.commitment()];
    let ks = vec![fe(21), fe(22)];
    let vs = vec![40u128, 60];
    let idx = vec![0usize, 1];
    let (c, publics) =
        transfer_n_witness(sk, &ks, &vs, &idx, 2, &leaves, fe(101), fe(102), 70, fe(201), fe(202), 30, 20).unwrap();
    assert_eq!(c.inputs.len(), 2);
    assert_eq!(publics.len(), 5);
    assert_eq!(publics[1], nullifier(sk, fe(21)));
    assert_eq!(publics[2], nullifier(sk, fe(22)));
    assert_eq!(publics[3], commitment(fe(101), fe(102), fe(70)));
    assert_eq!(
        transfer_n_witness(sk, &ks, &vs, &idx, 2, &leaves, fe(101), fe(102), 71, fe(201), fe(202), 30, 20).err(),
        Some(WitnessError::ValueMismatch)
    );
    assert_eq!(
        transfer_n_witness(sk, &ks, &vs, &vec![1usize, 0], 2, &leaves, fe(101), fe(102), 70, fe(201), fe(202), 30, 20)
            .err(),
        Some(WitnessError::LeafMismatch)
    );
    assert_eq!(
        transfer_n_witness(sk, &ks, &vs, &idx, 4, &leaves, fe(101), fe(102), 70, fe(201), fe(202), 30, 20).err(),
        Some(WitnessError::WrongInputCount)
    );
    let big = vec![u128::MAX, 1];
    assert_eq!(
        transfer_n_witness(sk, &ks, &big, &idx, 2, &leaves, fe(101), fe(102), 70, fe(201), fe(202), 30, 20).err(),
        Some(WitnessError::InputValueOverflow)
    );
}

#[test]
fn leaves_are_reduced() {
    let r_plus_one = parse_bytes32("0x73eda753299d7d483339d80809a1d80553bda402fffe5bfeffffffff00000002").unwrap();
    let out = leaves_to_fr(&vec![r_plus_one, fe(5)]);
    assert_eq!(out, vec![fe(1), fe(5)]);
}

#[test]
fn transport_forms() {
    let vk = VerifyingKey { alpha: [1u8; 96], beta: [2u8; 192], gamma: [3u8; 192], delta: [4u8; 192], ic: vec![[5u8; 96]] };
    let j = vk_json(&vk);
    assert_eq!(j.alpha, "01".repeat(96));
    assert_eq!(j.ic, vec!["05".repeat(96)]);
    assert_eq!(check_vk_json(&j), Ok(()));
    let bad = VkJson { ic: vec![], ..j.clone() };
    assert_eq!(check_vk_json(&bad), Err(VkJsonError::EmptyIc));
    let bad = VkJson { beta: "00".to_string(), ..j.clone() };
    assert_eq!(check_vk_json(&bad), Err(VkJsonError::Beta(ParseError::BadLength)));
    let bad = VkJson { ic: vec!["05".repeat(96), "zz".to_string()], ..j };
    assert_eq!(check_vk_json(&bad), Err(VkJsonError::Ic(1, ParseError::BadHex)));
    let p = proof_json(&vec![0xab; 3], &vec![fe(1)]);
    assert_eq!(p.proof, "0xababab");
    assert_eq!(p.public_inputs, vec![format!("0x{}01", "00".repeat(31))]);
}

#[test]
fn parse_fr_reads_back_hex0x() {
    let mut r_minus_1 = [0u8; 32];
    r_minus_1.copy_from_slice(
        &hex::decode("73eda753299d7d483339d80809a1d80553bda402fffe5bfeffffffff00000000").unwrap(),
    );
    for f in [fe(0), fe(1), fe(123_456_789), r_minus_1] {
        assert_eq!(parse_fr(&hex0x(&f)), Ok(f));
    }
}

#[test]
fn path_bits_are_the_binary_digits_of_the_index() {
    let leaves: Vec<[u8; 32]> = (1..=6).map(fe).collect();
    for index in 0..16usize {
        let (_root, _sib, bits) = merkle::path(&leaves, index, 4);
        for (i, b) in bits.iter().enumerate() {
            assert_eq!(*b, (index >> i) & 1 == 1);
        }
    }
}

#[test]
fn transfer_n_prechecks() {
    assert_eq!(transfer_n_arity(2, 2, 2, 2), Ok(()));
    assert_eq!(transfer_n_arity(2, 2, 1, 2), Err(WitnessError::WrongInputCount));
    assert_eq!(transfer_n_arity(4, 2, 2, 2), Err(WitnessError::WrongInputCount));
    assert_eq!(transfer_n_sum(&vec![60, 40], 70, 30), Ok(100));
    assert_eq!(transfer_n_sum(&vec![60, 40], 71, 30), Err(WitnessError::ValueMismatch));
    assert_eq!(transfer_n_sum(&vec![u128::MAX, 1], 0, 0), Err(WitnessError::InputValueOverflow));
    assert_eq!(transfer_n_sum(&vec![u128::MAX, 0], u128::MAX, 1), Err(WitnessError::ValueMismatch));
}

#[test]
fn zero_leaf_padding_changes_nothing() {
    let leaves: Vec<[u8; 32]> = (1..=3).map(fe).collect();
    let mut padded = leaves.clone();
    padded.push([0u8; 32]);
    for index in 0..8usize {
        assert_eq!(merkle::path(&leaves, index, 3), merkle::path(&padded, index, 3));
    }
    let z = merkle::zeros(3);
    assert_eq!(merkle::path(&[], 0, 3).0, z[3]);
}

#[test]
fn amount_field_is_big_endian_in_the_low_half() {
    let mut want = [0u8; 32];
    want[30] = 0x01;
    want[31] = 0x02;
    assert_eq!(hypertron::field::amount_field(0x0102), want);
    let mut max = [0u8; 32];
    max[16] = 0x7f;
    for b in &mut max[17..] {
        *b = 0xff;
    }
    assert_eq!(hypertron::field::amount_field(i128::MAX), max);
    assert_eq!(hypertron::field::amount_field(0), [0u8; 32]);
}
