use wotsplus::{Message, PublicKey, SecretKey, Signature, State, WOtsPlus};

/// The concrete scenario parameters: 32-byte blocks, 32-byte digests,
/// `w = 15`, and a fixed deterministic stand-in for the hash.
struct TestScheme;

impl WOtsPlus for TestScheme {
    fn block_length(&self) -> usize {
        32
    }

    fn message_size(&self) -> usize {
        32
    }

    fn winternitz_minus_one(&self) -> usize {
        15
    }

    fn hash(&self, input: Vec<u8>) -> Vec<u8> {
        let mut out = vec![0u8; 32];
        let mut acc: u64 = 0xcbf2_9ce4_8422_2325;
        for (i, &b) in input.iter().enumerate() {
            acc = acc
                .wrapping_mul(0x0000_0100_0000_01b3)
                .wrapping_add(b as u64)
                .wrapping_add(i as u64);
            out[i % 32] = out[i % 32].wrapping_add((acc >> 24) as u8) ^ (acc as u8);
        }
        for i in 0..32 {
            acc = acc.wrapping_mul(0x0000_0100_0000_01b3).wrapping_add(out[i] as u64);
            out[i] = (acc >> ((i % 8) * 8)) as u8;
        }
        out
    }
}

/// `count` blocks of 32 bytes, filled deterministically from `seed`.
fn blocks(count: usize, seed: u8) -> Vec<Vec<u8>> {
    (0..count)
        .map(|i| {
            (0..32)
                .map(|k| {
                    seed.wrapping_mul(167)
                        .wrapping_add((i * 31 + k * 7) as u8)
                        .rotate_left((i % 8) as u32)
                })
                .collect()
        })
        .collect()
}

fn secret_key(seed: u8) -> SecretKey {
    SecretKey::new(&TestScheme, blocks(15, seed), blocks(67, seed.wrapping_add(1)))
}

fn digest(seed: u8) -> Vec<u8> {
    (0..32u8).map(|k| k.wrapping_mul(13).wrapping_add(seed)).collect()
}

#[test]
fn sign_verify_round_trip() {
    let sk = secret_key(3);
    let pk = PublicKey::from_secret(&TestScheme, &sk);
    let d = digest(5);
    let sig = Signature::sign(&TestScheme, &sk, &d);
    assert!(sig.verify(&TestScheme, &pk, &d));
}

#[test]
fn verify_rejects_a_different_digest() {
    let sk = secret_key(3);
    let pk = PublicKey::from_secret(&TestScheme, &sk);
    let d = digest(5);
    let sig = Signature::sign(&TestScheme, &sk, &d);
    assert!(!sig.verify(&TestScheme, &pk, &digest(6)));
}

#[test]
fn verify_rejects_a_different_public_key() {
    let sk = secret_key(3);
    let other_pk = PublicKey::from_secret(&TestScheme, &secret_key(8));
    let d = digest(5);
    let sig = Signature::sign(&TestScheme, &sk, &d);
    assert!(!sig.verify(&TestScheme, &other_pk, &d));
}

#[test]
fn verify_rejects_every_single_flipped_data_byte() {
    let sk = secret_key(3);
    let pk = PublicKey::from_secret(&TestScheme, &sk);
    let d = digest(5);
    let sig = Signature::sign(&TestScheme, &sk, &d);
    let randomization = sig.randomization().clone();
    let data = sig.data().clone();
    for chain in 0..data.len() {
        for byte in 0..32 {
            let mut tampered = data.clone();
            tampered[chain][byte] ^= 0x01;
            let forged = Signature::new(&TestScheme, randomization.clone(), tampered);
            assert!(
                !forged.verify(&TestScheme, &pk, &d),
                "flip at chain {} byte {} was accepted",
                chain,
                byte
            );
        }
    }
}

#[test]
fn verify_rejects_a_tampered_randomization_block() {
    // The scenario: mutate one byte of the randomization used during
    // signing; verification against the unmodified public key fails.
    let sk = secret_key(3);
    let pk = PublicKey::from_secret(&TestScheme, &sk);
    let mut randomization = sk.randomization().clone();
    randomization[4][17] ^= 0x20;
    let tampered_sk = SecretKey::new(&TestScheme, randomization, sk.data().clone());
    let d = digest(5);
    let sig = Signature::sign(&TestScheme, &tampered_sk, &d);
    assert!(!sig.verify(&TestScheme, &pk, &d));
}

#[test]
fn completing_a_signature_reaches_the_public_key() {
    // Chain commutativity under completion: signing and then advancing
    // every chain through the remaining steps equals deriving the public
    // key from the secret directly.
    let sk = secret_key(3);
    let pk = PublicKey::from_secret(&TestScheme, &sk);
    let d = digest(5);
    let sig = Signature::sign(&TestScheme, &sk, &d);
    let completion = Message::message(&TestScheme, &d).inverse(&TestScheme);
    let sig_state = State::new(
        &TestScheme,
        sig.randomization().clone(),
        sig.data().clone(),
    );
    let completed = sig_state.mul(&TestScheme, &completion);
    assert_eq!(completed.data(), pk.data());
    assert_eq!(completed.randomization(), pk.randomization());
}

#[test]
fn accessors_hand_back_the_raw_blocks() {
    let randomization = blocks(15, 3);
    let data = blocks(67, 4);
    let sk = SecretKey::new(&TestScheme, randomization.clone(), data.clone());
    assert_eq!(sk.randomization(), &randomization);
    assert_eq!(sk.data(), &data);
    let pk = PublicKey::from_secret(&TestScheme, &sk);
    assert_eq!(pk.randomization(), &randomization);
    assert_eq!(pk.data().len(), 67);
    assert_ne!(pk.data(), &data);
}
