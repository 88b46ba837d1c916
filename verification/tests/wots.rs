use wotsplus::{Message, State, WOtsPlus};

/// A parameter set with an adjustable digest size and Winternitz
/// parameter, and a deterministic stand-in hash of 32 bytes.
struct VarScheme {
    m: usize,
    w: usize,
}

impl WOtsPlus for VarScheme {
    fn block_length(&self) -> usize {
        32
    }

    fn message_size(&self) -> usize {
        self.m
    }

    fn winternitz_minus_one(&self) -> usize {
        self.w
    }

    fn hash(&self, input: Vec<u8>) -> Vec<u8> {
        let mut out = vec![0u8; 32];
        let mut acc: u64 = 0xcbf2_9ce4_8422_2325;
        for (i, &b) in input.iter().enumerate() {
            acc = acc
                .wrapping_mul(0x0000_0100_0000_01b3)
                .wrapping_add(b as u64)
                .wrapping_add(i as u64);
            out[i % 32] = out[i % 32].wrapping_add((acc >> 24) as u8) ^ (acc as u8);
        }
        for i in 0..32 {
            acc = acc.wrapping_mul(0x0000_0100_0000_01b3).wrapping_add(out[i] as u64);
            out[i] = (acc >> ((i % 8) * 8)) as u8;
        }
        out
    }
}

#[test]
fn lengths_for_the_observed_parameter_sets() {
    assert_eq!(State::lengths(&VarScheme { m: 32, w: 15 }), (64, 3));
    assert_eq!(State::lengths(&VarScheme { m: 32, w: 255 }), (32, 2));
    assert_eq!(State::lengths(&VarScheme { m: 64, w: 15 }), (128, 3));
    assert_eq!(State::lengths(&VarScheme { m: 64, w: 255 }), (64, 2));
}

#[test]
fn lengths_constant_across_repeated_calls() {
    let scheme = VarScheme { m: 32, w: 15 };
    let first = State::lengths(&scheme);
    let second = State::lengths(&scheme);
    assert_eq!(first, second);
    let (l1, l2) = first;
    // The sum is the chain count every constructed state carries.
    let state = State::new(&scheme, blocks(15, 32, 1), blocks(l1 + l2, 32, 2));
    assert_eq!(state.data().len(), l1 + l2);
}

#[test]
fn lengths_match_the_logarithmic_derivation() {
    for &w in &[15usize, 255] {
        for &m in &[1usize, 2, 3, 8, 16, 20, 24, 32, 48, 64, 128, 256] {
            let (l1, l2) = State::lengths(&VarScheme { m, w });
            let mf = m as f64;
            let wf = w as f64;
            let l1f = (mf * 8.0 / (wf + 1.0).log2()).ceil();
            let l2f = 1.0 + ((l1f * wf).log2() / wf.log2()).floor();
            assert_eq!(l1, l1f as usize, "l1 for m={} w={}", m, w);
            assert_eq!(l2, l2f as usize, "l2 for m={} w={}", m, w);
        }
    }
}

/// `count` blocks of `len` bytes, filled deterministically from `seed`.
fn blocks(count: usize, len: usize, seed: u8) -> Vec<Vec<u8>> {
    (0..count)
        .map(|i| {
            (0..len)
                .map(|k| seed.wrapping_mul(37).wrapping_add((i * len + k) as u8))
                .collect()
        })
        .collect()
}

#[test]
fn zero_digest_encoding_nibble_digits() {
    // All-zero digest, w = 15: 64 zero digits, checksum 64 * 15 = 960.
    let scheme = VarScheme { m: 32, w: 15 };
    let digest = vec![0u8; 32];
    let msg = Message::message(&scheme, &digest);
    let ranges = msg.ranges();
    assert_eq!(ranges.len(), 67);
    for i in 0..64 {
        assert_eq!(ranges[i], (0, 0));
    }
    // 960 big-endian is ...00 03 c0; its last three nibbles are 3, 12, 0.
    assert_eq!(ranges[64], (0, 3));
    assert_eq!(ranges[65], (0, 12));
    assert_eq!(ranges[66], (0, 0));
    for &(s, e) in ranges.iter() {
        assert_eq!(s, 0);
        assert!(e <= 15);
    }
}

#[test]
fn zero_digest_encoding_byte_digits() {
    // All-zero digest, w = 255: 32 zero digits, checksum 32 * 255 = 8160.
    let scheme = VarScheme { m: 32, w: 255 };
    let digest = vec![0u8; 32];
    let msg = Message::message(&scheme, &digest);
    let ranges = msg.ranges();
    assert_eq!(ranges.len(), 34);
    for i in 0..32 {
        assert_eq!(ranges[i], (0, 0));
    }
    // 8160 big-endian is ...1f e0: the last two byte digits are 31, 224.
    assert_eq!(ranges[32], (0, 31));
    assert_eq!(ranges[33], (0, 224));
}

#[test]
fn message_encoding_splits_nibbles_high_first() {
    let scheme = VarScheme { m: 32, w: 15 };
    let mut digest = vec![0u8; 32];
    digest[0] = 0xab;
    digest[31] = 0x4c;
    let msg = Message::message(&scheme, &digest);
    let ranges = msg.ranges();
    assert_eq!(ranges[0], (0, 0xa));
    assert_eq!(ranges[1], (0, 0xb));
    assert_eq!(ranges[62], (0, 0x4));
    assert_eq!(ranges[63], (0, 0xc));
}

#[test]
fn infinity_covers_every_chain_fully() {
    let scheme = VarScheme { m: 32, w: 15 };
    let msg = Message::infinity(&scheme);
    let ranges = msg.ranges();
    assert_eq!(ranges.len(), 67);
    for &r in ranges.iter() {
        assert_eq!(r, (0, 15));
    }
}

#[test]
fn inverse_turns_each_range_around() {
    let scheme = VarScheme { m: 32, w: 15 };
    let mut digest = vec![0u8; 32];
    digest[0] = 0x5f;
    let msg = Message::message(&scheme, &digest);
    let forward: Vec<(usize, usize)> = msg.ranges().clone();
    let inv = msg.inverse(&scheme);
    let backward = inv.ranges();
    assert_eq!(backward.len(), forward.len());
    for (i, &(s, e)) in backward.iter().enumerate() {
        assert_eq!(s, forward[i].1);
        assert_eq!(e, 15);
    }
}

/// A tiny parameter set for observing the hexadecimal rendering whole.
struct TinyScheme;

impl WOtsPlus for TinyScheme {
    fn block_length(&self) -> usize {
        1
    }

    fn message_size(&self) -> usize {
        1
    }

    fn winternitz_minus_one(&self) -> usize {
        15
    }

    fn hash(&self, input: Vec<u8>) -> Vec<u8> {
        let mut acc: u8 = 0x5a;
        for &b in input.iter() {
            acc = acc.wrapping_mul(31).wrapping_add(b);
        }
        vec![acc]
    }
}

#[test]
fn hex_rendering_of_a_state() {
    // One-byte blocks: 15 randomization blocks 0..14, then 4 data blocks.
    let randomization: Vec<Vec<u8>> = (0u8..15).map(|b| vec![b]).collect();
    let data: Vec<Vec<u8>> = vec![vec![0xab], vec![0x00], vec![0xff], vec![0x10]];
    let state = State::new(&TinyScheme, randomization, data);
    assert_eq!(
        state.to_hex(),
        "000102030405060708090a0b0c0d0eab00ff10"
    );
}

#[test]
fn project_keeps_the_data_blocks() {
    let scheme = VarScheme { m: 32, w: 15 };
    let data = blocks(67, 32, 9);
    let state = State::new(&scheme, blocks(15, 32, 4), data.clone());
    assert_eq!(state.project(), data);
}
