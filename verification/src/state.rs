use vstd::prelude::*;

verus! {

broadcast use vstd::arithmetic::div_mod::lemma_div_is_strictly_smaller, vstd::arithmetic::div_mod::lemma_div_is_ordered;

/// Capability bundle for one WOTS+ parameter set: the hash output size in
/// bytes (`block_length`, `n`), the size of a digest to be signed
/// (`message_size`, `m`), the Winternitz parameter (`winternitz_minus_one`,
/// `w`: positions per chain minus one; 15 and 255 are the supported values),
/// and the hash function itself. The caller supplies an implementation; the
/// engine relies only on determinism and the fixed output size.
pub trait WOtsPlus: Sized {
    /// Hash output size in bytes. An implementation verified against the
    /// engine's contracts overrides this; the default says nothing.
    open spec fn spec_block_length(&self) -> usize {
        vstd::pervasive::arbitrary()
    }

    /// Size in bytes of a digest to be signed. An implementation verified
    /// against the engine's contracts overrides this.
    open spec fn spec_message_size(&self) -> usize {
        vstd::pervasive::arbitrary()
    }

    /// The Winternitz parameter `w`: number of positions per chain, minus
    /// one. An implementation verified against the engine's contracts
    /// overrides this.
    open spec fn spec_winternitz_minus_one(&self) -> usize {
        vstd::pervasive::arbitrary()
    }

    /// What the hash returns on a given input. An implementation verified
    /// against the engine's contracts overrides this.
    open spec fn spec_hash(&self, input: Seq<u8>) -> Seq<u8> {
        vstd::pervasive::arbitrary()
    }

    fn block_length(&self) -> (r: usize)
        ensures
            r == self.spec_block_length(),
    ;

    fn message_size(&self) -> (r: usize)
        ensures
            r == self.spec_message_size(),
    ;

    fn winternitz_minus_one(&self) -> (r: usize)
        ensures
            r == self.spec_winternitz_minus_one(),
    ;

    /// Hash `input` to a fresh block of exactly `block_length` bytes.
    fn hash(&self, input: Vec<u8>) -> (r: Vec<u8>)
        ensures
            r@ == self.spec_hash(input@),
            r@.len() == self.spec_block_length(),
    ;
}

/// Largest `k` with `base^k <= x` (zero when `x < base`), for `base >= 2`.
pub open spec fn spec_ilog(base: nat, x: nat) -> nat
    decreases x,
{
    if base <= 1 || x < base {
        0
    } else {
        1 + spec_ilog(base, x / base)
    }
}

/// Number of base-`(w+1)` digits needed to represent an `m`-byte digest.
pub open spec fn spec_l1(m: nat, w: nat) -> nat {
    if w == 15 {
        2 * m
    } else {
        m
    }
}

/// Number of base-`(w+1)` digits needed to represent the checksum:
/// `1 + floor(log_w(L1 * w))`, which equals `2 + floor(log_w(L1))`.
pub open spec fn spec_l2(m: nat, w: nat) -> nat {
    2 + spec_ilog(w, spec_l1(m, w))
}

/// A usable scheme instantiation: a supported Winternitz parameter, a
/// digest size small enough for every intermediate count to fit the
/// machine, and a checksum that fits a 64-bit accumulator
/// (`L2 * m / L1 <= 8`).
pub open spec fn params_valid<A: WOtsPlus>(a: &A) -> bool {
    let m = a.spec_message_size() as nat;
    let w = a.spec_winternitz_minus_one() as nat;
    &&& (w == 15 || w == 255)
    &&& 1 <= m
    &&& m <= 0x1000_0000
    &&& spec_l2(m, w) * m / spec_l1(m, w) <= 8
}

/// The sequences of bytes a `State` stands for: `w` shared randomization
/// blocks and one data block per chain.
#[verifier::ext_equal]
pub ghost struct StateView {
    pub randomization: Seq<Seq<u8>>,
    pub data: Seq<Seq<u8>>,
}

/// The byte sequences held by a vector of blocks.
pub open spec fn blocks_view(v: Seq<Vec<u8>>) -> Seq<Seq<u8>> {
    v.map_values(|b: Vec<u8>| b@)
}

/// A vector of `L = L1 + L2` independent hash-chain values of
/// `block_length` bytes each, plus `w` public randomization blocks shared
/// across all chains.
pub struct State {
    randomization: Vec<Vec<u8>>,
    data: Vec<Vec<u8>>,
}

impl View for State {
    type V = StateView;

    closed spec fn view(&self) -> StateView {
        StateView {
            randomization: blocks_view(self.randomization@),
            data: blocks_view(self.data@),
        }
    }
}

/// Consistency of a `State` with a parameter set: `w` randomization blocks
/// and `L1 + L2` data blocks, each block exactly `block_length` bytes.
pub open spec fn state_wf<A: WOtsPlus>(a: &A, st: StateView) -> bool {
    let m = a.spec_message_size() as nat;
    let w = a.spec_winternitz_minus_one() as nat;
    &&& st.randomization.len() == w
    &&& forall|i: int|
        0 <= i < st.randomization.len() ==> (#[trigger] st.randomization[i]).len()
            == a.spec_block_length()
    &&& st.data.len() == spec_l1(m, w) + spec_l2(m, w)
    &&& forall|i: int|
        0 <= i < st.data.len() ==> (#[trigger] st.data[i]).len() == a.spec_block_length()
}

proof fn lemma_ilog_le(base: nat, x: nat)
    ensures
        spec_ilog(base, x) <= x,
    decreases x,
{
    if base <= 1 || x < base {
    } else {
        lemma_ilog_le(base, x / base);
    }
}

proof fn lemma_ilog_mono(base: nat, x: nat, y: nat)
    requires
        x <= y,
    ensures
        spec_ilog(base, x) <= spec_ilog(base, y),
    decreases y,
{
    if base <= 1 || x < base {
    } else {
        lemma_ilog_mono(base, x / base, y / base);
    }
}

impl State {
    /// The two derived lengths `(L1, L2)`: how many base-`(w+1)` digits a
    /// digest yields, and how many more the checksum yields. Their sum is
    /// the chain count `L` carried by every `State` of this parameter set,
    /// and the result depends on the parameters alone.
    pub fn lengths<A: WOtsPlus>(a: &A) -> (r: (usize, usize))
        requires
            a.spec_winternitz_minus_one() == 15 || a.spec_winternitz_minus_one() == 255,
            a.spec_message_size() <= 0x1000_0000,
        ensures
            r.0 == spec_l1(a.spec_message_size() as nat, a.spec_winternitz_minus_one() as nat),
            r.1 == spec_l2(a.spec_message_size() as nat, a.spec_winternitz_minus_one() as nat),
    {
        let m = a.message_size();
        let w = a.winternitz_minus_one();
        let l1: usize = if w == 15 {
            2 * m
        } else {
            m
        };
        let mut x: usize = l1;
        let mut k: usize = 0;
        while x >= w
            invariant
                w == a.spec_winternitz_minus_one(),
                w == 15 || w == 255,
                k + spec_ilog(w as nat, x as nat) == spec_ilog(w as nat, l1 as nat),
                l1 <= 0x2000_0000,
            decreases x,
        {
            proof {
                lemma_ilog_le(w as nat, l1 as nat);
            }
            x = x / w;
            k = k + 1;
        }
        proof {
            lemma_ilog_le(w as nat, l1 as nat);
        }
        (l1, 2 + k)
    }

    /// Constructs a `State`; the block counts and sizes must be consistent
    /// with the parameter set.
    pub fn new<A: WOtsPlus>(a: &A, randomization: Vec<Vec<u8>>, data: Vec<Vec<u8>>) -> (r: State)
        requires
            params_valid(a),
            state_wf(
                a,
                StateView {
                    randomization: blocks_view(randomization@),
                    data: blocks_view(data@),
                },
            ),
        ensures
            r@ == (StateView {
                randomization: blocks_view(randomization@),
                data: blocks_view(data@),
            }),
            state_wf(a, r@),
    {
        let (l1, l2) = Self::lengths(a);
        if data.len() != l1 + l2 {
            // A mismatched chain count is a broken instantiation: fail
            // fast rather than hand out a state no contract covers.
            return vstd::pervasive::unreached();
        }
        State { randomization, data }
    }

    /// The shared randomization blocks.
    pub fn randomization(&self) -> (r: &Vec<Vec<u8>>)
        ensures
            blocks_view(r@) == self@.randomization,
    {
        &self.randomization
    }

    /// The per-chain data blocks.
    pub fn data(&self) -> (r: &Vec<Vec<u8>>)
        ensures
            blocks_view(r@) == self@.data,
    {
        &self.data
    }

    /// Gives up the state, keeping only the per-chain data blocks.
    pub fn project(self) -> (r: Vec<Vec<u8>>)
        ensures
            blocks_view(r@) == self@.data,
    {
        self.data
    }
}

/// The base-`(w+1)` digits of a byte string: for `w = 15` each byte yields
/// two 4-bit digits, high nibble first; for `w = 255` each byte is one digit.
pub open spec fn spec_digits(w: usize, bytes: Seq<u8>) -> Seq<usize> {
    if w == 15 {
        Seq::new(
            2 * bytes.len(),
            |i: int|
                if i % 2 == 0 {
                    (bytes[i / 2] / 16) as usize
                } else {
                    (bytes[i / 2] % 16) as usize
                },
        )
    } else {
        Seq::new(bytes.len(), |i: int| bytes[i] as usize)
    }
}

/// Sum of the remaining steps `w - d` over a sequence of digits `d`.
pub open spec fn spec_remaining_sum(w: usize, digits: Seq<usize>) -> int
    decreases digits.len(),
{
    if digits.len() == 0 {
        0
    } else {
        spec_remaining_sum(w, digits.drop_last()) + (w - digits.last())
    }
}

/// The eight bytes of a 64-bit integer, most significant first.
pub open spec fn spec_be_bytes(v: u64) -> Seq<u8> {
    Seq::new(8, |i: int| ((v >> (((7 - i) * 8) as u64)) & 0xff) as u8)
}

/// The checksum digits appended to `L1` message digits: the remaining-step
/// sum, written as eight big-endian bytes, split into base-`(w+1)` digits,
/// keeping only the last `L2` digits.
pub open spec fn spec_checksum_digits<A: WOtsPlus>(a: &A, digits: Seq<usize>) -> Seq<usize> {
    let w = a.spec_winternitz_minus_one();
    let l2 = spec_l2(a.spec_message_size() as nat, w as nat);
    let sum = spec_remaining_sum(w, digits);
    let all = spec_digits(w, spec_be_bytes(sum as u64));
    all.skip(all.len() - l2)
}

/// The encoding of a digest: its `L1` base-`(w+1)` digits followed by the
/// `L2` checksum digits, each digit `d` becoming the forward range `[0, d)`.
pub open spec fn spec_message_ranges<A: WOtsPlus>(a: &A, digest: Seq<u8>) -> Seq<(usize, usize)> {
    let digits = spec_digits(a.spec_winternitz_minus_one(), digest);
    (digits + spec_checksum_digits(a, digits)).map_values(|d: usize| (0usize, d))
}

/// The encoding that advances every chain to its terminal position: the
/// full range `[0, w)`, one step per randomization block, for each of the
/// `l` chains.
pub open spec fn spec_infinity_ranges(l: nat, w: usize) -> Seq<(usize, usize)> {
    Seq::new(l, |i: int| (0usize, w))
}

/// The inversion of an encoding: each range `[s, e)` becomes `[e, w)`, the
/// steps still needed to reach the terminal position.
pub open spec fn spec_inverse_ranges(w: usize, ranges: Seq<(usize, usize)>) -> Seq<(usize, usize)> {
    ranges.map_values(|r: (usize, usize)| (r.1, w))
}

/// Every digit of a byte string is at most `w`.
pub proof fn lemma_digit_bounds(w: usize, bytes: Seq<u8>)
    requires
        w == 15 || w == 255,
    ensures
        forall|i: int| 0 <= i < spec_digits(w, bytes).len() ==> #[trigger] spec_digits(w, bytes)[i] <= w,
{
}

/// The remaining-step sum over digits bounded by `w` lies in `[0, len * w]`.
pub proof fn lemma_remaining_sum_bounds(w: usize, digits: Seq<usize>)
    requires
        forall|i: int| 0 <= i < digits.len() ==> #[trigger] digits[i] <= w,
    ensures
        0 <= spec_remaining_sum(w, digits) <= digits.len() * w,
    decreases digits.len(),
{
    if digits.len() > 0 {
        lemma_remaining_sum_bounds(w, digits.drop_last());
        assert(digits.drop_last().len() * w + w == digits.len() * w) by (nonlinear_arith)
            requires digits.len() >= 1, digits.drop_last().len() == digits.len() - 1;
    }
}

/// For a valid parameter set, the checksum needs at most as many digits as
/// eight bytes provide.
pub proof fn lemma_l2_fits<A: WOtsPlus>(a: &A)
    requires
        params_valid(a),
    ensures
        spec_l2(a.spec_message_size() as nat, a.spec_winternitz_minus_one() as nat)
            <= spec_digits(a.spec_winternitz_minus_one(), spec_be_bytes(0)).len(),
        spec_l2(a.spec_message_size() as nat, a.spec_winternitz_minus_one() as nat)
            <= if a.spec_winternitz_minus_one() == 15 { 16int } else { 8int },
    {
    let m = a.spec_message_size() as nat;
    let w = a.spec_winternitz_minus_one() as nat;
    if w == 15 {
        lemma_ilog_mono(15, spec_l1(m, w), 0x2000_0000);
        assert(spec_ilog(15, 3) == 0);
        assert(spec_ilog(15, 47) == 1);
        assert(spec_ilog(15, 706) == 2);
        assert(spec_ilog(15, 10604) == 3);
        assert(spec_ilog(15, 159072) == 4);
        assert(spec_ilog(15, 2386092) == 5);
        assert(spec_ilog(15, 35791394) == 6);
        assert(spec_ilog(15, 0x2000_0000) == 7);
    } else {
        lemma_ilog_mono(255, spec_l1(m, w), 0x1000_0000);
        assert(spec_ilog(255, 16) == 0);
        assert(spec_ilog(255, 4128) == 1);
        assert(spec_ilog(255, 1052688) == 2);
        assert(spec_ilog(255, 0x1000_0000) == 3);
    }
}

/// Byte-wise XOR of two equal-length blocks.
pub open spec fn spec_xor(x: Seq<u8>, y: Seq<u8>) -> Seq<u8> {
    Seq::new(x.len(), |i: int| x[i] ^ y[i])
}

/// One chain advanced from position `start` to position `end`: for each
/// step `j` in `[start, end)`, in increasing order, the block is XORed
/// with the `j`-th randomization block and hashed.
pub open spec fn spec_chain<A: WOtsPlus>(
    a: &A,
    randomization: Seq<Seq<u8>>,
    block: Seq<u8>,
    start: int,
    end: int,
) -> Seq<u8>
    decreases end - start,
{
    if start >= end {
        block
    } else {
        spec_chain(a, randomization, a.spec_hash(spec_xor(block, randomization[start])), start + 1, end)
    }
}

/// Every chain of `data` advanced through its own range of `ranges`.
pub open spec fn spec_advance_data<A: WOtsPlus>(
    a: &A,
    randomization: Seq<Seq<u8>>,
    data: Seq<Seq<u8>>,
    ranges: Seq<(usize, usize)>,
) -> Seq<Seq<u8>> {
    Seq::new(data.len(), |i: int| spec_chain(a, randomization, data[i], ranges[i].0 as int, ranges[i].1 as int))
}

/// The state produced by one chain advancement: the randomization blocks
/// are kept, the data blocks are advanced.
pub open spec fn spec_mul<A: WOtsPlus>(a: &A, st: StateView, ranges: Seq<(usize, usize)>) -> StateView {
    StateView { randomization: st.randomization, data: spec_advance_data(a, st.randomization, st.data, ranges) }
}

/// Advancing a chain from `start` to `mid` and then from `mid` to `end`
/// reaches the same block as advancing from `start` to `end` directly.
pub proof fn lemma_chain_compose<A: WOtsPlus>(
    a: &A,
    randomization: Seq<Seq<u8>>,
    block: Seq<u8>,
    start: int,
    mid: int,
    end: int,
)
    requires
        start <= mid <= end,
    ensures
        spec_chain(a, randomization, spec_chain(a, randomization, block, start, mid), mid, end)
            == spec_chain(a, randomization, block, start, end),
    decreases mid - start,
{
    if start < mid {
        lemma_chain_compose(
            a,
            randomization,
            a.spec_hash(spec_xor(block, randomization[start])),
            start + 1,
            mid,
            end,
        );
    }
}

/// Byte-wise XOR of two equal-length blocks.
fn xor_block(x: &Vec<u8>, y: &Vec<u8>) -> (r: Vec<u8>)
    requires
        x@.len() == y@.len(),
    ensures
        r@ == spec_xor(x@, y@),
{
    let mut r: Vec<u8> = Vec::new();
    let mut i: usize = 0;
    while i < x.len()
        invariant
            i <= x@.len(),
            x@.len() == y@.len(),
            r@.len() == i,
            forall|k: int| 0 <= k < i ==> r@[k] == (x@[k] ^ y@[k]),
        decreases x@.len() - i,
    {
        r.push(x[i] ^ y[i]);
        i = i + 1;
    }
    proof {
        assert(r@ =~= spec_xor(x@, y@));
    }
    r
}

/// A fresh block with the same bytes.
fn copy_block(b: &Vec<u8>) -> (r: Vec<u8>)
    ensures
        r@ == b@,
{
    let mut r: Vec<u8> = Vec::new();
    let mut i: usize = 0;
    while i < b.len()
        invariant
            i <= b@.len(),
            r@ == b@.take(i as int),
        decreases b@.len() - i,
    {
        r.push(b[i]);
        proof {
            assert(b@.take(i + 1) =~= b@.take(i as int).push(b@[i as int]));
        }
        i = i + 1;
    }
    proof {
        assert(b@.take(b@.len() as int) =~= b@);
    }
    r
}

/// Fresh blocks with the same bytes.
fn copy_blocks(v: &Vec<Vec<u8>>) -> (r: Vec<Vec<u8>>)
    ensures
        blocks_view(r@) == blocks_view(v@),
{
    let mut r: Vec<Vec<u8>> = Vec::new();
    let mut i: usize = 0;
    while i < v.len()
        invariant
            i <= v@.len(),
            r@.len() == i,
            forall|k: int| 0 <= k < i ==> (#[trigger] r@[k])@ == v@[k]@,
        decreases v@.len() - i,
    {
        r.push(copy_block(&v[i]));
        i = i + 1;
    }
    proof {
        assert(blocks_view(r@) =~= blocks_view(v@));
    }
    r
}

impl State {
    /// The chain-advance operator. For each chain `i` independently, the
    /// current value is stepped once per position `j` in the chain's range,
    /// in increasing order, each step hashing the value XORed with the
    /// `j`-th randomization block. A new state is allocated; the input is
    /// never changed, and the randomization blocks carry over.
    pub fn mul<A: WOtsPlus>(&self, a: &A, rhs: &Message) -> (r: State)
        requires
            params_valid(a),
            state_wf(a, self@),
            rhs@.len() == self@.data.len(),
            forall|i: int|
                0 <= i < rhs@.len() ==> (#[trigger] rhs@[i]).0 <= rhs@[i].1
                    && rhs@[i].1 <= a.spec_winternitz_minus_one(),
        ensures
            r@ == spec_mul(a, self@, rhs@),
            state_wf(a, r@),
    {
        let randomization = copy_blocks(&self.randomization);
        let mut data: Vec<Vec<u8>> = Vec::new();
        let mut i: usize = 0;
        while i < self.data.len()
            invariant
                params_valid(a),
                state_wf(a, self@),
                rhs@.len() == self@.data.len(),
                forall|k: int|
                    0 <= k < rhs@.len() ==> (#[trigger] rhs@[k]).0 <= rhs@[k].1
                        && rhs@[k].1 <= a.spec_winternitz_minus_one(),
                i <= self@.data.len(),
                self@.data.len() == self.data@.len(),
                data@.len() == i,
                forall|k: int|
                    0 <= k < i ==> (#[trigger] data@[k])@ == spec_chain(
                        a,
                        self@.randomization,
                        self@.data[k],
                        rhs@[k].0 as int,
                        rhs@[k].1 as int,
                    ),
                forall|k: int| 0 <= k < i ==> (#[trigger] data@[k])@.len() == a.spec_block_length(),
            decreases self.data@.len() - i,
        {
            let (start, end) = (rhs.ranges[i].0, rhs.ranges[i].1);
            let mut block = copy_block(&self.data[i]);
            proof {
                assert(self@.data[i as int] == self.data@[i as int]@);
            }
            let mut j: usize = start;
            while j < end
                invariant
                    start <= j <= end,
                    end <= a.spec_winternitz_minus_one(),
                    state_wf(a, self@),
                    i < self@.data.len(),
                    self@.data.len() == self.data@.len(),
                    block@.len() == a.spec_block_length(),
                    spec_chain(a, self@.randomization, self@.data[i as int], start as int, end as int)
                        == spec_chain(a, self@.randomization, block@, j as int, end as int),
                decreases end - j,
            {
                let x = xor_block(&block, &self.randomization[j]);
                proof {
                    assert(x@ == spec_xor(block@, self@.randomization[j as int]));
                }
                block = a.hash(x);
                j = j + 1;
            }
            data.push(block);
            i = i + 1;
        }
        let r = State { randomization, data };
        proof {
            assert(r@.data =~= spec_advance_data(a, self@.randomization, self@.data, rhs@));
            assert(r@ =~= spec_mul(a, self@, rhs@));
        }
        r
    }
}

/// The derived lengths are a pure function of the parameters — every
/// caller computes the same pair — and their sum equals the chain count
/// carried by every consistent state.
pub proof fn lemma_lengths_chain_count<A: WOtsPlus>(a: &A, st: StateView)
    requires
        params_valid(a),
        state_wf(a, st),
    ensures
        st.data.len() == spec_l1(a.spec_message_size() as nat, a.spec_winternitz_minus_one() as nat)
            + spec_l2(a.spec_message_size() as nat, a.spec_winternitz_minus_one() as nat),
{
}

/// The bytes of a sequence of blocks, laid end to end.
pub open spec fn concat_blocks(blocks: Seq<Seq<u8>>) -> Seq<u8>
    decreases blocks.len(),
{
    if blocks.len() == 0 {
        Seq::empty()
    } else {
        concat_blocks(blocks.drop_last()) + blocks.last()
    }
}

proof fn lemma_concat_blocks_add(x: Seq<Seq<u8>>, y: Seq<Seq<u8>>)
    ensures
        concat_blocks(x + y) == concat_blocks(x) + concat_blocks(y),
    decreases y.len(),
{
    if y.len() == 0 {
        assert(x + y =~= x);
        assert(concat_blocks(x) + concat_blocks(y) =~= concat_blocks(x));
    } else {
        lemma_concat_blocks_add(x, y.drop_last());
        assert((x + y).drop_last() =~= x + y.drop_last());
        assert(concat_blocks(x) + (concat_blocks(y.drop_last()) + y.last()) =~= (concat_blocks(x)
            + concat_blocks(y.drop_last())) + y.last());
    }
}

/// The lowercase character for a value below sixteen: a decimal digit, or
/// a letter from `a` for ten on.
pub open spec fn spec_hex_char(v: u8) -> char {
    if v < 10 {
        ((v + 48) as char)
    } else {
        ((v + 87) as char)
    }
}

/// The lowercase hexadecimal rendering of a byte string: two characters
/// per byte, high nibble first.
pub open spec fn spec_hex(bytes: Seq<u8>) -> Seq<char> {
    Seq::new(
        2 * bytes.len(),
        |i: int|
            if i % 2 == 0 {
                spec_hex_char(bytes[i / 2] / 16)
            } else {
                spec_hex_char(bytes[i / 2] % 16)
            },
    )
}

/// Relies on hex::encode: each byte becomes two lowercase hexadecimal
/// digits, high nibble first, from the table `0123456789abcdef`.
#[verifier::external_body]
fn hex_encode(bytes: &Vec<u8>) -> (r: String)
    ensures
        r@ == spec_hex(bytes@),
{
    hex::encode(bytes)
}

/// Appends a block's bytes to a buffer.
fn append_block(bytes: &mut Vec<u8>, b: &Vec<u8>)
    ensures
        final(bytes)@ == old(bytes)@ + b@,
{
    let mut i: usize = 0;
    while i < b.len()
        invariant
            i <= b@.len(),
            bytes@ == old(bytes)@ + b@.take(i as int),
        decreases b@.len() - i,
    {
        bytes.push(b[i]);
        proof {
            assert(old(bytes)@ + b@.take(i + 1) =~= (old(bytes)@ + b@.take(i as int)).push(
                b@[i as int],
            ));
        }
        i = i + 1;
    }
    proof {
        assert(old(bytes)@ + b@.take(b@.len() as int) =~= old(bytes)@ + b@);
    }
}

impl State {
    /// The state rendered in lowercase hexadecimal: the bytes of the
    /// randomization blocks, then of the data blocks, two digits per byte.
    pub fn to_hex(&self) -> (r: String)
        ensures
            r@ == spec_hex(concat_blocks(self@.randomization + self@.data)),
    {
        let mut bytes: Vec<u8> = Vec::new();
        let mut i: usize = 0;
        while i < self.randomization.len()
            invariant
                i <= self@.randomization.len(),
                self@.randomization.len() == self.randomization@.len(),
                bytes@ == concat_blocks(self@.randomization.take(i as int)),
            decreases self.randomization@.len() - i,
        {
            append_block(&mut bytes, &self.randomization[i]);
            proof {
                assert(self@.randomization.take(i + 1).drop_last() =~= self@.randomization.take(
                    i as int,
                ));
                assert(self@.randomization.take(i + 1).last() == self.randomization@[i as int]@);
            }
            i = i + 1;
        }
        proof {
            assert(self@.randomization.take(self@.randomization.len() as int)
                =~= self@.randomization);
        }
        let mut k: usize = 0;
        while k < self.data.len()
            invariant
                k <= self@.data.len(),
                self@.data.len() == self.data@.len(),
                bytes@ == concat_blocks(self@.randomization) + concat_blocks(
                    self@.data.take(k as int),
                ),
            decreases self.data@.len() - k,
        {
            append_block(&mut bytes, &self.data[k]);
            proof {
                assert(self@.data.take(k + 1).drop_last() =~= self@.data.take(k as int));
                assert(self@.data.take(k + 1).last() == self.data@[k as int]@);
                assert((concat_blocks(self@.randomization) + concat_blocks(self@.data.take(k as int)))
                    + self.data@[k as int]@ =~= concat_blocks(self@.randomization) + (concat_blocks(
                    self@.data.take(k as int),
                ) + self.data@[k as int]@));
            }
            k = k + 1;
        }
        proof {
            assert(self@.data.take(self@.data.len() as int) =~= self@.data);
            lemma_concat_blocks_add(self@.randomization, self@.data);
        }
        hex_encode(&bytes)
    }
}

/// An encoded message: one half-open range of chain positions per chain,
/// produced from a digest and consumed exactly once by a chain advancement.
pub struct Message {
    pub(crate) ranges: Vec<(usize, usize)>,
}

impl View for Message {
    type V = Seq<(usize, usize)>;

    closed spec fn view(&self) -> Seq<(usize, usize)> {
        self.ranges@
    }
}

/// Relies on byteorder's `BigEndian::write_u64`, which stores the eight
/// bytes of `n.to_be_bytes()`: the integer's bytes, most significant first.
#[verifier::external_body]
fn u64_to_be_bytes(v: u64) -> (r: Vec<u8>)
    ensures
        r@ == spec_be_bytes(v),
{
    let mut buffer = [0u8; 8];
    <byteorder::BigEndian as byteorder::ByteOrder>::write_u64(&mut buffer, v);
    buffer.to_vec()
}

impl Message {
    /// An encoding with no ranges yet.
    fn empty() -> (r: Message)
        ensures
            r@ == Seq::<(usize, usize)>::empty(),
    {
        Message { ranges: Vec::new() }
    }

    /// Appends the forward range `[0, v)` for one more chain.
    fn add(self, v: u8) -> (r: Message)
        ensures
            r@ == self@.push((0usize, v as usize)),
    {
        let mut s = self;
        s.ranges.push((0, v as usize));
        s
    }

    /// Splits `buffer` into base-`(w+1)` digits and appends the last
    /// `count` of them as forward ranges.
    fn add_many(self, w: usize, buffer: &Vec<u8>, count: usize) -> (r: Message)
        requires
            w == 15 || w == 255,
            count <= spec_digits(w, buffer@).len(),
        ensures
            r@ == self@ + spec_digits(w, buffer@).skip(
                spec_digits(w, buffer@).len() - count,
            ).map_values(|d: usize| (0usize, d)),
    {
        let mut g = Message::empty();
        let mut i: usize = 0;
        while i < buffer.len()
            invariant
                w == 15 || w == 255,
                i <= buffer@.len(),
                g@ == spec_digits(w, buffer@.take(i as int)).map_values(|d: usize| (0usize, d)),
            decreases buffer@.len() - i,
        {
            if w == 15 {
                g = g.add(buffer[i] / 16).add(buffer[i] % 16);
            } else {
                g = g.add(buffer[i]);
            }
            proof {
                assert(g@ =~= spec_digits(w, buffer@.take(i + 1)).map_values(
                    |d: usize| (0usize, d),
                ));
            }
            i = i + 1;
        }
        proof {
            assert(buffer@.take(buffer@.len() as int) =~= buffer@);
        }
        let total = g.ranges.len();
        let base = total - count;
        let mut s = self;
        let mut k: usize = base;
        while k < total
            invariant
                base <= k <= total,
                total == g@.len(),
                s@ == self@ + g@.subrange(base as int, k as int),
            decreases total - k,
        {
            let e = g.ranges[k];
            s.ranges.push(e);
            proof {
                assert(g@.subrange(base as int, k + 1) =~= g@.subrange(
                    base as int,
                    k as int,
                ).push(g@[k as int]));
            }
            k = k + 1;
        }
        proof {
            assert(s@ =~= self@ + spec_digits(w, buffer@).skip(
                spec_digits(w, buffer@).len() - count,
            ).map_values(|d: usize| (0usize, d)));
        }
        s
    }

    /// Appends the checksum: the sum of remaining steps `w - d` over the
    /// digits so far, written big-endian, re-split into digits, of which
    /// the last `L2` become forward ranges.
    fn checksum<A: WOtsPlus>(self, a: &A) -> (r: Message)
        requires
            params_valid(a),
            self@.len() == spec_l1(
                a.spec_message_size() as nat,
                a.spec_winternitz_minus_one() as nat,
            ),
            forall|i: int|
                0 <= i < self@.len() ==> (#[trigger] self@[i]).1 <= a.spec_winternitz_minus_one(),
        ensures
            r@ == self@ + spec_checksum_digits(
                a,
                self@.map_values(|p: (usize, usize)| p.1),
            ).map_values(|d: usize| (0usize, d)),
    {
        let (l1, l2) = State::lengths(a);
        let w = a.winternitz_minus_one();
        let ghost ends = self@.map_values(|p: (usize, usize)| p.1);
        let mut sum: u64 = 0;
        let mut i: usize = 0;
        while i < self.ranges.len()
            invariant
                i <= self@.len(),
                self@.len() <= 0x2000_0000,
                w == a.spec_winternitz_minus_one(),
                w == 15 || w == 255,
                ends == self@.map_values(|p: (usize, usize)| p.1),
                forall|k: int|
                    0 <= k < self@.len() ==> (#[trigger] self@[k]).1
                        <= a.spec_winternitz_minus_one(),
                sum == spec_remaining_sum(w, ends.take(i as int)),
                sum <= 0x2000_0000 * 255,
            decreases self@.len() - i,
        {
            let e = self.ranges[i].1;
            sum = sum + (w - e) as u64;
            proof {
                assert(ends.take(i + 1).drop_last() =~= ends.take(i as int));
                assert(forall|k: int|
                    0 <= k < ends.take(i + 1).len() ==> #[trigger] ends.take(i + 1)[k] <= w);
                lemma_remaining_sum_bounds(w, ends.take(i + 1));
                assert((i + 1) * w <= 0x2000_0000 * 255) by (nonlinear_arith)
                    requires
                        0 <= i,
                        i + 1 <= 0x2000_0000,
                        0 <= w <= 255,
                ;
            }
            i = i + 1;
        }
        proof {
            assert(ends.take(ends.len() as int) =~= ends);
            lemma_l2_fits(a);
        }
        let buffer = u64_to_be_bytes(sum);
        self.add_many(w, &buffer, l2)
    }

    /// The encoding of a digest: the digest's `L1` base-`(w+1)` digits and
    /// the `L2` checksum digits, each digit `d` as the forward range
    /// `[0, d)` for its chain.
    pub fn message<A: WOtsPlus>(a: &A, digest: &Vec<u8>) -> (r: Message)
        requires
            params_valid(a),
            digest@.len() == a.spec_message_size(),
        ensures
            r@ == spec_message_ranges(a, digest@),
            r@.len() == spec_l1(a.spec_message_size() as nat, a.spec_winternitz_minus_one() as nat)
                + spec_l2(a.spec_message_size() as nat, a.spec_winternitz_minus_one() as nat),
            forall|i: int|
                0 <= i < r@.len() ==> (#[trigger] r@[i]).0 == 0 && r@[i].1
                    <= a.spec_winternitz_minus_one(),
    {
        let (l1, _l2) = State::lengths(a);
        let w = a.winternitz_minus_one();
        let ghost digits = spec_digits(w, digest@);
        proof {
            lemma_digit_bounds(w, digest@);
        }
        let s1 = Message::empty().add_many(w, digest, l1);
        proof {
            assert(digits.skip(digits.len() - l1) =~= digits);
            assert(s1@ =~= digits.map_values(|d: usize| (0usize, d)));
            assert(s1@.map_values(|p: (usize, usize)| p.1) =~= digits);
        }
        let r = s1.checksum(a);
        proof {
            lemma_l2_fits(a);
            lemma_digit_bounds(w, spec_be_bytes(spec_remaining_sum(w, digits) as u64));
            assert(r@ =~= spec_message_ranges(a, digest@));
        }
        r
    }

    /// The encoding that advances every one of the `L` chains to its
    /// terminal position: the full range `[0, w)`, one step per
    /// randomization block.
    pub fn infinity<A: WOtsPlus>(a: &A) -> (r: Message)
        requires
            params_valid(a),
        ensures
            r@ == spec_infinity_ranges(
                spec_l1(a.spec_message_size() as nat, a.spec_winternitz_minus_one() as nat)
                    + spec_l2(a.spec_message_size() as nat, a.spec_winternitz_minus_one() as nat),
                a.spec_winternitz_minus_one(),
            ),
    {
        let (l1, l2) = State::lengths(a);
        let w = a.winternitz_minus_one();
        proof {
            lemma_l2_fits(a);
        }
        let count = l1 + l2;
        let mut ranges: Vec<(usize, usize)> = Vec::new();
        let mut i: usize = 0;
        while i < count
            invariant
                i <= count,
                w == a.spec_winternitz_minus_one(),
                ranges@.len() == i,
                forall|k: int| 0 <= k < i ==> #[trigger] ranges@[k] == (0usize, w),
            decreases count - i,
        {
            ranges.push((0, w));
            i = i + 1;
        }
        proof {
            assert(ranges@ =~= spec_infinity_ranges(count as nat, w));
        }
        Message { ranges }
    }

    /// The per-chain ranges of this encoding, in chain order.
    pub fn ranges(&self) -> (r: &Vec<(usize, usize)>)
        ensures
            r@ == self@,
    {
        &self.ranges
    }

    /// The inversion of this encoding: each range `[s, e)` becomes
    /// `[e, w)`, the steps still needed to reach the terminal position
    /// from the already-signed position.
    pub fn inverse<A: WOtsPlus>(self, a: &A) -> (r: Message)
        ensures
            r@ == spec_inverse_ranges(a.spec_winternitz_minus_one(), self@),
    {
        let w = a.winternitz_minus_one();
        let mut ranges: Vec<(usize, usize)> = Vec::new();
        let mut i: usize = 0;
        while i < self.ranges.len()
            invariant
                i <= self@.len(),
                w == a.spec_winternitz_minus_one(),
                ranges@.len() == i,
                forall|k: int| 0 <= k < i ==> #[trigger] ranges@[k] == (self@[k].1, w),
            decreases self@.len() - i,
        {
            let e = self.ranges[i].1;
            ranges.push((e, w));
            i = i + 1;
        }
        proof {
            assert(ranges@ =~= spec_inverse_ranges(w, self@));
        }
        Message { ranges }
    }
}

} // verus!
