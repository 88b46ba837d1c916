use vstd::prelude::*;

use crate::state::{
    blocks_view, params_valid, spec_infinity_ranges, spec_inverse_ranges, spec_l1, spec_l2,
    spec_message_ranges, spec_mul, state_wf, Message, State, StateView, WOtsPlus,
};
use crate::state::{lemma_chain_compose, lemma_digit_bounds, lemma_l2_fits, spec_digits};

verus! {

/// The state a public key is derived to: every chain of the secret state
/// advanced to its terminal position `w`.
pub open spec fn spec_from_secret<A: WOtsPlus>(a: &A, sk: StateView) -> StateView {
    spec_mul(
        a,
        sk,
        spec_infinity_ranges(
            spec_l1(a.spec_message_size() as nat, a.spec_winternitz_minus_one() as nat) + spec_l2(
                a.spec_message_size() as nat,
                a.spec_winternitz_minus_one() as nat,
            ),
            a.spec_winternitz_minus_one(),
        ),
    )
}

/// The state a signature carries: every chain of the secret state advanced
/// to its digit position under the encoding of `digest`.
pub open spec fn spec_sign<A: WOtsPlus>(a: &A, sk: StateView, digest: Seq<u8>) -> StateView {
    spec_mul(a, sk, spec_message_ranges(a, digest))
}

/// Whether a signature state passes verification against a public-key
/// state: completing every chain from its signed position to the terminal
/// position must reproduce the public key exactly, randomization included.
pub open spec fn spec_verify<A: WOtsPlus>(
    a: &A,
    sig: StateView,
    pk: StateView,
    digest: Seq<u8>,
) -> bool {
    spec_mul(a, sig, spec_inverse_ranges(a.spec_winternitz_minus_one(), spec_message_ranges(a, digest)))
        == pk
}

/// The encoding of a digest has exactly `L1 + L2` forward ranges, each
/// starting at zero and ending at a digit of at most `w`.
pub proof fn lemma_message_ranges<A: WOtsPlus>(a: &A, digest: Seq<u8>)
    requires
        params_valid(a),
        digest.len() == a.spec_message_size(),
    ensures
        spec_message_ranges(a, digest).len() == spec_l1(
            a.spec_message_size() as nat,
            a.spec_winternitz_minus_one() as nat,
        ) + spec_l2(a.spec_message_size() as nat, a.spec_winternitz_minus_one() as nat),
        forall|i: int|
            0 <= i < spec_message_ranges(a, digest).len() ==> (#[trigger] spec_message_ranges(
                a,
                digest,
            )[i]).0 == 0 && spec_message_ranges(a, digest)[i].1 <= a.spec_winternitz_minus_one(),
{
    let w = a.spec_winternitz_minus_one();
    let digits = spec_digits(w, digest);
    lemma_l2_fits(a);
    lemma_digit_bounds(w, digest);
    lemma_digit_bounds(
        w,
        crate::state::spec_be_bytes(crate::state::spec_remaining_sum(w, digits) as u64),
    );
}

/// Chain commutativity under completion: signing and then advancing every
/// chain through its remaining steps reaches the same state as advancing
/// the secret state directly to the terminal position.
pub proof fn lemma_complete_equals_from_secret<A: WOtsPlus>(a: &A, sk: StateView, digest: Seq<u8>)
    requires
        params_valid(a),
        digest.len() == a.spec_message_size(),
        sk.data.len() == spec_l1(a.spec_message_size() as nat, a.spec_winternitz_minus_one() as nat)
            + spec_l2(a.spec_message_size() as nat, a.spec_winternitz_minus_one() as nat),
    ensures
        spec_mul(
            a,
            spec_sign(a, sk, digest),
            spec_inverse_ranges(a.spec_winternitz_minus_one(), spec_message_ranges(a, digest)),
        ) == spec_from_secret(a, sk),
{
    let w = a.spec_winternitz_minus_one();
    let msg = spec_message_ranges(a, digest);
    lemma_message_ranges(a, digest);
    let lhs = spec_mul(a, spec_sign(a, sk, digest), spec_inverse_ranges(w, msg));
    let rhs = spec_from_secret(a, sk);
    assert forall|i: int| 0 <= i < sk.data.len() implies lhs.data[i] == rhs.data[i] by {
        let d = msg[i].1 as int;
        lemma_chain_compose(a, sk.randomization, sk.data[i], 0, d, w as int);
    }
    assert(lhs =~= rhs);
}

/// Round-trip: a signature produced from a secret key and a digest always
/// verifies against the public key derived from that secret key.
pub proof fn lemma_round_trip<A: WOtsPlus>(a: &A, sk: StateView, digest: Seq<u8>)
    requires
        params_valid(a),
        digest.len() == a.spec_message_size(),
        sk.data.len() == spec_l1(a.spec_message_size() as nat, a.spec_winternitz_minus_one() as nat)
            + spec_l2(a.spec_message_size() as nat, a.spec_winternitz_minus_one() as nat),
    ensures
        spec_verify(a, spec_sign(a, sk, digest), spec_from_secret(a, sk), digest),
{
    lemma_complete_equals_from_secret(a, sk, digest);
}

/// Whether two byte blocks hold the same bytes.
fn bytes_equal(x: &Vec<u8>, y: &Vec<u8>) -> (r: bool)
    ensures
        r == (x@ == y@),
{
    if x.len() != y.len() {
        return false;
    }
    let mut i: usize = 0;
    while i < x.len()
        invariant
            i <= x@.len(),
            x@.len() == y@.len(),
            forall|k: int| 0 <= k < i ==> x@[k] == y@[k],
        decreases x@.len() - i,
    {
        if x[i] != y[i] {
            return false;
        }
        i = i + 1;
    }
    proof {
        assert(x@ =~= y@);
    }
    true
}

/// Whether two block vectors hold the same byte sequences.
fn blocks_equal(x: &Vec<Vec<u8>>, y: &Vec<Vec<u8>>) -> (r: bool)
    ensures
        r == (blocks_view(x@) == blocks_view(y@)),
{
    if x.len() != y.len() {
        proof {
            assert(blocks_view(x@).len() != blocks_view(y@).len());
        }
        return false;
    }
    let mut i: usize = 0;
    while i < x.len()
        invariant
            i <= x@.len(),
            x@.len() == y@.len(),
            forall|k: int| 0 <= k < i ==> (#[trigger] x@[k])@ == y@[k]@,
        decreases x@.len() - i,
    {
        if !bytes_equal(&x[i], &y[i]) {
            proof {
                assert(blocks_view(x@)[i as int] != blocks_view(y@)[i as int]);
            }
            return false;
        }
        i = i + 1;
    }
    proof {
        assert(blocks_view(x@) =~= blocks_view(y@));
    }
    true
}

/// A one-time secret key: the chain state at position zero everywhere.
/// It must be used to sign at most once; enforcing that is the calling
/// system's responsibility.
pub struct SecretKey {
    state: State,
}

impl View for SecretKey {
    type V = StateView;

    closed spec fn view(&self) -> StateView {
        self.state@
    }
}

impl SecretKey {
    /// Wraps freshly generated random blocks as a secret key; the caller
    /// supplies all randomness, none is generated here.
    pub fn new<A: WOtsPlus>(a: &A, randomization: Vec<Vec<u8>>, data: Vec<Vec<u8>>) -> (r:
        SecretKey)
        requires
            params_valid(a),
            state_wf(
                a,
                StateView {
                    randomization: blocks_view(randomization@),
                    data: blocks_view(data@),
                },
            ),
        ensures
            r@ == (StateView {
                randomization: blocks_view(randomization@),
                data: blocks_view(data@),
            }),
            state_wf(a, r@),
    {
        SecretKey { state: State::new(a, randomization, data) }
    }

    /// The shared randomization blocks.
    pub fn randomization(&self) -> (r: &Vec<Vec<u8>>)
        ensures
            blocks_view(r@) == self@.randomization,
    {
        self.state.randomization()
    }

    /// The per-chain secret blocks.
    pub fn data(&self) -> (r: &Vec<Vec<u8>>)
        ensures
            blocks_view(r@) == self@.data,
    {
        self.state.data()
    }
}

/// A public key: every chain advanced to its terminal position `w`.
pub struct PublicKey {
    state: State,
}

impl View for PublicKey {
    type V = StateView;

    closed spec fn view(&self) -> StateView {
        self.state@
    }
}

impl PublicKey {
    /// Rebuilds a public key from its raw blocks, as an external store
    /// hands them back.
    pub fn new<A: WOtsPlus>(a: &A, randomization: Vec<Vec<u8>>, data: Vec<Vec<u8>>) -> (r:
        PublicKey)
        requires
            params_valid(a),
            state_wf(
                a,
                StateView {
                    randomization: blocks_view(randomization@),
                    data: blocks_view(data@),
                },
            ),
        ensures
            r@ == (StateView {
                randomization: blocks_view(randomization@),
                data: blocks_view(data@),
            }),
            state_wf(a, r@),
    {
        PublicKey { state: State::new(a, randomization, data) }
    }

    /// Derives the public key: every chain of the secret state advanced
    /// through all `w` steps to its terminal value.
    pub fn from_secret<A: WOtsPlus>(a: &A, secret: &SecretKey) -> (r: PublicKey)
        requires
            params_valid(a),
            state_wf(a, secret@),
        ensures
            r@ == spec_from_secret(a, secret@),
            state_wf(a, r@),
    {
        let inf = Message::infinity(a);
        PublicKey { state: secret.state.mul(a, &inf) }
    }

    /// The shared randomization blocks.
    pub fn randomization(&self) -> (r: &Vec<Vec<u8>>)
        ensures
            blocks_view(r@) == self@.randomization,
    {
        self.state.randomization()
    }

    /// The per-chain public blocks.
    pub fn data(&self) -> (r: &Vec<Vec<u8>>)
        ensures
            blocks_view(r@) == self@.data,
    {
        self.state.data()
    }
}

/// A signature: every chain advanced to the digit position assigned to it
/// by the signed digest's encoding.
pub struct Signature {
    state: State,
}

impl View for Signature {
    type V = StateView;

    closed spec fn view(&self) -> StateView {
        self.state@
    }
}

impl Signature {
    /// Rebuilds a signature from its raw blocks, as an external store or
    /// wire format hands them back.
    pub fn new<A: WOtsPlus>(a: &A, randomization: Vec<Vec<u8>>, data: Vec<Vec<u8>>) -> (r:
        Signature)
        requires
            params_valid(a),
            state_wf(
                a,
                StateView {
                    randomization: blocks_view(randomization@),
                    data: blocks_view(data@),
                },
            ),
        ensures
            r@ == (StateView {
                randomization: blocks_view(randomization@),
                data: blocks_view(data@),
            }),
            state_wf(a, r@),
    {
        Signature { state: State::new(a, randomization, data) }
    }

    /// The shared randomization blocks.
    pub fn randomization(&self) -> (r: &Vec<Vec<u8>>)
        ensures
            blocks_view(r@) == self@.randomization,
    {
        self.state.randomization()
    }

    /// The per-chain signature blocks.
    pub fn data(&self) -> (r: &Vec<Vec<u8>>)
        ensures
            blocks_view(r@) == self@.data,
    {
        self.state.data()
    }

    /// Signs a digest: every chain of the secret state advances only to
    /// its digit position under the digest's encoding.
    pub fn sign<A: WOtsPlus>(a: &A, secret: &SecretKey, digest: &Vec<u8>) -> (r: Signature)
        requires
            params_valid(a),
            state_wf(a, secret@),
            digest@.len() == a.spec_message_size(),
        ensures
            r@ == spec_sign(a, secret@, digest@),
            state_wf(a, r@),
    {
        let msg = Message::message(a, digest);
        Signature { state: secret.state.mul(a, &msg) }
    }

    /// Verifies the signature: completes every chain from its signed
    /// position to the terminal position with the inverted encoding of
    /// `digest`, and compares the outcome block for block against the
    /// public key. Any byte difference rejects; rejection is a normal
    /// `false` outcome, never a failure.
    pub fn verify<A: WOtsPlus>(&self, a: &A, public_key: &PublicKey, digest: &Vec<u8>) -> (r:
        bool)
        requires
            params_valid(a),
            state_wf(a, self@),
            digest@.len() == a.spec_message_size(),
        ensures
            r == spec_verify(a, self@, public_key@, digest@),
    {
        let msg = Message::message(a, digest).inverse(a);
        let completed = self.state.mul(a, &msg);
        let same_randomization = blocks_equal(completed.randomization(), public_key.state.randomization());
        let same_data = blocks_equal(completed.data(), public_key.state.data());
        let r = same_randomization && same_data;
        proof {
            if same_randomization && same_data {
                assert(completed@ =~= public_key@);
            }
        }
        r
    }
}

} // verus!
