//! Dispatch-ordering evidence from a verifiable delay function.
//!
//! Within a priority tier the outbound queue orders by a timestamp that the local
//! device assigns and controls. Where a device operator benefits from reordering, an
//! envelope can carry a proof that its sender spent a known amount of sequential work
//! on it after the round's seed was published.
//!
//! The construction is Wesolowski's over an RSA-style modulus `N`: the prover computes
//! `y = x^(2^T) mod N` by `T` squarings and proves it with
//! `π = x^⌊2^T / ℓ⌋ mod N`, where the prime `ℓ` is derived from `x`, `y` and `T`. The
//! verifier checks `π^ℓ · x^(2^T mod ℓ) = y (mod N)`.
//!
//! Caveats:
//!
//! - The delay is sound only if nobody knows the factorization of `N`.
//!   [`VdfParams::generate`] makes `N` from two primes it draws itself, so its caller
//!   knows them: good for tests and demonstrations, not between mutually distrusting
//!   devices.
//! - A proof shows a minimum of elapsed work, never a maximum, and says nothing about
//!   proofs computed in parallel on several cores.
//! - `x` is bound to an `epoch_seed`; publishing an unpredictable seed at the start of
//!   each round is for the mesh layer.
use crate::bytes::{be_bytes, be_bytes32, bytes_lt, lex_lt, u32_to_be_bytes, u64_to_be_bytes};
use crate::hashing::{digests_collide, sha256, sha256_digest};
use crate::natural::{be_value, digits, encoded, Natural};
use crate::queue::priority::TxPriority;
use vstd::arithmetic::div_mod::{
    lemma_fundamental_div_mod, lemma_mul_mod_noop_general, lemma_small_mod,
};
use vstd::arithmetic::power::{
    lemma_pow1, lemma_pow_adds, lemma_pow_mod_noop, lemma_pow_multiplies, pow,
};
use vstd::arithmetic::power2::{lemma_pow2, lemma_pow2_pos, lemma_pow2_unfold, pow2};
use vstd::prelude::*;
use vstd::utf8::encode_utf8;

verus! {

/// Bit length of the challenge prime `ℓ`.
pub const CHALLENGE_PRIME_BITS: u64 = 128;

/// Miller-Rabin rounds for every primality test in this module. The false-positive
/// probability is at most 4^-40.
pub const MILLER_RABIN_ROUNDS: u64 = 40;

pub const INPUT_DOMAIN: &'static str = "stellarconduit-vdf-input-v1";

pub const PRIME_DOMAIN: &'static str = "stellarconduit-vdf-hash-to-prime-v1";

pub const WITNESS_DOMAIN: &'static str = "stellarconduit-vdf-miller-rabin-witness-v1";

// ---------------------------------------------------------------------------
// Primality
// ---------------------------------------------------------------------------

/// The primes below one hundred.
pub open spec fn small_primes() -> Seq<nat> {
    seq![
        2nat, 3, 5, 7, 11, 13, 17, 19, 23, 29, 31, 37, 41, 43, 47, 53, 59, 61, 67, 71, 73, 79, 83,
        89, 97,
    ]
}

/// The base of a Miller-Rabin round for `n`, in `[2, n - 2]`.
pub open spec fn witness(n: nat, round: u64) -> nat {
    be_value(sha256_digest(encode_utf8(WITNESS_DOMAIN@) + encoded(n) + be_bytes(round))@) % (n - 3)
        as nat + 2
}

/// `n` is a strong probable prime to base `a`, where `n - 1 = d·2^r` with `d` odd: `a^d`
/// is 1, or `a^(d·2^k)` is -1 for some `k < r`, modulo `n`.
pub open spec fn passes(n: nat, a: nat, d: nat, r: nat) -> bool {
    ||| pow(a as int, d) % n as int == 1
    ||| exists|k: nat| k < r && #[trigger] pow(a as int, d * pow2(k)) % n as int == n - 1
}

/// `n - 1 = d·2^r` with `d` odd.
pub open spec fn odd_part(n: nat, d: nat, r: nat) -> bool {
    d % 2 == 1 && n - 1 == d * pow2(r)
}

/// `n` is one of the small primes, or no small prime divides it and it passes every
/// Miller-Rabin round.
pub open spec fn probably_prime(n: nat) -> bool {
    ||| small_primes().contains(n)
    ||| {
        &&& n >= 2
        &&& forall|i: int| 0 <= i < small_primes().len() ==> n % #[trigger] small_primes()[i] != 0
        &&& forall|round: u64, d: nat, r: nat|
            round < MILLER_RABIN_ROUNDS && #[trigger] odd_part(n, d, r) ==> passes(
                n,
                #[trigger] witness(n, round),
                d,
                r,
            )
    }
}

fn deterministic_witness(n: &Natural, round: u64) -> (a: Natural)
    requires
        n.wf(),
        n@ > 3,
    ensures
        a.wf(),
        a@ == witness(n@, round),
{
    let mut buf: Vec<u8> = Vec::new();
    buf.extend_from_slice(WITNESS_DOMAIN.as_bytes());
    buf.extend_from_slice(n.to_bytes_be().as_slice());
    buf.extend_from_slice(u64_to_be_bytes(round).as_slice());
    assert(buf@ =~= encode_utf8(WITNESS_DOMAIN@) + encoded(n@) + be_bytes(round));
    let digest = sha256(buf.as_slice());
    let raw = Natural::from_bytes_be(digest.as_slice());
    let span = n.minus(&Natural::from_u64(3));
    raw.modulo(&span).plus(&Natural::from_u64(2))
}

fn small_prime_at(i: usize) -> (p: u64)
    requires
        i < 25,
    ensures
        p == small_primes()[i as int],
        p >= 2,
{
    let sieve: [u64; 25] = [
        2,
        3,
        5,
        7,
        11,
        13,
        17,
        19,
        23,
        29,
        31,
        37,
        41,
        43,
        47,
        53,
        59,
        61,
        67,
        71,
        73,
        79,
        83,
        89,
        97,
    ];
    sieve[i]
}

proof fn lemma_odd_part_unique(n: nat, d: nat, r: nat, e: nat, s: nat)
    requires
        odd_part(n, d, r),
        odd_part(n, e, s),
    ensures
        d == e,
        r == s,
{
    if r < s {
        lemma_odd_part_not_lower(d, r, e, s);
    } else if s < r {
        lemma_odd_part_not_lower(e, s, d, r);
    } else {
        lemma_pow2_pos(r);
        assert(d == e) by (nonlinear_arith)
            requires
                d * pow2(r) == e * pow2(r),
                pow2(r) > 0,
        ;
    }
}

proof fn lemma_odd_part_not_lower(d: nat, r: nat, e: nat, s: nat)
    requires
        d % 2 == 1,
        d * pow2(r) == e * pow2(s),
    ensures
        s <= r,
{
    if r < s {
        let t = (s - r - 1) as nat;
        vstd::arithmetic::power2::lemma_pow2_adds(r, t + 1);
        lemma_pow2_unfold(t + 1);
        lemma_pow2_pos(r);
        assert(d == 2 * (e * pow2(t))) by (nonlinear_arith)
            requires
                d * pow2(r) == e * (pow2(r) * (2 * pow2(t))),
                pow2(r) > 0,
        ;
    }
}

/// Write `n - 1` as `d·2^r` with `d` odd, and return `d`.
fn odd_part_of(n: &Natural) -> (res: (Natural, Ghost<nat>))
    requires
        n.wf(),
        n@ >= 2,
    ensures
        res.0.wf(),
        odd_part(n@, res.0@, res.1@),
{
    let one = Natural::from_u64(1);
    let two = Natural::from_u64(2);
    let mut d = n.minus(&one);
    let ghost mut r: nat = 0;
    proof {
        vstd::arithmetic::power2::lemma2_to64();
        assert(d@ * pow2(0) == d@) by (nonlinear_arith)
            requires
                pow2(0) == 1,
        ;
    }
    let zero = Natural::from_u64(0);
    while d.modulo(&two).equals(&zero)
        invariant
            d.wf(),
            two@ == 2,
            zero@ == 0,
            d@ > 0,
            n@ - 1 == d@ * pow2(r),
        decreases d@,
    {
        let ghost before = d@;
        d = d.divided_by(&two);
        proof {
            lemma_pow2_unfold(r + 1);
            assert(before == 2 * d@);
            assert(before * pow2(r) == d@ * pow2(r + 1)) by (nonlinear_arith)
                requires
                    before == 2 * d@,
                    pow2(r + 1) == 2 * pow2(r),
            ;
            r = r + 1;
        }
    }
    (d, Ghost(r))
}

proof fn lemma_square_mod(a: nat, e: nat, n: nat, x: nat)
    requires
        n > 0,
        x == pow(a as int, e) % n as int,
    ensures
        pow(x as int, 2) % n as int == pow(a as int, e * 2) % n as int,
{
    lemma_pow_mod_noop(pow(a as int, e), 2, n as int);
    lemma_pow_multiplies(a as int, e, 2);
}

/// One Miller-Rabin round.
fn round_passes(
    n: &Natural,
    n_minus_1: &Natural,
    a: &Natural,
    d: &Natural,
    Ghost(r): Ghost<nat>,
) -> (pass: bool)
    requires
        n.wf(),
        n@ > 3,
        n@ % 2 == 1,
        n_minus_1@ == n@ - 1,
        a.wf(),
        d.wf(),
        odd_part(n@, d@, r),
    ensures
        pass == passes(n@, a@, d@, r),
{
    let one = Natural::from_u64(1);
    let two = Natural::from_u64(2);
    let mut x = a.modpow(d, n);
    proof {
        vstd::arithmetic::power2::lemma2_to64();
        assert(d@ * pow2(0) == d@) by (nonlinear_arith)
            requires
                pow2(0) == 1,
        ;
    }
    if x.equals(&one) {
        return true;
    }
    // The exponent that `x` is `a` to the power of: d, 2d, 4d, ... below n - 1.
    let mut exponent = d.copy();
    let ghost mut k: nat = 0;
    if x.equals(n_minus_1) {
        return true;
    }
    let mut doubled = exponent.plus(&exponent);
    proof {
        lemma_pow2_pos(r);
        assert(d@ <= d@ * pow2(r)) by (nonlinear_arith)
            requires
                pow2(r) > 0,
        ;
    }
    while doubled.less_than(n_minus_1)
        invariant
            n.wf(),
            n@ > 3,
            two@ == 2,
            n_minus_1@ == n@ - 1,
            odd_part(n@, d@, r),
            0 < exponent@ < n@,
            exponent@ == d@ * pow2(k),
            doubled@ == 2 * exponent@,
            x@ == pow(a@ as int, exponent@) % n@ as int,
            pow(a@ as int, d@) % n@ as int != 1,
            forall|j: nat|
                j <= k ==> #[trigger] pow(a@ as int, d@ * pow2(j)) % n@ as int != n@ - 1,
        decreases n@ - exponent@,
    {
        proof {
            lemma_square_mod(a@, exponent@, n@, x@);
            lemma_pow2_unfold(k + 1);
            assert(exponent@ * 2 == d@ * pow2(k + 1)) by (nonlinear_arith)
                requires
                    exponent@ == d@ * pow2(k),
                    pow2(k + 1) == 2 * pow2(k),
            ;
        }
        x = x.modpow(&two, n);
        exponent = doubled;
        proof {
            k = k + 1;
        }
        if x.equals(n_minus_1) {
            proof {
                lemma_exponent_below(d@, k, r, exponent@, n@);
            }
            return true;
        }
        doubled = exponent.plus(&exponent);
    }
    proof {
        assert forall|j: nat| j < r implies #[trigger] pow(a@ as int, d@ * pow2(j)) % n@ as int
            != n@ - 1 by {
            lemma_exponent_above(d@, k, r, exponent@, n@);
        }
    }
    false
}

proof fn lemma_exponent_below(d: nat, k: nat, r: nat, exponent: nat, n: nat)
    requires
        exponent == d * pow2(k),
        n - 1 == d * pow2(r),
        exponent < n - 1,
    ensures
        k < r,
{
    if r <= k {
        if r < k {
            vstd::arithmetic::power2::lemma_pow2_strictly_increases(r, k);
        }
        assert(d * pow2(r) <= d * pow2(k)) by (nonlinear_arith)
            requires
                pow2(r) <= pow2(k),
        ;
    }
}

proof fn lemma_exponent_above(d: nat, k: nat, r: nat, exponent: nat, n: nat)
    requires
        exponent == d * pow2(k),
        n - 1 == d * pow2(r),
        n > 3,
        2 * exponent >= n - 1,
    ensures
        r <= k + 1,
{
    if k + 1 < r {
        lemma_pow2_unfold(k + 1);
        vstd::arithmetic::power2::lemma_pow2_strictly_increases(k + 1, r);
        assert(d > 0) by (nonlinear_arith)
            requires
                d * pow2(r) > 0,
        ;
        assert(d * pow2(k + 1) < d * pow2(r)) by (nonlinear_arith)
            requires
                pow2(k + 1) < pow2(r),
                d > 0,
        ;
        assert(d * pow2(k + 1) == 2 * (d * pow2(k))) by (nonlinear_arith)
            requires
                pow2(k + 1) == 2 * pow2(k),
        ;
    }
}

/// Whether `n` is prime, as far as the small primes and the Miller-Rabin rounds tell.
/// The bases are derived from `n`, so everyone who tests the same number reaches the
/// same verdict.
pub fn is_probably_prime_deterministic(n: &Natural) -> (r: bool)
    requires
        n.wf(),
    ensures
        r == probably_prime(n@),
{
    let zero = Natural::from_u64(0);
    let one = Natural::from_u64(1);
    let two = Natural::from_u64(2);
    if n.less_than(&two) {
        assert forall|i: int| 0 <= i < small_primes().len() implies small_primes()[i] != n@ by {}
        return false;
    }
    let mut i: usize = 0;
    while i < 25
        invariant
            i <= 25,
            n.wf(),
            n@ >= 2,
            zero@ == 0,
            forall|j: int|
                0 <= j < i ==> n@ != #[trigger] small_primes()[j] && n@ % small_primes()[j] != 0,
        decreases 25 - i,
    {
        let p = Natural::from_u64(small_prime_at(i));
        if n.equals(&p) {
            assert(small_primes()[i as int] == n@);
            return true;
        }
        if n.modulo(&p).equals(&zero) {
            proof {
                lemma_divided_is_not_small(n@, i as int);
            }
            return false;
        }
        i += 1;
    }
    assert(!small_primes().contains(n@));
    assert(n@ % small_primes()[0] != 0);
    assert(n@ != small_primes()[1]);
    let n_minus_1 = n.minus(&one);
    let (d, Ghost(r)) = odd_part_of(n);
    let mut round: u64 = 0;
    while round < MILLER_RABIN_ROUNDS
        invariant
            n.wf(),
            n@ > 3,
            n@ % 2 == 1,
            n_minus_1@ == n@ - 1,
            d.wf(),
            odd_part(n@, d@, r),
            round <= MILLER_RABIN_ROUNDS,
            !small_primes().contains(n@),
            forall|k: u64| k < round ==> passes(n@, #[trigger] witness(n@, k), d@, r),
        decreases MILLER_RABIN_ROUNDS - round,
    {
        let a = deterministic_witness(n, round);
        if !round_passes(n, &n_minus_1, &a, &d, Ghost(r)) {
            assert(odd_part(n@, d@, r) && !passes(n@, witness(n@, round), d@, r));
            return false;
        }
        round += 1;
    }
    proof {
        assert forall|k: u64, e: nat, s: nat|
            k < MILLER_RABIN_ROUNDS && #[trigger] odd_part(n@, e, s) implies passes(
            n@,
            #[trigger] witness(n@, k),
            e,
            s,
        ) by {
            lemma_odd_part_unique(n@, d@, r, e, s);
        }
    }
    true
}

proof fn lemma_divided_is_not_small(n: nat, i: int)
    requires
        0 <= i < small_primes().len(),
        n != small_primes()[i],
        n >= 2,
        n % small_primes()[i] == 0,
    ensures
        !probably_prime(n),
{
    let p = small_primes()[i];
    assert(!small_primes().contains(n)) by {
        if small_primes().contains(n) {
            let j = choose|j: int| 0 <= j < small_primes().len() && small_primes()[j] == n;
            if n < p {
                lemma_small_mod(n, p);
            } else {
                lemma_small_primes_do_not_divide(p, n);
            }
        }
    }
    assert(n % small_primes()[i] == 0);
}

proof fn lemma_small_primes_do_not_divide(p: nat, q: nat)
    requires
        small_primes().contains(p),
        small_primes().contains(q),
        p < q,
    ensures
        q % p != 0,
{
    lemma_small_prime_cases(p);
    lemma_small_prime_cases(q);
}

proof fn lemma_small_prime_cases(p: nat)
    requires
        small_primes().contains(p),
    ensures
        p == 2 || p == 3 || p == 5 || p == 7 || p == 11 || p == 13 || p == 17 || p == 19 || p == 23 || p == 29 || p == 31 || p == 37 || p == 41 || p == 43 || p == 47 || p == 53 || p == 59 || p == 61 || p == 67 || p == 71 || p == 73 || p == 79 || p == 83 || p == 89 || p == 97,
{
}

// ---------------------------------------------------------------------------
// The challenge
// ---------------------------------------------------------------------------

/// `v` with its highest bit of `bits` and its lowest bit set.
pub open spec fn with_ends_set(v: nat, bits: nat) -> nat {
    let top = pow2((bits - 1) as nat);
    let high = if v < top {
        v + top
    } else {
        v
    };
    if high % 2 == 0 {
        high + 1
    } else {
        high
    }
}

/// Force the top bit (exact bit length) and the bottom bit (odd) of a number of at
/// most `bits` bits.
fn set_ends(v: &Natural, bits: usize) -> (n: Natural)
    requires
        v.wf(),
        bits >= 1,
    ensures
        n.wf(),
        n@ == with_ends_set(v@, bits as nat),
{
    let top = Natural::power_of_two(bits - 1);
    let high = if v.less_than(&top) {
        v.plus(&top)
    } else {
        v.copy()
    };
    if high.modulo(&Natural::from_u64(2)).equals(&Natural::from_u64(0)) {
        high.plus(&Natural::from_u64(1))
    } else {
        high
    }
}

/// The candidate challenge of a transcript for a counter: the first 128 bits of a
/// hash, with the highest and the lowest set.
pub open spec fn challenge_candidate(transcript: Seq<u8>, counter: u64) -> nat {
    with_ends_set(
        be_value(
            sha256_digest(encode_utf8(PRIME_DOMAIN@) + transcript + be_bytes(counter))@.subrange(
                0,
                16,
            ),
        ),
        CHALLENGE_PRIME_BITS as nat,
    )
}

/// The first candidate from `counter` on that is probably prime.
pub open spec fn challenge_from(transcript: Seq<u8>, counter: int) -> Option<nat>
    decreases u64::MAX - counter,
{
    if counter < 0 || counter > u64::MAX {
        None
    } else if probably_prime(challenge_candidate(transcript, counter as u64)) {
        Some(challenge_candidate(transcript, counter as u64))
    } else if counter == u64::MAX {
        None
    } else {
        challenge_from(transcript, counter + 1)
    }
}

/// The challenge of a transcript: the first candidate that is probably prime.
pub open spec fn challenge(transcript: Seq<u8>) -> Option<nat> {
    challenge_from(transcript, 0)
}

/// Deterministically derive a prime of [`CHALLENGE_PRIME_BITS`] bits from a transcript
/// via hash-then-increment, so prover and verifier reach the same value. `None` where
/// no counter leads to one.
pub fn hash_to_prime(transcript: &[u8]) -> (r: Option<Natural>)
    ensures
        match challenge(transcript@) {
            Some(ell) => r matches Some(n) && n.wf() && n@ == ell,
            None => r is None,
        },
{
    let mut counter: u64 = 0;
    loop
        invariant
            challenge(transcript@) == challenge_from(transcript@, counter as int),
        decreases u64::MAX - counter,
    {
        let mut buf: Vec<u8> = Vec::new();
        buf.extend_from_slice(PRIME_DOMAIN.as_bytes());
        buf.extend_from_slice(transcript);
        buf.extend_from_slice(u64_to_be_bytes(counter).as_slice());
        assert(buf@ =~= encode_utf8(PRIME_DOMAIN@) + transcript@ + be_bytes(counter));
        let digest = sha256(buf.as_slice());
        let mut head: Vec<u8> = Vec::new();
        let mut i: usize = 0;
        while i < 16
            invariant
                i <= 16,
                head@ == digest@.subrange(0, i as int),
            decreases 16 - i,
        {
            head.push(digest[i]);
            i += 1;
            assert(head@ =~= digest@.subrange(0, i as int));
        }
        let raw = Natural::from_bytes_be(head.as_slice());
        let candidate = set_ends(&raw, CHALLENGE_PRIME_BITS as usize);
        if is_probably_prime_deterministic(&candidate) {
            return Some(candidate);
        }
        if counter == u64::MAX {
            return None;
        }
        counter += 1;
    }
}

proof fn lemma_be_value_bound(bytes: Seq<u8>)
    ensures
        be_value(bytes) < pow2(8 * bytes.len()),
    decreases bytes.len(),
{
    vstd::arithmetic::power2::lemma2_to64();
    if bytes.len() > 0 {
        lemma_be_value_bound(bytes.drop_last());
        let n = (8 * (bytes.len() - 1)) as nat;
        vstd::arithmetic::power2::lemma_pow2_adds(n, 8);
        assert(pow2(8 * bytes.len()) == pow2(n) * 256);
    }
}

/// Every challenge is odd and has exactly [`CHALLENGE_PRIME_BITS`] bits.
pub proof fn challenge_has_exact_size(transcript: Seq<u8>, ell: nat)
    requires
        challenge(transcript) == Some(ell),
    ensures
        pow2(127) <= ell < pow2(128),
        ell % 2 == 1,
        probably_prime(ell),
{
    lemma_challenge_from(transcript, 0, ell);
}

proof fn lemma_challenge_from(transcript: Seq<u8>, counter: int, ell: nat)
    requires
        challenge_from(transcript, counter) == Some(ell),
    ensures
        pow2(127) <= ell < pow2(128),
        ell % 2 == 1,
        probably_prime(ell),
    decreases u64::MAX - counter,
{
    if probably_prime(challenge_candidate(transcript, counter as u64)) {
        let head = sha256_digest(
            encode_utf8(PRIME_DOMAIN@) + transcript + be_bytes(counter as u64),
        )@.subrange(0, 16);
        lemma_be_value_bound(head);
        lemma_pow2_unfold(127);
        lemma_pow2_unfold(128);
    } else {
        lemma_challenge_from(transcript, counter + 1, ell);
    }
}

// ---------------------------------------------------------------------------
// The delay function
// ---------------------------------------------------------------------------

/// Public parameters for one VDF instance: the modulus and the fixed number of
/// sequential squarings (`T`) that both prover and verifier agree on.
#[derive(Debug, Clone, PartialEq)]
pub struct VdfParams {
    pub modulus: Natural,
    pub delay: u64,
}

/// A Wesolowski VDF proof: the claimed output `y = x^(2^T) mod N` and the proof `π` that
/// it took `T` sequential squarings to produce. `T` itself is not part of it: a verifier
/// never trusts a delay that the prover claims.
#[derive(Debug, Clone, PartialEq)]
pub struct VdfProof {
    pub output: Natural,
    pub pi: Natural,
}

impl VdfParams {
    /// The modulus is a positive number of less than two billion bytes, and two to the
    /// power of the delay can be written down.
    pub open spec fn wf(self) -> bool {
        &&& self.modulus.wf()
        &&& self.modulus@ > 0
        &&& self.modulus.byte_len() <= 0x7fff_0000
        &&& self.delay <= usize::MAX
    }

    /// Generate a fresh modulus locally, from two different primes of `prime_bits` bits,
    /// and pair it with `delay`. The caller can learn the factorization; see the module
    /// docs. `None` where no two such primes were drawn.
    pub fn generate(prime_bits: u64, delay: u64) -> (r: Option<VdfParams>)
        requires
            3 <= prime_bits <= usize::MAX,
        ensures
            r matches Some(params) ==> {
                &&& params.modulus.wf()
                &&& params.delay == delay
                &&& exists|p: nat, q: nat|
                    {
                        &&& #[trigger] (p * q) == params.modulus@
                        &&& p != q
                        &&& probably_prime(p) && probably_prime(q)
                        &&& pow2((prime_bits - 1) as nat) <= p < pow2(prime_bits as nat)
                        &&& pow2((prime_bits - 1) as nat) <= q < pow2(prime_bits as nat)
                    }
            },
    {
        let p = match generate_prime(prime_bits) {
            Some(p) => p,
            None => {
                return None;
            },
        };
        let mut attempts: u64 = u64::MAX;
        while attempts > 0
            invariant
                3 <= prime_bits <= usize::MAX,
                p.wf(),
                probably_prime(p@),
                pow2((prime_bits - 1) as nat) <= p@ < pow2(prime_bits as nat),
            decreases attempts,
        {
            attempts -= 1;
            match generate_prime(prime_bits) {
                Some(q) => {
                    let made = VdfParams::from_primes(&p, &q, delay);
                    if made.is_some() {
                        assert((p@ * q@) == made->0.modulus@);
                        return made;
                    }
                },
                None => {},
            }
        }
        None
    }

    /// Pair the product of two primes with `delay`. `None` where the two are the same.
    pub fn from_primes(p: &Natural, q: &Natural, delay: u64) -> (r: Option<VdfParams>)
        requires
            p.wf(),
            q.wf(),
        ensures
            r is Some <==> p@ != q@,
            r matches Some(params) ==> {
                &&& params.modulus.wf()
                &&& params.modulus@ == p@ * q@
                &&& params.delay == delay
            },
    {
        if q.equals(p) {
            None
        } else {
            Some(VdfParams { modulus: p.times(q), delay })
        }
    }
}

/// The number of exactly `bits` bits that a draw stands for, if it is probably prime.
pub fn prime_from_draw(drawn: &Natural, bits: usize) -> (r: Option<Natural>)
    requires
        drawn.wf(),
        drawn@ < pow2(bits as nat),
        bits >= 2,
    ensures
        r is Some <==> probably_prime(with_ends_set(drawn@, bits as nat)),
        r matches Some(p) ==> {
            &&& p.wf()
            &&& p@ == with_ends_set(drawn@, bits as nat)
            &&& pow2((bits - 1) as nat) <= p@ < pow2(bits as nat)
        },
{
    let candidate = set_ends(drawn, bits);
    proof {
        lemma_pow2_unfold(bits as nat);
        lemma_pow2_unfold((bits - 1) as nat);
    }
    if is_probably_prime_deterministic(&candidate) {
        Some(candidate)
    } else {
        None
    }
}

/// A random number of exactly `bits` bits that is probably prime. `None` where none was
/// drawn.
fn generate_prime(bits: u64) -> (r: Option<Natural>)
    requires
        3 <= bits <= usize::MAX,
    ensures
        r matches Some(p) ==> {
            &&& p.wf()
            &&& probably_prime(p@)
            &&& pow2((bits - 1) as nat) <= p@ < pow2(bits as nat)
        },
{
    let mut attempts: u64 = u64::MAX;
    while attempts > 0
        invariant
            3 <= bits <= usize::MAX,
        decreases attempts,
    {
        attempts -= 1;
        let drawn = Natural::random(bits);
        let found = prime_from_draw(&drawn, bits as usize);
        if found.is_some() {
            return found;
        }
    }
    None
}

impl VdfProof {
    /// The numbers are well formed.
    pub open spec fn wf(self) -> bool {
        self.output.wf() && self.pi.wf()
    }
}

/// The first `k` blocks of the stream that inputs are derived from.
pub open spec fn input_stream(epoch_seed: Seq<u8>, envelope_id: Seq<u8>, k: nat) -> Seq<u8>
    decreases k,
{
    if k == 0 {
        Seq::empty()
    } else {
        input_stream(epoch_seed, envelope_id, (k - 1) as nat) + sha256_digest(
            encode_utf8(INPUT_DOMAIN@) + epoch_seed + envelope_id + be_bytes32((k - 1) as u32),
        )@
    }
}

/// The VDF input of an envelope in a round: as many blocks as it takes for sixteen bytes
/// more than the modulus has, reduced by the modulus.
pub open spec fn vdf_input(modulus: nat, epoch_seed: Seq<u8>, envelope_id: Seq<u8>) -> nat {
    be_value(
        input_stream(
            epoch_seed,
            envelope_id,
            ((digits(modulus).len() + 16 + 31) / 32) as nat,
        ),
    ) % modulus
}

/// Derive the VDF input `x` from `epoch_seed` and `envelope_id`, reduced into
/// `[0, modulus)`.
pub fn derive_input(modulus: &Natural, epoch_seed: &[u8], envelope_id: &[u8]) -> (x: Natural)
    requires
        modulus.wf(),
        modulus@ > 0,
        modulus.byte_len() <= 0x7fff_0000,
    ensures
        x.wf(),
        x@ == vdf_input(modulus@, epoch_seed@, envelope_id@),
{
    let bytes_needed: usize = modulus.len_bytes() + 16;
    let mut buf: Vec<u8> = Vec::new();
    let mut counter: u32 = 0;
    while buf.len() < bytes_needed
        invariant
            bytes_needed == digits(modulus@).len() + 16,
            bytes_needed <= 0x7fff_0010,
            buf@ == input_stream(epoch_seed@, envelope_id@, counter as nat),
            buf.len() == 32 * counter,
            counter <= (bytes_needed + 31) / 32,
        decreases bytes_needed + 31 - buf.len(),
    {
        let mut block: Vec<u8> = Vec::new();
        block.extend_from_slice(INPUT_DOMAIN.as_bytes());
        block.extend_from_slice(epoch_seed);
        block.extend_from_slice(envelope_id);
        block.extend_from_slice(u32_to_be_bytes(counter).as_slice());
        assert(block@ =~= encode_utf8(INPUT_DOMAIN@) + epoch_seed@ + envelope_id@ + be_bytes32(
            counter,
        ));
        let digest = sha256(block.as_slice());
        buf.extend_from_slice(digest.as_slice());
        counter += 1;
        assert(buf@ =~= input_stream(epoch_seed@, envelope_id@, counter as nat));
    }
    assert(counter == (bytes_needed + 31) / 32);
    Natural::from_bytes_be(buf.as_slice()).modulo(modulus)
}

/// The transcript that the challenge is derived from.
pub open spec fn transcript_of(x: nat, y: nat, delay: u64) -> Seq<u8> {
    encoded(x) + encoded(y) + be_bytes(delay)
}

fn transcript(x: &Natural, y: &Natural, delay: u64) -> (t: Vec<u8>)
    requires
        x.wf(),
        y.wf(),
    ensures
        t@ == transcript_of(x@, y@, delay),
{
    let mut t = x.to_bytes_be();
    t.extend_from_slice(y.to_bytes_be().as_slice());
    t.extend_from_slice(u64_to_be_bytes(delay).as_slice());
    assert(t@ =~= transcript_of(x@, y@, delay));
    t
}

/// The delayed output: `x^(2^T) mod N`.
pub open spec fn delayed(x: nat, modulus: nat, delay: u64) -> nat {
    (pow(x as int, pow2(delay as nat)) % modulus as int) as nat
}

/// The delay: `delay` sequential modular squarings of `x`. Nothing here may be replaced
/// by a shortcut without knowing the factorization of the modulus.
pub fn delay_output(x: &Natural, modulus: &Natural, delay: u64) -> (y: Natural)
    requires
        x.wf(),
        x@ < modulus@,
    ensures
        y.wf(),
        y@ == delayed(x@, modulus@, delay),
{
    let mut y = x.copy();
    let mut done: u64 = 0;
    proof {
        vstd::arithmetic::power2::lemma2_to64();
        lemma_pow1(x@ as int);
        lemma_small_mod(x@, modulus@);
    }
    while done < delay
        invariant
            modulus@ > 0,
            done <= delay,
            y.wf(),
            y@ == pow(x@ as int, pow2(done as nat)) % modulus@ as int,
        decreases delay - done,
    {
        proof {
            lemma_square_mod(x@, pow2(done as nat), modulus@, y@);
            lemma_pow2_unfold((done + 1) as nat);
            lemma_pow1(y@ as int);
            lemma_pow_adds(y@ as int, 1, 1);
        }
        y = y.times(&y).modulo(modulus);
        done += 1;
    }
    y
}

/// The proof for a challenge: `x^⌊2^T / ℓ⌋ mod N`.
pub fn proof_for_challenge(x: &Natural, modulus: &Natural, delay: u64, ell: &Natural) -> (pi:
    Natural)
    requires
        modulus@ > 0,
        ell@ > 0,
        delay <= usize::MAX,
    ensures
        pi.wf(),
        pi@ == pow(x@ as int, pow2(delay as nat) / ell@) % modulus@ as int,
{
    let two_pow_t = Natural::power_of_two(delay as usize);
    let q = two_pow_t.divided_by(ell);
    x.modpow(&q, modulus)
}

/// Whether `y` and `pi` satisfy Wesolowski's equation for a challenge:
/// `π^ℓ · x^(2^T mod ℓ) = y (mod N)`.
pub open spec fn equation_holds(
    x: nat,
    y: nat,
    pi: nat,
    modulus: nat,
    delay: u64,
    ell: nat,
) -> bool {
    (pow(pi as int, ell) * pow(x as int, pow2(delay as nat) % ell)) % modulus as int == y
}

/// Check Wesolowski's equation for a challenge. The exponent `2^T mod ℓ` is computed by
/// fast exponentiation, which is what makes verification cheap however large `T` is.
pub fn check_equation(
    x: &Natural,
    proof: &VdfProof,
    modulus: &Natural,
    delay: u64,
    ell: &Natural,
) -> (r: bool)
    requires
        modulus@ > 0,
        ell@ > 0,
    ensures
        r == equation_holds(x@, proof.output@, proof.pi@, modulus@, delay, ell@),
{
    let exponent = Natural::from_u64(2).modpow(&Natural::from_u64(delay), ell);
    let left = proof.pi.modpow(ell, modulus);
    let right = x.modpow(&exponent, modulus);
    proof {
        lemma_pow2(delay as nat);
        lemma_mul_mod_noop_general(
            pow(proof.pi@ as int, ell@),
            pow(x@ as int, exponent@),
            modulus@ as int,
        );
    }
    let product = left.times(&right).modulo(modulus);
    product.equals(&proof.output)
}

/// Whether a proof is valid for an envelope in a round.
pub open spec fn vdf_valid(
    modulus: nat,
    delay: u64,
    epoch_seed: Seq<u8>,
    envelope_id: Seq<u8>,
    y: nat,
    pi: nat,
) -> bool {
    let x = vdf_input(modulus, epoch_seed, envelope_id);
    match challenge(transcript_of(x, y, delay)) {
        Some(ell) => equation_holds(x, y, pi, modulus, delay, ell),
        None => false,
    }
}

/// Evaluate the VDF for `envelope_id` under `epoch_seed`: `params.delay` sequential
/// squarings (the actual delay), then a proof. The proof verifies. `None` where no
/// challenge can be derived.
pub fn evaluate(params: &VdfParams, epoch_seed: &[u8], envelope_id: &[u8]) -> (r: Option<VdfProof>)
    requires
        params.wf(),
    ensures
        ({
            let x = vdf_input(params.modulus@, epoch_seed@, envelope_id@);
            let y = delayed(x, params.modulus@, params.delay);
            match challenge(transcript_of(x, y, params.delay)) {
                None => r is None,
                Some(ell) => r matches Some(p) && {
                    &&& p.wf()
                    &&& p.output@ == y
                    &&& p.pi@ == pow(x as int, pow2(params.delay as nat) / ell)
                        % params.modulus@ as int
                    &&& vdf_valid(
                        params.modulus@,
                        params.delay,
                        epoch_seed@,
                        envelope_id@,
                        p.output@,
                        p.pi@,
                    )
                },
            }
        }),
{
    let x = derive_input(&params.modulus, epoch_seed, envelope_id);
    let y = delay_output(&x, &params.modulus, params.delay);
    match hash_to_prime(transcript(&x, &y, params.delay).as_slice()) {
        None => None,
        Some(ell) => {
            proof {
                challenge_has_exact_size(transcript_of(x@, y@, params.delay), ell@);
                lemma_pow2_pos(127);
                honest_proofs_satisfy_the_equation(x@, params.modulus@, params.delay, ell@);
            }
            let pi = proof_for_challenge(&x, &params.modulus, params.delay, &ell);
            Some(VdfProof { output: y, pi })
        },
    }
}

/// Verify `proof` for `envelope_id` under `epoch_seed`, against the fixed
/// `params.delay`, never a delay the prover claims.
pub fn verify(params: &VdfParams, epoch_seed: &[u8], envelope_id: &[u8], proof: &VdfProof) -> (r:
    bool)
    requires
        params.wf(),
        proof.wf(),
    ensures
        r == vdf_valid(
            params.modulus@,
            params.delay,
            epoch_seed@,
            envelope_id@,
            proof.output@,
            proof.pi@,
        ),
{
    let x = derive_input(&params.modulus, epoch_seed, envelope_id);
    match hash_to_prime(transcript(&x, &proof.output, params.delay).as_slice()) {
        None => false,
        Some(ell) => {
            proof {
                challenge_has_exact_size(
                    transcript_of(x@, proof.output@, params.delay),
                    ell@,
                );
                lemma_pow2_pos(127);
            }
            check_equation(&x, proof, &params.modulus, params.delay, &ell)
        },
    }
}

/// Honest work is accepted: the delayed output and the proof for any challenge satisfy
/// the equation that the verifier checks.
pub proof fn honest_proofs_satisfy_the_equation(x: nat, modulus: nat, delay: u64, ell: nat)
    requires
        modulus > 0,
        ell > 0,
    ensures
        equation_holds(
            x,
            delayed(x, modulus, delay),
            (pow(x as int, pow2(delay as nat) / ell) % modulus as int) as nat,
            modulus,
            delay,
            ell,
        ),
{
    let t = pow2(delay as nat);
    let q = t / ell;
    let r = t % ell;
    let m = modulus as int;
    let b = x as int;
    let pi = pow(b, q) % m;
    lemma_fundamental_div_mod(t as int, ell as int);
    assert(q * ell + r == t) by (nonlinear_arith)
        requires
            t == ell * q + r,
    ;
    // π^ℓ = x^(qℓ)
    lemma_pow_mod_noop(pow(b, q), ell, m);
    lemma_pow_multiplies(b, q, ell);
    assert(pow(pi, ell) % m == pow(b, q * ell) % m);
    // π^ℓ · x^r = x^(qℓ + r)
    lemma_mul_mod_noop_general(pow(pi, ell), pow(b, r), m);
    lemma_mul_mod_noop_general(pow(b, q * ell), pow(b, r), m);
    lemma_pow_adds(b, q * ell, r);
}

// ---------------------------------------------------------------------------
// Dispatch order
// ---------------------------------------------------------------------------

/// One envelope's dispatch-ordering evidence: its priority tier, its self-reported
/// `enqueued_at`, and optionally a [`VdfProof`] for the active round.
#[derive(Debug, Clone)]
pub struct VdfOrderedEntry {
    pub envelope_id: [u8; 32],
    pub priority: TxPriority,
    pub enqueued_at: u64,
    pub proof: Option<VdfProof>,
}

/// Whether an entry has a valid proof for the round.
pub open spec fn has_valid_proof(
    entry: VdfOrderedEntry,
    params: VdfParams,
    epoch_seed: Seq<u8>,
) -> bool {
    entry.proof matches Some(p) && vdf_valid(
        params.modulus@,
        params.delay,
        epoch_seed,
        entry.envelope_id@,
        p.output@,
        p.pi@,
    )
}

/// An entry and whether its evidence was verified.
pub type RankedEntry = (bool, VdfOrderedEntry);

/// Dispatch order: priority tier first, then entries with verified evidence before those
/// without, then `enqueued_at` (oldest first), then `envelope_id`.
pub open spec fn dispatched_before(a: RankedEntry, b: RankedEntry) -> bool {
    if a.1.priority != b.1.priority {
        a.1.priority.rank() > b.1.priority.rank()
    } else if a.0 != b.0 {
        a.0
    } else if a.1.enqueued_at != b.1.enqueued_at {
        a.1.enqueued_at < b.1.enqueued_at
    } else {
        lex_lt(a.1.envelope_id@, b.1.envelope_id@)
    }
}

fn goes_before(a: &RankedEntry, b: &RankedEntry) -> (r: bool)
    ensures
        r == dispatched_before(*a, *b),
{
    let mine: i64 = a.1.priority.to_i64();
    let theirs: i64 = b.1.priority.to_i64();
    if mine != theirs {
        mine > theirs
    } else if a.0 != b.0 {
        a.0
    } else if a.1.enqueued_at != b.1.enqueued_at {
        a.1.enqueued_at < b.1.enqueued_at
    } else {
        bytes_lt(a.1.envelope_id.as_slice(), b.1.envelope_id.as_slice())
    }
}

/// The list with an entry put in front of the first one that it goes before.
pub open spec fn with_entry(list: Seq<RankedEntry>, entry: RankedEntry) -> Seq<RankedEntry>
    decreases list.len(),
{
    if list.len() > 0 && dispatched_before(entry, list.last()) {
        with_entry(list.drop_last(), entry).push(list.last())
    } else {
        list.push(entry)
    }
}

/// The entries in dispatch order; equal entries keep their order.
pub open spec fn in_dispatch_order(entries: Seq<RankedEntry>) -> Seq<RankedEntry>
    decreases entries.len(),
{
    if entries.len() == 0 {
        Seq::empty()
    } else {
        with_entry(in_dispatch_order(entries.drop_last()), entries.last())
    }
}

/// Order entries, given whether the evidence of each was verified.
pub fn sort_ranked(entries: Vec<RankedEntry>) -> (sorted: Vec<RankedEntry>)
    ensures
        sorted@ == in_dispatch_order(entries@),
{
    let ghost given = entries@;
    let mut sorted: Vec<RankedEntry> = Vec::new();
    for entry in iter: entries
        invariant
            iter.seq() == given,
            sorted@ == in_dispatch_order(given.subrange(0, iter.index())),
    {
        let ghost before = sorted@;
        let ghost upto = given.subrange(0, iter.index() + 1);
        assert(upto.drop_last() =~= given.subrange(0, iter.index()));
        assert(upto.last() == entry);
        let mut at: usize = sorted.len();
        assert(before.subrange(0, at as int) =~= before);
        assert(before.subrange(at as int, before.len() as int) =~= Seq::empty());
        assert(with_entry(before, entry) =~= with_entry(before.subrange(0, at as int), entry)
            + before.subrange(at as int, before.len() as int));
        while at > 0 && goes_before(&entry, &sorted[at - 1])
            invariant
                at <= sorted.len(),
                sorted@ == before,
                with_entry(before, entry) == with_entry(before.subrange(0, at as int), entry)
                    + before.subrange(at as int, before.len() as int),
            decreases at,
        {
            let ghost front = before.subrange(0, at as int);
            assert(front.last() == before[at - 1]);
            assert(front.drop_last() =~= before.subrange(0, at - 1));
            assert(with_entry(front, entry) + before.subrange(at as int, before.len() as int)
                =~= with_entry(before.subrange(0, at - 1), entry) + before.subrange(
                at - 1,
                before.len() as int,
            ));
            at -= 1;
        }
        proof {
            let front = before.subrange(0, at as int);
            if at > 0 {
                assert(front.last() == before[at - 1]);
            }
            assert(with_entry(front, entry) =~= front.push(entry));
            assert(before.insert(at as int, entry) =~= front.push(entry) + before.subrange(
                at as int,
                before.len() as int,
            ));
        }
        sorted.insert(at, entry);
    }
    assert(given.subrange(0, given.len() as int) =~= given);
    sorted
}

/// The entries, each with whether its proof is valid for the round.
pub open spec fn ranked(
    entries: Seq<VdfOrderedEntry>,
    params: VdfParams,
    epoch_seed: Seq<u8>,
) -> Seq<RankedEntry> {
    entries.map_values(
        |entry: VdfOrderedEntry| (has_valid_proof(entry, params, epoch_seed), entry),
    )
}

/// The entries of a list without their ranks.
pub open spec fn unranked(list: Seq<RankedEntry>) -> Seq<VdfOrderedEntry> {
    list.map_values(|r: RankedEntry| r.1)
}

/// Order `entries` for dispatch: priority tier first (absolute), then entries with a
/// currently-valid VDF proof for `epoch_seed`/`params` before those without, then
/// self-reported `enqueued_at` (oldest first), then `envelope_id` as a final tiebreak.
pub fn sort_for_dispatch(
    entries: Vec<VdfOrderedEntry>,
    params: &VdfParams,
    epoch_seed: &[u8],
) -> (r: Vec<VdfOrderedEntry>)
    requires
        params.wf(),
        forall|i: int|
            0 <= i < entries@.len() ==> ((#[trigger] entries@[i]).proof matches Some(p) ==> p.wf()),
    ensures
        r@ == unranked(in_dispatch_order(ranked(entries@, *params, epoch_seed@))),
{
    let ghost given = entries@;
    let mut list: Vec<RankedEntry> = Vec::new();
    for entry in iter: entries
        invariant
            iter.seq() == given,
            params.wf(),
            forall|i: int|
                0 <= i < given.len() ==> ((#[trigger] given[i]).proof matches Some(p) ==> p.wf()),
            list@ == ranked(given, *params, epoch_seed@).subrange(0, iter.index()),
    {
        assert(entry == given[iter.index()]);
        let verified = match &entry.proof {
            Some(proof) => verify(params, epoch_seed, entry.envelope_id.as_slice(), proof),
            None => false,
        };
        list.push((verified, entry));
        assert(list@ =~= ranked(given, *params, epoch_seed@).subrange(0, iter.index() + 1));
    }
    assert(ranked(given, *params, epoch_seed@).subrange(0, given.len() as int) =~= ranked(
        given,
        *params,
        epoch_seed@,
    ));
    let sorted = sort_ranked(list);
    let ghost order = sorted@;
    let mut out: Vec<VdfOrderedEntry> = Vec::new();
    for item in iter: sorted
        invariant
            iter.seq() == order,
            out@ == unranked(order).subrange(0, iter.index()),
    {
        let (_, entry) = item;
        out.push(entry);
        assert(out@ =~= unranked(order).subrange(0, iter.index() + 1));
    }
    assert(unranked(order).subrange(0, order.len() as int) =~= unranked(order));
    out
}

proof fn lemma_order_is_total(a: RankedEntry, b: RankedEntry, c: RankedEntry)
    ensures
        !(dispatched_before(a, b) && dispatched_before(b, a)),
        dispatched_before(a, b) && !dispatched_before(c, b) ==> dispatched_before(a, c),
{
    crate::bytes::lex_lt_is_total(a.1.envelope_id@, b.1.envelope_id@);
    crate::bytes::lex_lt_is_total(b.1.envelope_id@, c.1.envelope_id@);
    crate::bytes::lex_lt_is_total(a.1.envelope_id@, c.1.envelope_id@);
    if lex_lt(a.1.envelope_id@, b.1.envelope_id@) && lex_lt(b.1.envelope_id@, c.1.envelope_id@) {
        crate::bytes::lex_lt_is_transitive(
            a.1.envelope_id@,
            b.1.envelope_id@,
            c.1.envelope_id@,
        );
    }
}

/// No entry is in front of one that goes before it.
pub open spec fn is_ordered(list: Seq<RankedEntry>) -> bool {
    forall|i: int, j: int|
        0 <= i < j < list.len() ==> !dispatched_before(#[trigger] list[j], #[trigger] list[i])
}

proof fn lemma_with_entry(list: Seq<RankedEntry>, entry: RankedEntry)
    requires
        is_ordered(list),
    ensures
        is_ordered(with_entry(list, entry)),
        with_entry(list, entry).to_multiset() == list.to_multiset().insert(entry),
    decreases list.len(),
{
    broadcast use vstd::seq_lib::group_to_multiset_ensures;
    broadcast use vstd::multiset::group_multiset_axioms;

    let after = with_entry(list, entry);
    if list.len() > 0 && dispatched_before(entry, list.last()) {
        let front = list.drop_last();
        let last = list.last();
        assert(is_ordered(front)) by {
            assert forall|i: int, j: int| 0 <= i < j < front.len() implies !dispatched_before(
                #[trigger] front[j],
                #[trigger] front[i],
            ) by {
                assert(!dispatched_before(list[j], list[i]));
            }
        }
        lemma_with_entry(front, entry);
        let inner = with_entry(front, entry);
        assert(list =~= front.push(last));
        assert(after.to_multiset() =~= list.to_multiset().insert(entry));
        assert forall|i: int| 0 <= i < inner.len() implies !dispatched_before(
            last,
            #[trigger] inner[i],
        ) by {
            assert(inner.contains(inner[i]));
            assert(inner.to_multiset().count(inner[i]) > 0);
            if inner[i] != entry {
                assert(front.to_multiset().count(inner[i]) > 0);
                assert(front.contains(inner[i]));
                let k = choose|k: int| 0 <= k < front.len() && front[k] == inner[i];
                assert(!dispatched_before(list[list.len() - 1], list[k]));
            } else {
                lemma_order_is_total(entry, last, last);
            }
        }
        assert forall|i: int, j: int| 0 <= i < j < after.len() implies !dispatched_before(
            #[trigger] after[j],
            #[trigger] after[i],
        ) by {
            if j < inner.len() {
                assert(!dispatched_before(inner[j], inner[i]));
            }
        }
    } else {
        assert forall|i: int, j: int| 0 <= i < j < after.len() implies !dispatched_before(
            #[trigger] after[j],
            #[trigger] after[i],
        ) by {
            if j < list.len() {
                assert(!dispatched_before(list[j], list[i]));
            } else if i < list.len() - 1 {
                assert(!dispatched_before(list[list.len() - 1], list[i]));
                lemma_order_is_total(entry, list[i], list.last());
            }
        }
    }
}

/// Dispatch order is an order of the same entries: none is lost or added, and none is in
/// front of one that goes before it.
pub proof fn dispatch_order_is_sorted(entries: Seq<RankedEntry>)
    ensures
        is_ordered(in_dispatch_order(entries)),
        in_dispatch_order(entries).to_multiset() == entries.to_multiset(),
    decreases entries.len(),
{
    broadcast use vstd::seq_lib::group_to_multiset_ensures;

    if entries.len() > 0 {
        let front = entries.drop_last();
        dispatch_order_is_sorted(front);
        lemma_with_entry(in_dispatch_order(front), entries.last());
        assert(entries =~= front.push(entries.last()));
    }
}

/// Priority tiers are absolute: evidence never lifts an entry over a more urgent one.
pub proof fn tiers_are_absolute(a: RankedEntry, b: RankedEntry)
    requires
        a.1.priority.rank() > b.1.priority.rank(),
    ensures
        dispatched_before(a, b),
        !dispatched_before(b, a),
{
}

/// Within a tier, verified evidence beats any self-reported age.
pub proof fn evidence_beats_claimed_age(a: RankedEntry, b: RankedEntry)
    requires
        a.1.priority == b.1.priority,
        a.0,
        !b.0,
    ensures
        dispatched_before(a, b),
        !dispatched_before(b, a),
{
}

/// With no evidence anywhere, the order is that of priority and age alone.
pub proof fn without_evidence_age_decides(a: RankedEntry, b: RankedEntry)
    requires
        !a.0,
        !b.0,
        a.1.priority == b.1.priority,
        a.1.enqueued_at < b.1.enqueued_at,
    ensures
        dispatched_before(a, b),
        !dispatched_before(b, a),
{
}

/// Age decides between equals: of two entries of a tier whose evidence is equally verified,
/// both or neither, the one that was queued earlier goes first; of two that were queued at
/// the same time, the one with the smaller envelope id.
pub proof fn the_oldest_of_equals_goes_first(a: RankedEntry, b: RankedEntry)
    requires
        a.1.priority == b.1.priority,
        a.0 == b.0,
    ensures
        a.1.enqueued_at < b.1.enqueued_at ==> dispatched_before(a, b) && !dispatched_before(b, a),
        a.1.enqueued_at == b.1.enqueued_at && lex_lt(a.1.envelope_id@, b.1.envelope_id@)
            ==> dispatched_before(a, b) && !dispatched_before(b, a),
        a.1.enqueued_at == b.1.enqueued_at && a.1.envelope_id == b.1.envelope_id
            ==> !dispatched_before(a, b) && !dispatched_before(b, a),
{
    crate::bytes::lex_lt_is_total(a.1.envelope_id@, b.1.envelope_id@);
}

/// What stands in front of what in the list that is dispatched: no entry is behind one of a
/// less urgent tier; within a tier none with verified evidence is behind one without; of
/// equally verified ones none is behind a later one; and of those that were queued at the
/// same time none is behind one with a larger id.
pub proof fn dispatched_entries_are_in_order(entries: Seq<RankedEntry>, i: int, j: int)
    requires
        0 <= i < j < in_dispatch_order(entries).len(),
    ensures
        ({
            let first = in_dispatch_order(entries)[i];
            let second = in_dispatch_order(entries)[j];
            &&& first.1.priority.rank() >= second.1.priority.rank()
            &&& first.1.priority == second.1.priority ==> {
                &&& second.0 ==> first.0
                &&& first.0 == second.0 ==> first.1.enqueued_at <= second.1.enqueued_at
                &&& first.0 == second.0 && first.1.enqueued_at == second.1.enqueued_at ==> !lex_lt(
                    second.1.envelope_id@,
                    first.1.envelope_id@,
                )
            }
        }),
{
    dispatch_order_is_sorted(entries);
    let list = in_dispatch_order(entries);
    assert(!dispatched_before(list[j], list[i]));
}

/// Sorting keeps every entry as it is, with its own evidence: as many come out as went in,
/// and each of them went in.
pub proof fn dispatched_entries_are_those_given(
    entries: Seq<VdfOrderedEntry>,
    params: VdfParams,
    epoch_seed: Seq<u8>,
)
    ensures
        ({
            let out = unranked(in_dispatch_order(ranked(entries, params, epoch_seed)));
            &&& out.len() == entries.len()
            &&& out.to_multiset() == entries.to_multiset()
        }),
        forall|i: int|
            0 <= i < entries.len() ==> (#[trigger] ranked(entries, params, epoch_seed)[i]).1
                == entries[i] && ranked(entries, params, epoch_seed)[i].0 == has_valid_proof(
                entries[i],
                params,
                epoch_seed,
            ),
{
    let list = ranked(entries, params, epoch_seed);
    dispatch_order_is_sorted(list);
    lemma_unranked(in_dispatch_order(list), list);
    assert(unranked(list) =~= entries);
    in_dispatch_order(list).to_multiset_ensures();
    list.to_multiset_ensures();
}

proof fn lemma_unranked(a: Seq<RankedEntry>, b: Seq<RankedEntry>)
    requires
        a.to_multiset() == b.to_multiset(),
    ensures
        unranked(a).to_multiset() == unranked(b).to_multiset(),
    decreases a.len(),
{
    broadcast use vstd::seq_lib::group_to_multiset_ensures;
    broadcast use vstd::multiset::group_multiset_axioms;

    a.to_multiset_ensures();
    b.to_multiset_ensures();
    assert(a.len() == b.len());
    if a.len() == 0 {
        assert(unranked(a) =~= unranked(b));
    } else {
        let last = a.last();
        let front = a.drop_last();
        assert(a.contains(last));
        assert(b.to_multiset().count(last) > 0);
        assert(b.contains(last));
        let k = choose|k: int| 0 <= k < b.len() && b[k] == last;
        let rest = b.remove(k);
        assert(front.push(last) =~= a);
        assert(a.to_multiset() =~= front.to_multiset().insert(last));
        assert(rest.to_multiset() =~= b.to_multiset().remove(last));
        assert(front.to_multiset() =~= rest.to_multiset());
        lemma_unranked(front, rest);
        assert(unranked(front).push(last.1) =~= unranked(a));
        assert(unranked(rest) =~= unranked(b).remove(k));
        assert(unranked(b)[k] == last.1);
        assert(unranked(b).contains(last.1));
        assert(unranked(b).to_multiset().count(last.1) > 0);
        assert(unranked(b).to_multiset() =~= unranked(rest).to_multiset().insert(last.1));
        assert(unranked(a).to_multiset() =~= unranked(front).to_multiset().insert(last.1));
    }
}

// ---------------------------------------------------------------------------
// What the delay function computes
// ---------------------------------------------------------------------------

/// The delay is sequential squaring: without delay the output is the input, and each further
/// step squares what the steps before it gave.
pub proof fn each_step_squares(x: nat, modulus: nat, delay: u64)
    requires
        modulus > 0,
        delay < u64::MAX,
    ensures
        delayed(x, modulus, 0) == x % modulus,
        delayed(x, modulus, (delay + 1) as u64) == (delayed(x, modulus, delay) * delayed(
            x,
            modulus,
            delay,
        )) % modulus,
{
    let y = delayed(x, modulus, delay);
    vstd::arithmetic::power2::lemma2_to64();
    lemma_pow1(x as int);
    lemma_square_mod(x, pow2(delay as nat), modulus, y);
    lemma_pow2_unfold((delay + 1) as nat);
    lemma_pow1(y as int);
    lemma_pow_adds(y as int, 1, 1);
}

/// A proof leaves no choice of the output: for a challenge, an input and a proof there is one
/// output that satisfies the equation, and it is smaller than the modulus.
pub proof fn proofs_fix_the_output(
    x: nat,
    y: nat,
    other: nat,
    pi: nat,
    modulus: nat,
    delay: u64,
    ell: nat,
)
    requires
        modulus > 0,
        equation_holds(x, y, pi, modulus, delay, ell),
        equation_holds(x, other, pi, modulus, delay, ell),
    ensures
        y == other,
        y < modulus,
{
}

/// A proof is judged for one envelope in one round, with the challenge that the input, the
/// output and the delay lead to; where they lead to none, no proof is valid.
pub proof fn proofs_answer_their_challenge(
    modulus: nat,
    delay: u64,
    epoch_seed: Seq<u8>,
    envelope_id: Seq<u8>,
    y: nat,
    pi: nat,
    entry: VdfOrderedEntry,
    params: VdfParams,
)
    ensures
        challenge(transcript_of(vdf_input(modulus, epoch_seed, envelope_id), y, delay)) is None
            ==> !vdf_valid(modulus, delay, epoch_seed, envelope_id, y, pi),
        challenge(transcript_of(vdf_input(modulus, epoch_seed, envelope_id), y, delay)) matches Some(
            ell,
        ) ==> (vdf_valid(modulus, delay, epoch_seed, envelope_id, y, pi) <==> (pow(pi as int, ell)
            * pow(vdf_input(modulus, epoch_seed, envelope_id) as int, pow2(delay as nat) % ell))
            % modulus as int == y),
        entry.proof is None ==> !has_valid_proof(entry, params, epoch_seed),
        entry.proof matches Some(p) ==> (has_valid_proof(entry, params, epoch_seed) <==> vdf_valid(
            params.modulus@,
            params.delay,
            epoch_seed,
            entry.envelope_id@,
            p.output@,
            p.pi@,
        )),
{
}

/// The challenge is the first candidate that is probably prime.
pub proof fn challenges_are_the_first_prime(transcript: Seq<u8>, ell: nat) -> (counter: u64)
    requires
        challenge(transcript) == Some(ell),
    ensures
        challenge_candidate(transcript, counter) == ell,
        probably_prime(ell),
        forall|c: u64| c < counter ==> !probably_prime(#[trigger] challenge_candidate(transcript, c)),
{
    lemma_first_prime(transcript, 0, ell)
}

proof fn lemma_first_prime(transcript: Seq<u8>, from: int, ell: nat) -> (counter: u64)
    requires
        challenge_from(transcript, from) == Some(ell),
    ensures
        from <= counter,
        challenge_candidate(transcript, counter) == ell,
        probably_prime(ell),
        forall|c: u64|
            from <= c < counter ==> !probably_prime(#[trigger] challenge_candidate(transcript, c)),
    decreases u64::MAX - from,
{
    if probably_prime(challenge_candidate(transcript, from as u64)) {
        from as u64
    } else {
        lemma_first_prime(transcript, from + 1, ell)
    }
}

/// Setting the ends of a number gives an odd number of exactly that many bits, and changes
/// nothing but its highest and its lowest bit.
pub proof fn set_ends_change_two_bits(v: nat, bits: nat)
    requires
        bits >= 2,
        v < pow2(bits),
    ensures
        ({
            let top = pow2((bits - 1) as nat);
            let n = with_ends_set(v, bits);
            &&& n % 2 == 1
            &&& top <= n < pow2(bits)
            &&& n == v || n == v + 1 || n == v + top || n == v + top + 1
            &&& v >= top ==> n - v <= 1
            &&& v % 2 == 1 && v >= top ==> n == v
        }),
{
    lemma_pow2_unfold(bits);
    lemma_pow2_unfold((bits - 1) as nat);
    lemma_pow2_pos((bits - 2) as nat);
}

/// The base of a round is neither trivial nor out of range.
pub proof fn witnesses_are_in_range(n: nat, round: u64)
    requires
        n > 3,
    ensures
        2 <= witness(n, round) <= n - 2,
{
}

/// What passes a round is a Fermat probable prime to its base.
pub proof fn passing_a_round_implies_fermat(n: nat, a: nat, d: nat, r: nat)
    requires
        n > 2,
        odd_part(n, d, r),
        passes(n, a, d, r),
    ensures
        pow(a as int, (n - 1) as nat) % n as int == 1,
{
    let m = n as int;
    let b = a as int;
    if pow(b, d) % m == 1 {
        lemma_pow_mod_noop(pow(b, d), pow2(r), m);
        lemma_pow_multiplies(b, d, pow2(r));
        vstd::arithmetic::power::lemma_pow0(1);
        lemma_one_to_any(pow2(r));
        lemma_small_mod(1, n);
    } else {
        let k = choose|k: nat| k < r && #[trigger] pow(b, d * pow2(k)) % m == m - 1;
        let e = d * pow2(k);
        lemma_square_mod(a, e, n, (n - 1) as nat);
        lemma_pow1(m - 1);
        lemma_pow_adds(m - 1, 1, 1);
        assert((m - 1) * (m - 1) == m * (m - 2) + 1) by (nonlinear_arith);
        vstd::arithmetic::div_mod::lemma_mod_multiples_vanish(m - 2, 1, m);
        lemma_small_mod(1, n);
        assert(pow(b, e * 2) % m == 1);
        let rest = (r - k - 1) as nat;
        lemma_pow_mod_noop(pow(b, e * 2), pow2(rest), m);
        lemma_pow_multiplies(b, e * 2, pow2(rest));
        lemma_one_to_any(pow2(rest));
        lemma_pow2_unfold(k + 1);
        vstd::arithmetic::power2::lemma_pow2_adds(k + 1, rest);
        assert((e * 2) * pow2(rest) == d * pow2(r)) by (nonlinear_arith)
            requires
                e == d * pow2(k),
                pow2(k + 1) == 2 * pow2(k),
                pow2(k + 1) * pow2(rest) == pow2(r),
        ;
    }
}

proof fn lemma_one_to_any(e: nat)
    ensures
        pow(1, e) == 1,
    decreases e,
{
    vstd::arithmetic::power::lemma_pow0(1);
    if e > 0 {
        lemma_one_to_any((e - 1) as nat);
        lemma_pow1(1);
        lemma_pow_adds(1, 1, (e - 1) as nat);
    }
}

/// A root of minus one on the way, or one at the start, passes the round.
pub proof fn square_roots_of_one_pass(n: nat, a: nat, d: nat, r: nat, k: nat)
    ensures
        pow(a as int, d) % n as int == 1 ==> passes(n, a, d, r),
        k < r && pow(a as int, d * pow2(k)) % n as int == n - 1 ==> passes(n, a, d, r),
{
}

/// What counts as prime beyond the small primes: a number that none of them divides and that
/// passes all forty rounds. Zero, one and the multiples of a small prime do not count.
pub proof fn primes_pass_every_round(n: nat, d: nat, r: nat, round: u64)
    requires
        odd_part(n, d, r),
    ensures
        n < 2 ==> !probably_prime(n),
        probably_prime(n) && n >= 100 && round < 40 ==> passes(n, witness(n, round), d, r),
        probably_prime(n) && n >= 100 ==> n % 2 != 0 && n % 3 != 0 && n % 5 != 0 && n % 7 != 0,
{
    if small_primes().contains(n) {
        lemma_small_prime_cases(n);
    }
    assert(small_primes()[0] == 2 && small_primes()[1] == 3 && small_primes()[2] == 5
        && small_primes()[3] == 7);
    if probably_prime(n) && n >= 100 {
        assert(n % small_primes()[0] != 0);
        assert(n % small_primes()[1] != 0);
        assert(n % small_primes()[2] != 0);
        assert(n % small_primes()[3] != 0);
    }
}

/// Below one hundred the verdict is exact: a number counts as prime where it is at least two
/// and is divided by two, three, five or seven only where it is that number.
pub proof fn small_verdicts_are_exact(n: nat)
    requires
        n < 100,
    ensures
        probably_prime(n) <==> {
            &&& n >= 2
            &&& n % 2 == 0 ==> n == 2
            &&& n % 3 == 0 ==> n == 3
            &&& n % 5 == 0 ==> n == 5
            &&& n % 7 == 0 ==> n == 7
        },
{
    let primes = small_primes();
    assert(primes[0] == 2 && primes[1] == 3 && primes[2] == 5 && primes[3] == 7 && primes[4] == 11
        && primes[5] == 13 && primes[6] == 17 && primes[7] == 19 && primes[8] == 23 && primes[9]
        == 29 && primes[10] == 31 && primes[11] == 37 && primes[12] == 41 && primes[13] == 43
        && primes[14] == 47 && primes[15] == 53 && primes[16] == 59 && primes[17] == 61
        && primes[18] == 67 && primes[19] == 71 && primes[20] == 73 && primes[21] == 79
        && primes[22] == 83 && primes[23] == 89 && primes[24] == 97);
    if n >= 2 {
        if n % 2 == 0 && n != 2 {
            lemma_divided_is_not_small(n, 0);
        } else if n % 3 == 0 && n != 3 {
            lemma_divided_is_not_small(n, 1);
        } else if n % 5 == 0 && n != 5 {
            lemma_divided_is_not_small(n, 2);
        } else if n % 7 == 0 && n != 7 {
            lemma_divided_is_not_small(n, 3);
        } else {
            assert(primes.contains(n));
        }
    } else if primes.contains(n) {
        lemma_small_prime_cases(n);
    }
}

/// The stream of an envelope in a round grows by blocks of 32 bytes, and is its own: two
/// envelopes of a round, or two rounds of an envelope, have the same blocks only where they
/// are the same, unless SHA-256 collides on what the blocks are made of.
pub proof fn streams_are_of_one_envelope(
    seed: Seq<u8>,
    id: Seq<u8>,
    other_seed: Seq<u8>,
    other_id: Seq<u8>,
    k: nat,
)
    requires
        k > 0,
        seed.len() == other_seed.len(),
        input_stream(seed, id, k) == input_stream(other_seed, other_id, k),
    ensures
        seed == other_seed && id == other_id || digests_collide(
            encode_utf8(INPUT_DOMAIN@) + seed + id + be_bytes32((k - 1) as u32),
            encode_utf8(INPUT_DOMAIN@) + other_seed + other_id + be_bytes32((k - 1) as u32),
        ),
{
    lemma_stream_len(seed, id, k);
    lemma_stream_len(other_seed, other_id, k);
    lemma_stream_len(seed, id, (k - 1) as nat);
    lemma_stream_len(other_seed, other_id, (k - 1) as nat);
    let x = encode_utf8(INPUT_DOMAIN@) + seed + id + be_bytes32((k - 1) as u32);
    let y = encode_utf8(INPUT_DOMAIN@) + other_seed + other_id + be_bytes32((k - 1) as u32);
    let at = 32 * (k - 1) as int;
    assert(input_stream(seed, id, k).skip(at) =~= sha256_digest(x)@);
    assert(input_stream(other_seed, other_id, k).skip(at) =~= sha256_digest(y)@);
    assert(sha256_digest(x) =~= sha256_digest(y));
    if x == y {
        let d = encode_utf8(INPUT_DOMAIN@).len() as int;
        let s = seed.len() as int;
        let n = x.len() as int;
        crate::bytes::big_endian_bytes_give_the_integer_back(0, (k - 1) as u32);
        assert(x.subrange(d, d + s) =~= seed);
        assert(y.subrange(d, d + s) =~= other_seed);
        assert(x.subrange(d + s, n - 4) =~= id);
        assert(y.subrange(d + s, n - 4) =~= other_id);
    }
}

proof fn lemma_stream_len(seed: Seq<u8>, id: Seq<u8>, k: nat)
    ensures
        input_stream(seed, id, k).len() == 32 * k,
    decreases k,
{
    if k > 0 {
        lemma_stream_len(seed, id, (k - 1) as nat);
    }
}

/// The input of an envelope is what its stream stands for, taken modulo the modulus, from the
/// fewest blocks that are sixteen bytes longer than the modulus.
pub proof fn inputs_come_from_the_stream(modulus: nat, seed: Seq<u8>, id: Seq<u8>, k: nat)
    requires
        modulus > 0,
        32 * k >= digits(modulus).len() + 16,
        32 * k < digits(modulus).len() + 16 + 32,
    ensures
        vdf_input(modulus, seed, id) == be_value(input_stream(seed, id, k)) % modulus,
        vdf_input(modulus, seed, id) < modulus,
        input_stream(seed, id, k).len() == 32 * k,
{
    lemma_stream_len(seed, id, k);
}

/// The transcript commits to the delay, and for an input and a delay to the output.
pub proof fn transcripts_commit_to_the_output(x: nat, y: nat, other: nat, delay: u64, later: u64)
    ensures
        transcript_of(x, y, delay) == transcript_of(x, y, later) ==> delay == later,
        transcript_of(x, y, delay) == transcript_of(x, other, delay) ==> y == other,
        transcript_of(y, x, delay) == transcript_of(other, x, delay) ==> y == other,
{
    crate::bytes::big_endian_bytes_give_the_integer_back(delay, 0);
    crate::bytes::big_endian_bytes_give_the_integer_back(later, 0);
    let n = (encoded(x) + encoded(y)).len() as int;
    assert(transcript_of(x, y, delay).skip(n) =~= be_bytes(delay));
    assert(transcript_of(x, y, later).skip(n) =~= be_bytes(later));
    crate::natural::bytes_give_the_number_back(y, Seq::empty(), 0);
    crate::natural::bytes_give_the_number_back(other, Seq::empty(), 0);
    let a = encoded(x).len() as int;
    if transcript_of(x, y, delay) == transcript_of(x, other, delay) {
        let t = transcript_of(x, y, delay);
        assert(t.subrange(a, t.len() - 8) =~= encoded(y));
        assert(t.subrange(a, t.len() - 8) =~= encoded(other));
    }
    if transcript_of(y, x, delay) == transcript_of(other, x, delay) {
        let t = transcript_of(y, x, delay);
        assert(t.subrange(0, t.len() - 8 - a) =~= encoded(y));
        assert(t.subrange(0, t.len() - 8 - a) =~= encoded(other));
    }
}

/// Candidates and bases are drawn from a hash of everything that they are for: a candidate from
/// the transcript and the counter, a base from the number and the round.
pub proof fn candidates_and_bases_are_hashes(transcript: Seq<u8>, counter: u64, n: nat, round: u64)
    requires
        n > 3,
    ensures
        ({
            let hash = sha256_digest(encode_utf8(PRIME_DOMAIN@) + transcript + be_bytes(counter))@;
            challenge_candidate(transcript, counter) == with_ends_set(
                be_value(hash.subrange(0, 16)),
                128,
            )
        }),
        ({
            let hash = sha256_digest(encode_utf8(WITNESS_DOMAIN@) + encoded(n) + be_bytes(round))@;
            (witness(n, round) - 2) % (n - 3) == be_value(hash) % (n - 3) as nat
        }),
{
    let hash = sha256_digest(encode_utf8(WITNESS_DOMAIN@) + encoded(n) + be_bytes(round))@;
    lemma_small_mod(be_value(hash) % (n - 3) as nat, (n - 3) as nat);
}

} // verus!
