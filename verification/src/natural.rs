//! Natural numbers of any size. The arithmetic is that of `num_bigint`; a number is
//! held as its big-endian bytes without leading zeroes.
use vstd::arithmetic::power::pow;
use vstd::arithmetic::power2::pow2;
use vstd::prelude::*;

verus! {

/// The number that a byte string stands for, most significant byte first.
pub open spec fn be_value(bytes: Seq<u8>) -> nat
    decreases bytes.len(),
{
    if bytes.len() == 0 {
        0
    } else {
        be_value(bytes.drop_last()) * 256 + bytes.last() as nat
    }
}

/// The bytes of a number without leading zeroes; none for zero.
pub open spec fn digits(n: nat) -> Seq<u8>
    decreases n,
{
    if n == 0 {
        Seq::empty()
    } else {
        digits(n / 256).push((n % 256) as u8)
    }
}

/// The bytes of a number as it is encoded: one zero byte for zero.
pub open spec fn encoded(n: nat) -> Seq<u8> {
    if n == 0 {
        seq![0u8]
    } else {
        digits(n)
    }
}

// ---------------------------------------------------------------------------
// Arithmetic
// ---------------------------------------------------------------------------

/// Calls the sum of two `num_bigint::BigUint`s.
#[verifier::external_body]
fn big_add(a: &[u8], b: &[u8]) -> (r: Vec<u8>)
    ensures
        be_value(r@) == be_value(a@) + be_value(b@),
{
    let a = num_bigint::BigUint::from_bytes_be(a);
    let b = num_bigint::BigUint::from_bytes_be(b);
    (a + b).to_bytes_be()
}

/// Calls the difference of two `num_bigint::BigUint`s, which panics where it would
/// be negative.
#[verifier::external_body]
fn big_sub(a: &[u8], b: &[u8]) -> (r: Vec<u8>)
    requires
        be_value(a@) >= be_value(b@),
    ensures
        be_value(r@) == be_value(a@) - be_value(b@),
{
    let a = num_bigint::BigUint::from_bytes_be(a);
    let b = num_bigint::BigUint::from_bytes_be(b);
    (a - b).to_bytes_be()
}

/// Calls the product of two `num_bigint::BigUint`s.
#[verifier::external_body]
fn big_mul(a: &[u8], b: &[u8]) -> (r: Vec<u8>)
    ensures
        be_value(r@) == be_value(a@) * be_value(b@),
{
    let a = num_bigint::BigUint::from_bytes_be(a);
    let b = num_bigint::BigUint::from_bytes_be(b);
    (a * b).to_bytes_be()
}

/// Calls the quotient of two `num_bigint::BigUint`s, which panics on a zero divisor.
#[verifier::external_body]
fn big_div(a: &[u8], b: &[u8]) -> (r: Vec<u8>)
    requires
        be_value(b@) > 0,
    ensures
        be_value(r@) == be_value(a@) / be_value(b@),
{
    let a = num_bigint::BigUint::from_bytes_be(a);
    let b = num_bigint::BigUint::from_bytes_be(b);
    (a / b).to_bytes_be()
}

/// Calls the remainder of two `num_bigint::BigUint`s, which panics on a zero divisor.
#[verifier::external_body]
fn big_rem(a: &[u8], b: &[u8]) -> (r: Vec<u8>)
    requires
        be_value(b@) > 0,
    ensures
        be_value(r@) == be_value(a@) % be_value(b@),
{
    let a = num_bigint::BigUint::from_bytes_be(a);
    let b = num_bigint::BigUint::from_bytes_be(b);
    (a % b).to_bytes_be()
}

/// Calls `num_bigint::BigUint::modpow`, which panics on a zero modulus.
#[verifier::external_body]
fn big_modpow(base: &[u8], exponent: &[u8], modulus: &[u8]) -> (r: Vec<u8>)
    requires
        be_value(modulus@) > 0,
    ensures
        be_value(r@) == pow(be_value(base@) as int, be_value(exponent@)) % be_value(modulus@) as int,
{
    let base = num_bigint::BigUint::from_bytes_be(base);
    let exponent = num_bigint::BigUint::from_bytes_be(exponent);
    let modulus = num_bigint::BigUint::from_bytes_be(modulus);
    base.modpow(&exponent, &modulus).to_bytes_be()
}

/// Calls the left shift of a `num_bigint::BigUint`: one, shifted by `bits`.
#[verifier::external_body]
fn big_pow2(bits: usize) -> (r: Vec<u8>)
    ensures
        be_value(r@) == pow2(bits as nat),
{
    (num_bigint::BigUint::from(1u32) << bits).to_bytes_be()
}

/// Calls the comparison of two `num_bigint::BigUint`s.
#[verifier::external_body]
fn big_lt(a: &[u8], b: &[u8]) -> (r: bool)
    ensures
        r == (be_value(a@) < be_value(b@)),
{
    num_bigint::BigUint::from_bytes_be(a) < num_bigint::BigUint::from_bytes_be(b)
}

/// Calls `num_bigint::RandBigInt::gen_biguint` with the operating system's random
/// numbers. The claim: the result has at most `bits` bits.
#[verifier::external_body]
fn big_random(bits: u64) -> (r: Vec<u8>)
    requires
        bits <= usize::MAX,
    ensures
        be_value(r@) < pow2(bits as nat),
{
    num_bigint::RandBigInt::gen_biguint(&mut rand::rngs::OsRng, bits).to_bytes_be()
}

// ---------------------------------------------------------------------------
// The type
// ---------------------------------------------------------------------------

/// A natural number.
#[derive(Debug, Clone, PartialEq, Eq)]
pub struct Natural {
    bytes: Vec<u8>,
}

impl View for Natural {
    type V = nat;

    closed spec fn view(&self) -> nat {
        be_value(self.bytes@)
    }
}

proof fn lemma_leading_zero(bytes: Seq<u8>)
    requires
        bytes.len() > 0,
        bytes[0] == 0,
    ensures
        be_value(bytes.drop_first()) == be_value(bytes),
    decreases bytes.len(),
{
    let rest = bytes.drop_first();
    if bytes.len() == 1 {
        reveal_with_fuel(be_value, 2);
    } else {
        lemma_leading_zero(bytes.drop_last());
        assert(bytes.drop_last().drop_first() =~= rest.drop_last());
        assert(rest.last() == bytes.last());
    }
}

proof fn lemma_digits(bytes: Seq<u8>)
    requires
        bytes.len() > 0 ==> bytes[0] != 0,
    ensures
        digits(be_value(bytes)) == bytes,
        bytes.len() > 0 ==> be_value(bytes) > 0,
    decreases bytes.len(),
{
    if bytes.len() > 0 {
        let front = bytes.drop_last();
        lemma_digits(front);
        let v = be_value(front);
        let n = be_value(bytes);
        assert(n == v * 256 + bytes.last());
        assert(n / 256 == v && n % 256 == bytes.last());
        assert(n > 0) by {
            if front.len() == 0 {
                assert(bytes.last() == bytes[0]);
            }
        }
        assert(front.push(bytes.last()) =~= bytes);
    }
}

impl Natural {
    /// There are no leading zeroes.
    pub closed spec fn wf(self) -> bool {
        self.bytes@.len() > 0 ==> self.bytes@[0] != 0
    }

    /// The number of bytes, without leading zeroes.
    pub open spec fn byte_len(self) -> nat {
        digits(self@).len()
    }

    /// The number that big-endian bytes stand for.
    pub fn from_bytes_be(bytes: &[u8]) -> (n: Natural)
        ensures
            n.wf(),
            n@ == be_value(bytes@),
    {
        let mut first: usize = 0;
        assert(bytes@.skip(0) =~= bytes@);
        while first < bytes.len() && bytes[first] == 0
            invariant
                first <= bytes.len(),
                be_value(bytes@.skip(first as int)) == be_value(bytes@),
            decreases bytes.len() - first,
        {
            proof {
                lemma_leading_zero(bytes@.skip(first as int));
                assert(bytes@.skip(first as int).drop_first() =~= bytes@.skip(first + 1));
            }
            first += 1;
        }
        let mut kept: Vec<u8> = Vec::new();
        let mut i: usize = first;
        while i < bytes.len()
            invariant
                first <= i <= bytes.len(),
                kept@ == bytes@.subrange(first as int, i as int),
            decreases bytes.len() - i,
        {
            kept.push(bytes[i]);
            i += 1;
            assert(kept@ =~= bytes@.subrange(first as int, i as int));
        }
        assert(kept@ =~= bytes@.skip(first as int));
        Natural { bytes: kept }
    }

    /// The big-endian bytes of the number: one zero byte for zero, else no leading
    /// zeroes.
    pub fn to_bytes_be(&self) -> (bytes: Vec<u8>)
        requires
            self.wf(),
        ensures
            bytes@ == encoded(self@),
    {
        proof {
            lemma_digits(self.bytes@);
        }
        if self.bytes.len() == 0 {
            let bytes: Vec<u8> = vec![0u8];
            assert(bytes@ =~= seq![0u8]);
            bytes
        } else {
            self.bytes.clone()
        }
    }

    /// The number of bytes, without leading zeroes.
    pub fn len_bytes(&self) -> (n: usize)
        requires
            self.wf(),
        ensures
            n == self.byte_len(),
    {
        proof {
            lemma_digits(self.bytes@);
        }
        self.bytes.len()
    }

    /// A machine integer as a number.
    pub fn from_u64(x: u64) -> (n: Natural)
        ensures
            n.wf(),
            n@ == x,
        decreases x,
    {
        if x == 0 {
            Natural { bytes: Vec::new() }
        } else {
            let mut front = Natural::from_u64(x / 256);
            let ghost before = front.bytes@;
            front.bytes.push((x % 256) as u8);
            proof {
                assert(front.bytes@.drop_last() =~= before);
                lemma_digits(before);
                if before.len() == 0 {
                    assert(x / 256 == 0);
                    assert(front.bytes@[0] == (x % 256) as u8);
                }
            }
            front
        }
    }

    /// A copy of the number.
    pub fn copy(&self) -> (n: Natural)
        requires
            self.wf(),
        ensures
            n.wf(),
            n@ == self@,
    {
        Natural { bytes: self.bytes.clone() }
    }

    /// The sum of two numbers.
    pub fn plus(&self, other: &Natural) -> (n: Natural)
        ensures
            n.wf(),
            n@ == self@ + other@,
    {
        Natural::from_bytes_be(big_add(self.bytes.as_slice(), other.bytes.as_slice()).as_slice())
    }

    /// The difference of two numbers.
    pub fn minus(&self, other: &Natural) -> (n: Natural)
        requires
            self@ >= other@,
        ensures
            n.wf(),
            n@ == self@ - other@,
    {
        Natural::from_bytes_be(big_sub(self.bytes.as_slice(), other.bytes.as_slice()).as_slice())
    }

    /// The product of two numbers.
    pub fn times(&self, other: &Natural) -> (n: Natural)
        ensures
            n.wf(),
            n@ == self@ * other@,
    {
        Natural::from_bytes_be(big_mul(self.bytes.as_slice(), other.bytes.as_slice()).as_slice())
    }

    /// The quotient of two numbers, rounded down.
    pub fn divided_by(&self, other: &Natural) -> (n: Natural)
        requires
            other@ > 0,
        ensures
            n.wf(),
            n@ == self@ / other@,
    {
        Natural::from_bytes_be(big_div(self.bytes.as_slice(), other.bytes.as_slice()).as_slice())
    }

    /// The remainder of a division.
    pub fn modulo(&self, other: &Natural) -> (n: Natural)
        requires
            other@ > 0,
        ensures
            n.wf(),
            n@ == self@ % other@,
    {
        Natural::from_bytes_be(big_rem(self.bytes.as_slice(), other.bytes.as_slice()).as_slice())
    }

    /// A power modulo a number.
    pub fn modpow(&self, exponent: &Natural, modulus: &Natural) -> (n: Natural)
        requires
            modulus@ > 0,
        ensures
            n.wf(),
            n@ == pow(self@ as int, exponent@) % modulus@ as int,
    {
        Natural::from_bytes_be(
            big_modpow(
                self.bytes.as_slice(),
                exponent.bytes.as_slice(),
                modulus.bytes.as_slice(),
            ).as_slice(),
        )
    }

    /// A power of two.
    pub fn power_of_two(exponent: usize) -> (n: Natural)
        ensures
            n.wf(),
            n@ == pow2(exponent as nat),
    {
        Natural::from_bytes_be(big_pow2(exponent).as_slice())
    }

    /// Whether this number is less than another.
    pub fn less_than(&self, other: &Natural) -> (r: bool)
        ensures
            r == (self@ < other@),
    {
        big_lt(self.bytes.as_slice(), other.bytes.as_slice())
    }

    /// Whether this number equals another.
    pub fn equals(&self, other: &Natural) -> (r: bool)
        ensures
            r == (self@ == other@),
    {
        !self.less_than(other) && !other.less_than(self)
    }

    /// A random number of at most `bits` bits.
    pub fn random(bits: u64) -> (n: Natural)
        requires
            bits <= usize::MAX,
        ensures
            n.wf(),
            n@ < pow2(bits as nat),
    {
        Natural::from_bytes_be(big_random(bits).as_slice())
    }
}

/// Bytes and numbers stand for one another: a byte behind a number makes 256 times that number
/// and the byte, the bytes of a number give it back, and they have no leading zero.
pub proof fn bytes_give_the_number_back(n: nat, bytes: Seq<u8>, byte: u8)
    ensures
        be_value(Seq::<u8>::empty()) == 0,
        be_value(bytes.push(byte)) == 256 * be_value(bytes) + byte,
        be_value(encoded(n)) == n,
        be_value(digits(n)) == n,
        n > 0 ==> encoded(n).len() > 0 && encoded(n)[0] != 0,
        encoded(0) == seq![0u8],
        encoded(n).len() > 0,
    decreases n,
{
    assert(bytes.push(byte).drop_last() =~= bytes);
    let zero = seq![0u8];
    assert(zero.drop_last() =~= Seq::<u8>::empty());
    assert(be_value(zero) == be_value(zero.drop_last()) * 256 + zero.last() as nat);
    if n > 0 {
        bytes_give_the_number_back(n / 256, bytes, byte);
        let head = digits(n / 256);
        assert(head.push((n % 256) as u8).drop_last() =~= head);
        if n < 256 {
            assert(n / 256 == 0);
        } else {
            assert(n / 256 > 0);
            assert(encoded(n / 256) == head);
        }
    }
}

} // verus!
