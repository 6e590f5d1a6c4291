//! Text: decimal and hexadecimal digits, quoting, and joining strings.
use vstd::prelude::*;
use vstd::string::*;

verus! {

/// The digit `d` in base 16, lower case.
pub open spec fn digit(d: int) -> char {
    if d < 10 {
        (48 + d) as char
    } else {
        (87 + d) as char
    }
}

/// The decimal digits of `n`, without leading zeroes.
pub open spec fn decimal(n: nat) -> Seq<char>
    decreases n,
{
    if n < 10 {
        seq![digit(n as int)]
    } else {
        decimal(n / 10).push(digit((n % 10) as int))
    }
}

/// The decimal digits of `n` with a minus sign where it is negative.
pub open spec fn signed_decimal(n: int) -> Seq<char> {
    if n < 0 {
        "-"@ + decimal((-n) as nat)
    } else {
        decimal(n as nat)
    }
}

/// Two lower-case hexadecimal digits per byte.
pub open spec fn hex_of(bytes: Seq<u8>) -> Seq<char> {
    Seq::new(
        2 * bytes.len(),
        |i: int|
            if i % 2 == 0 {
                digit(bytes[i / 2] as int / 16)
            } else {
                digit(bytes[i / 2] as int % 16)
            },
    )
}

fn digit_str(d: u8) -> (s: &'static str)
    requires
        d < 16,
    ensures
        s@ == seq![digit(d as int)],
{
    proof {
        reveal_strlit("0");
        reveal_strlit("1");
        reveal_strlit("2");
        reveal_strlit("3");
        reveal_strlit("4");
        reveal_strlit("5");
        reveal_strlit("6");
        reveal_strlit("7");
        reveal_strlit("8");
        reveal_strlit("9");
        reveal_strlit("a");
        reveal_strlit("b");
        reveal_strlit("c");
        reveal_strlit("d");
        reveal_strlit("e");
        reveal_strlit("f");
    }
    let s = match d {
        0 => "0",
        1 => "1",
        2 => "2",
        3 => "3",
        4 => "4",
        5 => "5",
        6 => "6",
        7 => "7",
        8 => "8",
        9 => "9",
        10 => "a",
        11 => "b",
        12 => "c",
        13 => "d",
        14 => "e",
        _ => "f",
    };
    assert(s@ =~= seq![digit(d as int)]);
    s
}

/// Append the decimal digits of `n`.
pub fn append_decimal(out: &mut String, n: u64)
    ensures
        final(out)@ == old(out)@ + decimal(n as nat),
    decreases n,
{
    if n < 10 {
        out.append(digit_str(n as u8));
    } else {
        append_decimal(out, n / 10);
        let last = digit_str((n % 10) as u8);
        out.append(last);
        assert(old(out)@ + decimal((n / 10) as nat) + last@ =~= old(out)@ + decimal(n as nat));
    }
}

/// Append the decimal digits of `n`, with a minus sign where it is negative.
pub fn append_signed(out: &mut String, n: i64)
    ensures
        final(out)@ == old(out)@ + signed_decimal(n as int),
{
    if n < 0 {
        out.append("-");
        let magnitude: u64 = (-(n + 1)) as u64 + 1;
        append_decimal(out, magnitude);
        assert(old(out)@ + "-"@ + decimal(magnitude as nat) =~= old(out)@ + signed_decimal(
            n as int,
        ));
    } else {
        append_decimal(out, n as u64);
    }
}

/// Lower-case hexadecimal encoding of a byte string.
pub fn hex_string(bytes: &[u8]) -> (s: String)
    ensures
        s@ == hex_of(bytes@),
{
    let mut s = String::new();
    let mut i: usize = 0;
    while i < bytes.len()
        invariant
            i <= bytes.len(),
            s@ == hex_of(bytes@.subrange(0, i as int)),
        decreases bytes.len() - i,
    {
        let b: u8 = bytes[i];
        let hi = digit_str(b / 16);
        let lo = digit_str(b % 16);
        s.append(hi);
        s.append(lo);
        i += 1;
        assert(s@ =~= hex_of(bytes@.subrange(0, i as int)));
    }
    assert(bytes@.subrange(0, i as int) =~= bytes@);
    s
}

/// Whether two strings hold the same characters.
pub fn str_eq(a: &str, b: &str) -> (r: bool)
    ensures
        r == (a@ == b@),
{
    let x = a.to_owned();
    let y = b.to_owned();
    x == y
}

/// A string as `{:?}` shows it: between quotes, with escapes.
pub uninterp spec fn debug_quoted(s: Seq<char>) -> Seq<char>;

/// Formats with the `Debug` of `str`. The claim: the result depends on the
/// characters of `s` alone.
#[verifier::external_body]
pub(crate) fn quote_debug(s: &str) -> (r: String)
    ensures
        r@ == debug_quoted(s@),
{
    format!("{:?}", s)
}

/// The digits are `0` to `9` and `a` to `f`.
pub proof fn digits_are_the_usual_ones(d: int)
    ensures
        0 <= d < 10 ==> digit(d) as int - '0' as int == d,
        10 <= d < 16 ==> digit(d) as int - 'a' as int == d - 10,
{
}

/// Decimal notation: a number below ten is one digit, and a digit put behind a number makes
/// ten times that number and the digit.
pub proof fn decimals_are_positional(n: nat, d: nat)
    requires
        d < 10,
    ensures
        decimal(d) == seq![digit(d as int)],
        n > 0 ==> decimal(10 * n + d) == decimal(n).push(digit(d as int)),
        signed_decimal(n as int) == decimal(n),
        n > 0 ==> signed_decimal(-(n as int)) == "-"@ + decimal(n),
{
    if n > 0 {
        assert((10 * n + d) / 10 == n);
        assert((10 * n + d) % 10 == d);
    }
}

/// Hexadecimal notation: each byte adds two digits, the high one first, so that no two byte
/// strings have the same notation.
pub proof fn hexadecimal_is_byte_by_byte(bytes: Seq<u8>, byte: u8)
    ensures
        hex_of(Seq::<u8>::empty()).len() == 0,
        hex_of(bytes.push(byte)) == hex_of(bytes).push(digit(byte as int / 16)).push(
            digit(byte as int % 16),
        ),
{
    let all = bytes.push(byte);
    assert forall|i: int| 0 <= i < 2 * all.len() implies hex_of(all)[i] == hex_of(bytes).push(
        digit(byte as int / 16),
    ).push(digit(byte as int % 16))[i] by {
        if i < 2 * bytes.len() {
            assert(all[i / 2] == bytes[i / 2]);
        } else {
            assert(all[i / 2] == byte);
        }
    }
    assert(hex_of(all) =~= hex_of(bytes).push(digit(byte as int / 16)).push(
        digit(byte as int % 16),
    ));
}

proof fn lemma_digits_differ(d: int, e: int)
    requires
        0 <= d < 16,
        0 <= e < 16,
        digit(d) == digit(e),
    ensures
        d == e,
{
    digits_are_the_usual_ones(d);
    digits_are_the_usual_ones(e);
}

/// No two byte strings have the same hexadecimal notation.
pub proof fn hexadecimal_tells_bytes_apart(a: Seq<u8>, b: Seq<u8>)
    requires
        hex_of(a) == hex_of(b),
    ensures
        a == b,
{
    assert(hex_of(a).len() == 2 * a.len() && hex_of(b).len() == 2 * b.len());
    assert forall|i: int| 0 <= i < a.len() implies a[i] == b[i] by {
        assert((2 * i) / 2 == i && (2 * i + 1) / 2 == i);
        assert((2 * i) % 2 == 0 && (2 * i + 1) % 2 == 1);
        assert(hex_of(a)[2 * i] == digit(a[i] as int / 16));
        assert(hex_of(b)[2 * i] == digit(b[i] as int / 16));
        assert(hex_of(a)[2 * i + 1] == digit(a[i] as int % 16));
        assert(hex_of(b)[2 * i + 1] == digit(b[i] as int % 16));
        lemma_digits_differ(a[i] as int / 16, b[i] as int / 16);
        lemma_digits_differ(a[i] as int % 16, b[i] as int % 16);
    }
    assert(a =~= b);
}

} // verus!
