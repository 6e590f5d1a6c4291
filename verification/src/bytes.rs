//! Byte strings: equality, lexicographic order and concatenation.
use vstd::bytes::{
    lemma_auto_spec_u32_to_from_le_bytes, lemma_auto_spec_u64_to_from_le_bytes,
    spec_u32_to_le_bytes, spec_u64_to_le_bytes, u32_to_le_bytes, u64_to_le_bytes,
};
use vstd::prelude::*;

verus! {

/// Whether two byte arrays hold the same bytes.
pub fn bytes32_eq(a: &[u8; 32], b: &[u8; 32]) -> (r: bool)
    ensures
        r == (*a == *b),
{
    let mut i: usize = 0;
    while i < 32
        invariant
            i <= 32,
            forall|j: int| 0 <= j < i ==> a@[j] == b@[j],
        decreases 32 - i,
    {
        if a[i] != b[i] {
            return false;
        }
        i += 1;
    }
    assert(*a =~= *b);
    true
}

/// A copy of the first `n` hashes of a list.
pub fn copy_prefix32(list: &[[u8; 32]], n: usize) -> (copy: Vec<[u8; 32]>)
    requires
        n <= list.len(),
    ensures
        copy@ == list@.subrange(0, n as int),
{
    let mut copy: Vec<[u8; 32]> = Vec::new();
    let mut i: usize = 0;
    while i < n
        invariant
            i <= n <= list.len(),
            copy@ == list@.subrange(0, i as int),
        decreases n - i,
    {
        copy.push(list[i]);
        i += 1;
        assert(copy@ =~= list@.subrange(0, i as int));
    }
    copy
}

/// Whether two lists of hashes are equal.
pub fn list32_eq(a: &[[u8; 32]], b: &[[u8; 32]]) -> (r: bool)
    ensures
        r == (a@ == b@),
{
    if a.len() != b.len() {
        return false;
    }
    let mut i: usize = 0;
    while i < a.len()
        invariant
            i <= a.len() == b.len(),
            forall|j: int| 0 <= j < i ==> a@[j] == b@[j],
        decreases a.len() - i,
    {
        if !bytes32_eq(&a[i], &b[i]) {
            return false;
        }
        i += 1;
    }
    assert(a@ =~= b@);
    true
}

/// Whether two byte arrays hold the same bytes.
pub fn bytes64_eq(a: &[u8; 64], b: &[u8; 64]) -> (r: bool)
    ensures
        r == (*a == *b),
{
    let mut i: usize = 0;
    while i < 64
        invariant
            i <= 64,
            forall|j: int| 0 <= j < i ==> a@[j] == b@[j],
        decreases 64 - i,
    {
        if a[i] != b[i] {
            return false;
        }
        i += 1;
    }
    assert(*a =~= *b);
    true
}

/// Whether a byte string starts with another.
pub open spec fn has_prefix(bytes: Seq<u8>, prefix: Seq<u8>) -> bool {
    prefix.len() <= bytes.len() && bytes.subrange(0, prefix.len() as int) == prefix
}

/// Whether `bytes` starts with `prefix`.
pub fn starts_with(bytes: &[u8], prefix: &[u8]) -> (r: bool)
    ensures
        r == has_prefix(bytes@, prefix@),
{
    if bytes.len() < prefix.len() {
        return false;
    }
    let mut i: usize = 0;
    while i < prefix.len()
        invariant
            i <= prefix.len() <= bytes.len(),
            forall|j: int| 0 <= j < i ==> bytes@[j] == prefix@[j],
        decreases prefix.len() - i,
    {
        if bytes[i] != prefix[i] {
            assert(bytes@.subrange(0, prefix@.len() as int)[i as int] != prefix@[i as int]);
            return false;
        }
        i += 1;
    }
    assert(bytes@.subrange(0, prefix@.len() as int) =~= prefix@);
    true
}

/// The eight bytes of an integer, most significant first.
pub open spec fn be_bytes(x: u64) -> Seq<u8> {
    spec_u64_to_le_bytes(x).reverse()
}

/// The eight bytes of an integer, most significant first.
pub fn u64_to_be_bytes(x: u64) -> (r: Vec<u8>)
    ensures
        r@ == be_bytes(x),
        r@.len() == 8,
{
    proof {
        lemma_auto_spec_u64_to_from_le_bytes();
    }
    let le = u64_to_le_bytes(x);
    let mut r: Vec<u8> = Vec::new();
    let mut i: usize = 0;
    while i < 8
        invariant
            i <= 8,
            le@.len() == 8,
            r@.len() == i,
            forall|j: int| 0 <= j < i ==> r@[j] == le@[7 - j],
        decreases 8 - i,
    {
        r.push(le[7 - i]);
        i += 1;
    }
    assert(r@ =~= le@.reverse());
    r
}

/// The four bytes of an integer, most significant first.
pub open spec fn be_bytes32(x: u32) -> Seq<u8> {
    spec_u32_to_le_bytes(x).reverse()
}

/// The four bytes of an integer, most significant first.
pub fn u32_to_be_bytes(x: u32) -> (r: Vec<u8>)
    ensures
        r@ == be_bytes32(x),
        r@.len() == 4,
{
    proof {
        lemma_auto_spec_u32_to_from_le_bytes();
    }
    let le = u32_to_le_bytes(x);
    let mut r: Vec<u8> = Vec::new();
    let mut i: usize = 0;
    while i < 4
        invariant
            i <= 4,
            le@.len() == 4,
            r@.len() == i,
            forall|j: int| 0 <= j < i ==> r@[j] == le@[3 - j],
        decreases 4 - i,
    {
        r.push(le[3 - i]);
        i += 1;
    }
    assert(r@ =~= le@.reverse());
    r
}

/// Lexicographic order of byte strings.
pub open spec fn lex_lt(a: Seq<u8>, b: Seq<u8>) -> bool
    decreases a.len(),
{
    if a.len() == 0 || b.len() == 0 {
        a.len() < b.len()
    } else if a[0] == b[0] {
        lex_lt(a.drop_first(), b.drop_first())
    } else {
        a[0] < b[0]
    }
}

/// Whether `a` comes before `b` in lexicographic order.
pub fn bytes_lt(a: &[u8], b: &[u8]) -> (r: bool)
    ensures
        r == lex_lt(a@, b@),
{
    let mut i: usize = 0;
    assert(a@.skip(0) =~= a@);
    assert(b@.skip(0) =~= b@);
    while i < a.len() && i < b.len()
        invariant
            i <= a.len(),
            i <= b.len(),
            lex_lt(a@, b@) == lex_lt(a@.skip(i as int), b@.skip(i as int)),
        decreases a.len() - i,
    {
        if a[i] != b[i] {
            return a[i] < b[i];
        }
        assert(a@.skip(i as int).drop_first() =~= a@.skip(i + 1));
        assert(b@.skip(i as int).drop_first() =~= b@.skip(i + 1));
        i += 1;
    }
    a.len() < b.len()
}

/// Lexicographic order is total: of two different byte strings, one comes first.
pub proof fn lex_lt_is_total(a: Seq<u8>, b: Seq<u8>)
    ensures
        a == b || lex_lt(a, b) || lex_lt(b, a),
        !(lex_lt(a, b) && lex_lt(b, a)),
        a == b ==> !lex_lt(a, b),
    decreases a.len(),
{
    if a.len() > 0 && b.len() > 0 {
        lex_lt_is_total(a.drop_first(), b.drop_first());
        if a[0] == b[0] && a.drop_first() == b.drop_first() {
            assert(a =~= seq![a[0]] + a.drop_first());
            assert(b =~= seq![b[0]] + b.drop_first());
        }
    } else if a.len() == 0 && b.len() == 0 {
        assert(a =~= b);
    }
}

/// Lexicographic order is transitive.
pub proof fn lex_lt_is_transitive(a: Seq<u8>, b: Seq<u8>, c: Seq<u8>)
    requires
        lex_lt(a, b),
        lex_lt(b, c),
    ensures
        lex_lt(a, c),
    decreases a.len(),
{
    if a.len() > 0 && b.len() > 0 && c.len() > 0 && a[0] == b[0] && b[0] == c[0] {
        lex_lt_is_transitive(a.drop_first(), b.drop_first(), c.drop_first());
    }
}

/// There is only one list of given elements in a given order: two lists of the same elements
/// that are both in ascending order, each element before the next, are equal.
pub proof fn ordered_list_is_unique<T>(a: Seq<T>, b: Seq<T>, before: spec_fn(T, T) -> bool)
    requires
        forall|x: T, y: T| #[trigger] before(x, y) ==> !before(y, x),
        forall|i: int, j: int| 0 <= i < j < a.len() ==> before(#[trigger] a[i], #[trigger] a[j]),
        forall|i: int, j: int| 0 <= i < j < b.len() ==> before(#[trigger] b[i], #[trigger] b[j]),
        forall|x: T| a.contains(x) <==> b.contains(x),
    ensures
        a == b,
    decreases a.len(),
{
    if a.len() == 0 {
        if b.len() > 0 {
            assert(b.contains(b[0]));
        }
        assert(a =~= b);
    } else {
        assert(a.contains(a[0]));
        let last = a.last();
        assert(b.last() == last) by {
            assert(a.contains(last));
            assert(b.contains(b.last()));
            let i = choose|i: int| 0 <= i < b.len() && b[i] == last;
            let j = choose|j: int| 0 <= j < a.len() && a[j] == b.last();
            if i < b.len() - 1 {
                assert(before(b[i], b[b.len() - 1]));
                if j < a.len() - 1 {
                    assert(before(a[j], a[a.len() - 1]));
                }
            }
        }
        let a1 = a.drop_last();
        let b1 = b.drop_last();
        assert forall|x: T| a1.contains(x) <==> b1.contains(x) by {
            if a1.contains(x) {
                let i = choose|i: int| 0 <= i < a1.len() && a1[i] == x;
                assert(a[i] == x && before(a[i], a[a.len() - 1]));
                assert(a.contains(x));
                let k = choose|k: int| 0 <= k < b.len() && b[k] == x;
                assert(b1[k] == x);
            }
            if b1.contains(x) {
                let i = choose|i: int| 0 <= i < b1.len() && b1[i] == x;
                assert(b[i] == x && before(b[i], b[b.len() - 1]));
                assert(b.contains(x));
                let k = choose|k: int| 0 <= k < a.len() && a[k] == x;
                assert(a1[k] == x);
            }
        }
        ordered_list_is_unique(a1, b1, before);
        assert(a =~= a1.push(last));
        assert(b =~= b1.push(last));
    }
}

/// The first difference decides: of two byte strings that agree up to a place, the one with
/// the smaller byte there comes first, and so does one that ends there.
pub proof fn the_first_difference_decides(a: Seq<u8>, b: Seq<u8>, at: int)
    requires
        0 <= at <= a.len(),
        at < b.len(),
        forall|i: int| 0 <= i < at ==> #[trigger] a[i] == b[i],
        at < a.len() ==> a[at] < b[at],
    ensures
        lex_lt(a, b),
        !lex_lt(b, a),
    decreases at,
{
    lex_lt_is_total(a, b);
    if at > 0 {
        let a1 = a.drop_first();
        let b1 = b.drop_first();
        assert forall|i: int| 0 <= i < at - 1 implies #[trigger] a1[i] == b1[i] by {
            assert(a[i + 1] == b[i + 1]);
        }
        assert(a[0] == b[0]);
        the_first_difference_decides(a1, b1, at - 1);
    }
}

/// A byte string has every beginning of itself as a prefix, and nothing else.
pub proof fn prefixes_are_beginnings(bytes: Seq<u8>, prefix: Seq<u8>, rest: Seq<u8>)
    ensures
        has_prefix(prefix + rest, prefix),
        has_prefix(bytes, prefix) ==> bytes == prefix + bytes.skip(prefix.len() as int),
{
    assert((prefix + rest).subrange(0, prefix.len() as int) =~= prefix);
    if has_prefix(bytes, prefix) {
        assert(bytes =~= prefix + bytes.skip(prefix.len() as int));
    }
}

/// The bytes of an integer, most significant first: read backwards they are its little-endian
/// bytes, so that they give the integer back.
pub proof fn big_endian_bytes_give_the_integer_back(x: u64, y: u32)
    ensures
        be_bytes(x).len() == 8,
        vstd::bytes::spec_u64_from_le_bytes(be_bytes(x).reverse()) == x,
        be_bytes32(y).len() == 4,
        vstd::bytes::spec_u32_from_le_bytes(be_bytes32(y).reverse()) == y,
{
    vstd::bytes::lemma_auto_spec_u64_to_from_le_bytes();
    vstd::bytes::lemma_auto_spec_u32_to_from_le_bytes();
    assert(be_bytes(x).reverse() =~= spec_u64_to_le_bytes(x));
    assert(be_bytes32(y).reverse() =~= spec_u32_to_le_bytes(y));
}

} // verus!
