//! Byte-string foundations: the lexicographic key order of the store and the
//! fixed-width big-endian integer encodings that the schema keys use.

use vstd::prelude::*;

verus! {

/// Strict lexicographic order on byte strings: the order in which the
/// key/value store iterates its keys.
pub open spec fn lex_lt(a: Seq<u8>, b: Seq<u8>) -> bool
    decreases a.len(),
{
    if b.len() == 0 {
        false
    } else if a.len() == 0 {
        true
    } else if a[0] < b[0] {
        true
    } else if a[0] > b[0] {
        false
    } else {
        lex_lt(a.skip(1), b.skip(1))
    }
}

/// `p` is a prefix of `a`.
pub open spec fn is_prefix(p: Seq<u8>, a: Seq<u8>) -> bool {
    a.len() >= p.len() && a.take(p.len() as int) == p
}

/// Exactly one of `lex_lt(a, b)`, `a == b`, `lex_lt(b, a)` holds.
pub proof fn lemma_lex_trichotomy(a: Seq<u8>, b: Seq<u8>)
    ensures
        lex_lt(a, b) || a == b || lex_lt(b, a),
        lex_lt(a, b) ==> a != b && !lex_lt(b, a),
        a == b ==> !lex_lt(a, b) && !lex_lt(b, a),
    decreases a.len(),
{
    if a.len() == 0 || b.len() == 0 {
        if a.len() == b.len() {
            assert(a =~= b);
        }
    } else {
        if a[0] == b[0] {
            lemma_lex_trichotomy(a.skip(1), b.skip(1));
            if a.skip(1) == b.skip(1) {
                assert(a.len() == b.len());
                assert forall|i: int| 0 <= i < a.len() implies a[i] == b[i] by {
                    if i > 0 {
                        assert(a.skip(1)[i - 1] == a[i]);
                        assert(b.skip(1)[i - 1] == b[i]);
                    }
                }
                assert(a =~= b);
            }
            if a == b {
                assert(a.skip(1) =~= b.skip(1));
            }
        }
    }
}

/// Lexicographic order is transitive.
pub proof fn lemma_lex_trans(a: Seq<u8>, b: Seq<u8>, c: Seq<u8>)
    requires
        lex_lt(a, b),
        lex_lt(b, c),
    ensures
        lex_lt(a, c),
    decreases a.len(),
{
    if a.len() == 0 {
    } else {
        if a[0] == b[0] && b[0] == c[0] {
            lemma_lex_trans(a.skip(1), b.skip(1), c.skip(1));
        }
    }
}

/// A shared prefix does not affect the relative order of two keys.
pub proof fn lemma_lex_common_prefix(p: Seq<u8>, x: Seq<u8>, y: Seq<u8>)
    ensures
        lex_lt(p + x, p + y) == lex_lt(x, y),
    decreases p.len(),
{
    if p.len() == 0 {
        assert(p + x =~= x);
        assert(p + y =~= y);
    } else {
        lemma_lex_common_prefix(p.skip(1), x, y);
        assert((p + x).skip(1) =~= p.skip(1) + x);
        assert((p + y).skip(1) =~= p.skip(1) + y);
    }
}

/// Splitting a concatenation at a known component length is unambiguous.
pub proof fn lemma_concat_inj(a1: Seq<u8>, b1: Seq<u8>, a2: Seq<u8>, b2: Seq<u8>)
    requires
        a1.len() == a2.len(),
        a1 + b1 == a2 + b2,
    ensures
        a1 == a2,
        b1 == b2,
{
    assert forall|i: int| 0 <= i < a1.len() implies a1[i] == a2[i] by {
        assert((a1 + b1)[i] == a1[i]);
        assert((a2 + b2)[i] == a2[i]);
    }
    assert(a1 =~= a2);
    assert((a1 + b1).len() == a1.len() + b1.len());
    assert((a2 + b2).len() == a2.len() + b2.len());
    assert(b1.len() == b2.len());
    assert forall|i: int| 0 <= i < b1.len() implies b1[i] == b2[i] by {
        assert((a1 + b1)[a1.len() + i] == b1[i]);
        assert((a2 + b2)[a2.len() + i] == b2[i]);
    }
    assert(b1 =~= b2);
}

/// Three-way comparison result for byte strings.
pub enum KeyOrder {
    Less,
    Equal,
    Greater,
}

/// Compares two byte strings in lexicographic order.
pub fn cmp_bytes(a: &Vec<u8>, b: &Vec<u8>) -> (r: KeyOrder)
    ensures
        r is Less <==> lex_lt(a@, b@),
        r is Equal <==> a@ == b@,
        r is Greater <==> lex_lt(b@, a@),
{
    let mut i: usize = 0;
    proof {
        assert(a@.skip(0) =~= a@);
        assert(b@.skip(0) =~= b@);
        assert(a@.take(0) =~= b@.take(0));
    }
    loop
        invariant
            i <= a.len(),
            i <= b.len(),
            a@.take(i as int) == b@.take(i as int),
            lex_lt(a@, b@) == lex_lt(a@.skip(i as int), b@.skip(i as int)),
            lex_lt(b@, a@) == lex_lt(b@.skip(i as int), a@.skip(i as int)),
            (a@ == b@) == (a@.skip(i as int) == b@.skip(i as int)),
        decreases a.len() - i,
    {
        proof {
            lemma_lex_trichotomy(a@, b@);
        }
        if i >= a.len() || i >= b.len() {
            if a.len() == b.len() {
                proof {
                    assert(a@.skip(i as int) =~= b@.skip(i as int));
                }
                return KeyOrder::Equal;
            } else if a.len() < b.len() {
                proof {
                    assert(a@.skip(i as int).len() == 0);
                    assert(b@.skip(i as int).len() > 0);
                }
                return KeyOrder::Less;
            } else {
                proof {
                    assert(b@.skip(i as int).len() == 0);
                    assert(a@.skip(i as int).len() > 0);
                }
                return KeyOrder::Greater;
            }
        }
        let x = a[i];
        let y = b[i];
        proof {
            assert(a@.skip(i as int)[0] == a@[i as int]);
            assert(b@.skip(i as int)[0] == b@[i as int]);
        }
        if x < y {
            return KeyOrder::Less;
        } else if x > y {
            return KeyOrder::Greater;
        }
        proof {
            assert(a@.skip(i as int).skip(1) =~= a@.skip(i as int + 1));
            assert(b@.skip(i as int).skip(1) =~= b@.skip(i as int + 1));
            assert(a@.take(i as int + 1) =~= a@.take(i as int).push(a@[i as int]));
            assert(b@.take(i as int + 1) =~= b@.take(i as int).push(b@[i as int]));
            if a@.skip(i as int) == b@.skip(i as int) {
                assert(a@.skip(i as int).skip(1) =~= b@.skip(i as int).skip(1));
            }
            if a@.skip(i as int + 1) == b@.skip(i as int + 1) {
                assert(a@.skip(i as int) =~= b@.skip(i as int));
            }
        }
        i = i + 1;
    }
}

/// True when the byte strings are equal.
pub fn eq_bytes(a: &Vec<u8>, b: &Vec<u8>) -> (r: bool)
    ensures
        r == (a@ == b@),
{
    match cmp_bytes(a, b) {
        KeyOrder::Equal => true,
        _ => false,
    }
}

/// True when `a` begins with `p`.
pub fn starts_with(a: &Vec<u8>, p: &Vec<u8>) -> (r: bool)
    ensures
        r == is_prefix(p@, a@),
{
    if a.len() < p.len() {
        return false;
    }
    let mut i: usize = 0;
    while i < p.len()
        invariant
            i <= p.len(),
            p.len() <= a.len(),
            a@.take(i as int) == p@.take(i as int),
        decreases p.len() - i,
    {
        if a[i] != p[i] {
            proof {
                assert(a@.take(p@.len() as int)[i as int] == a@[i as int]);
            }
            return false;
        }
        proof {
            assert(a@.take(i as int + 1) =~= a@.take(i as int).push(a@[i as int]));
            assert(p@.take(i as int + 1) =~= p@.take(i as int).push(p@[i as int]));
        }
        i = i + 1;
    }
    proof {
        assert(p@.take(p@.len() as int) =~= p@);
        assert(a@.take(p@.len() as int) =~= p@);
    }
    true
}

/// Appends all of `b` onto `a`.
pub fn extend_bytes(a: &mut Vec<u8>, b: &Vec<u8>)
    ensures
        final(a)@ == old(a)@ + b@,
{
    let mut i: usize = 0;
    while i < b.len()
        invariant
            i <= b.len(),
            a@ == old(a)@ + b@.take(i as int),
        decreases b.len() - i,
    {
        a.push(b[i]);
        proof {
            assert(old(a)@ + b@.take(i as int + 1) =~= (old(a)@ + b@.take(i as int)).push(b@[i as int]));
        }
        i = i + 1;
    }
    proof {
        assert(b@.take(b@.len() as int) =~= b@);
    }
}

/// The four-byte big-endian encoding of a 32-bit integer.
pub open spec fn be32_spec(n: u32) -> Seq<u8> {
    seq![
        ((n >> 24) & 0xff) as u8,
        ((n >> 16) & 0xff) as u8,
        ((n >> 8) & 0xff) as u8,
        (n & 0xff) as u8,
    ]
}

/// The eight-byte big-endian encoding of a 64-bit integer.
pub open spec fn be64_spec(n: u64) -> Seq<u8> {
    seq![
        ((n >> 56) & 0xff) as u8,
        ((n >> 48) & 0xff) as u8,
        ((n >> 40) & 0xff) as u8,
        ((n >> 32) & 0xff) as u8,
        ((n >> 24) & 0xff) as u8,
        ((n >> 16) & 0xff) as u8,
        ((n >> 8) & 0xff) as u8,
        (n & 0xff) as u8,
    ]
}

/// The integer a four-byte big-endian string denotes.
pub open spec fn be32_val(s: Seq<u8>) -> u32
    recommends
        s.len() == 4,
{
    (((s[0] as u32) << 24) | ((s[1] as u32) << 16) | ((s[2] as u32) << 8) | (s[3] as u32)) as u32
}

/// The integer an eight-byte big-endian string denotes.
pub open spec fn be64_val(s: Seq<u8>) -> u64
    recommends
        s.len() == 8,
{
    (((s[0] as u64) << 56) | ((s[1] as u64) << 48) | ((s[2] as u64) << 40)
        | ((s[3] as u64) << 32) | ((s[4] as u64) << 24) | ((s[5] as u64) << 16)
        | ((s[6] as u64) << 8) | (s[7] as u64)) as u64
}

/// Decoding inverts the big-endian encoding of a 32-bit integer.
pub proof fn lemma_be32_roundtrip(n: u32)
    ensures
        be32_val(be32_spec(n)) == n,
{
    let s = be32_spec(n);
    let s0 = s[0];
    let s1 = s[1];
    let s2 = s[2];
    let s3 = s[3];
    assert((((s0 as u32) << 24) | ((s1 as u32) << 16) | ((s2 as u32) << 8) | (s3 as u32)) as u32
        == n) by (bit_vector)
        requires
            s0 == ((n >> 24) & 0xff) as u8,
            s1 == ((n >> 16) & 0xff) as u8,
            s2 == ((n >> 8) & 0xff) as u8,
            s3 == (n & 0xff) as u8,
    ;
}

/// Decoding inverts the big-endian encoding of a 64-bit integer.
pub proof fn lemma_be64_roundtrip(n: u64)
    ensures
        be64_val(be64_spec(n)) == n,
{
    let s = be64_spec(n);
    let s0 = s[0];
    let s1 = s[1];
    let s2 = s[2];
    let s3 = s[3];
    let s4 = s[4];
    let s5 = s[5];
    let s6 = s[6];
    let s7 = s[7];
    assert((((s0 as u64) << 56) | ((s1 as u64) << 48) | ((s2 as u64) << 40) | ((s3 as u64) << 32)
        | ((s4 as u64) << 24) | ((s5 as u64) << 16) | ((s6 as u64) << 8) | (s7 as u64)) as u64
        == n) by (bit_vector)
        requires
            s0 == ((n >> 56) & 0xff) as u8,
            s1 == ((n >> 48) & 0xff) as u8,
            s2 == ((n >> 40) & 0xff) as u8,
            s3 == ((n >> 32) & 0xff) as u8,
            s4 == ((n >> 24) & 0xff) as u8,
            s5 == ((n >> 16) & 0xff) as u8,
            s6 == ((n >> 8) & 0xff) as u8,
            s7 == (n & 0xff) as u8,
    ;
}

/// Big-endian encoding is injective for 32-bit integers.
pub proof fn lemma_be32_injective(n: u32, m: u32)
    requires
        be32_spec(n) == be32_spec(m),
    ensures
        n == m,
{
    lemma_be32_roundtrip(n);
    lemma_be32_roundtrip(m);
}

/// Big-endian encoding of 32-bit integers respects their order under the
/// lexicographic order of keys.
pub proof fn lemma_be32_order(n: u32, m: u32)
    requires
        n < m,
    ensures
        lex_lt(be32_spec(n), be32_spec(m)),
{
    let a = be32_spec(n);
    let b = be32_spec(m);
    let a0 = a[0];
    let a1 = a[1];
    let a2 = a[2];
    let a3 = a[3];
    let b0 = b[0];
    let b1 = b[1];
    let b2 = b[2];
    let b3 = b[3];
    assert(a0 < b0 || (a0 == b0 && (a1 < b1 || (a1 == b1 && (a2 < b2 || (a2 == b2 && a3
        < b3)))))) by (bit_vector)
        requires
            n < m,
            a0 == ((n >> 24) & 0xff) as u8,
            a1 == ((n >> 16) & 0xff) as u8,
            a2 == ((n >> 8) & 0xff) as u8,
            a3 == (n & 0xff) as u8,
            b0 == ((m >> 24) & 0xff) as u8,
            b1 == ((m >> 16) & 0xff) as u8,
            b2 == ((m >> 8) & 0xff) as u8,
            b3 == (m & 0xff) as u8,
    ;
    lemma_lex_fixed4(a, b);
}

/// Unfolds the lexicographic order on four-byte strings to a byte comparison.
proof fn lemma_lex_fixed4(a: Seq<u8>, b: Seq<u8>)
    requires
        a.len() == 4,
        b.len() == 4,
        a[0] < b[0] || (a[0] == b[0] && (a[1] < b[1] || (a[1] == b[1] && (a[2] < b[2] || (a[2]
            == b[2] && a[3] < b[3]))))),
    ensures
        lex_lt(a, b),
{
    let a1 = a.skip(1);
    let b1 = b.skip(1);
    let a2 = a1.skip(1);
    let b2 = b1.skip(1);
    let a3 = a2.skip(1);
    let b3 = b2.skip(1);
    assert(a1.len() == 3 && a2.len() == 2 && a3.len() == 1);
    assert(b1.len() == 3 && b2.len() == 2 && b3.len() == 1);
    assert(a1[0] == a[1] && a2[0] == a1[1] && a3[0] == a2[1]);
    assert(b1[0] == b[1] && b2[0] == b1[1] && b3[0] == b2[1]);
    assert(a1[1] == a[2] && a2[1] == a1[2] && a1[2] == a[3]);
    assert(b1[1] == b[2] && b2[1] == b1[2] && b1[2] == b[3]);
    if a[0] == b[0] {
        if a[1] == b[1] {
            if a[2] == b[2] {
                assert(lex_lt(a3, b3));
                assert(lex_lt(a2, b2));
            } else {
                assert(lex_lt(a2, b2));
            }
            assert(lex_lt(a1, b1));
        } else {
            assert(lex_lt(a1, b1));
        }
        assert(lex_lt(a, b));
    }
}

/// Encodes a 32-bit integer as four big-endian bytes.
pub fn be32(n: u32) -> (r: Vec<u8>)
    ensures
        r@ == be32_spec(n),
{
    let mut v: Vec<u8> = Vec::new();
    v.push(((n >> 24) & 0xff) as u8);
    v.push(((n >> 16) & 0xff) as u8);
    v.push(((n >> 8) & 0xff) as u8);
    v.push((n & 0xff) as u8);
    proof {
        assert(v@ =~= be32_spec(n));
    }
    v
}

/// Encodes a 64-bit integer as eight big-endian bytes.
pub fn be64(n: u64) -> (r: Vec<u8>)
    ensures
        r@ == be64_spec(n),
{
    let mut v: Vec<u8> = Vec::new();
    v.push(((n >> 56) & 0xff) as u8);
    v.push(((n >> 48) & 0xff) as u8);
    v.push(((n >> 40) & 0xff) as u8);
    v.push(((n >> 32) & 0xff) as u8);
    v.push(((n >> 24) & 0xff) as u8);
    v.push(((n >> 16) & 0xff) as u8);
    v.push(((n >> 8) & 0xff) as u8);
    v.push((n & 0xff) as u8);
    proof {
        assert(v@ =~= be64_spec(n));
    }
    v
}

/// Reads the four bytes of `s` at `off` as a big-endian 32-bit integer.
pub fn read_be32(s: &Vec<u8>, off: usize) -> (r: u32)
    requires
        off + 4 <= s@.len(),
    ensures
        r == be32_val(s@.subrange(off as int, off as int + 4)),
{
    let _n: usize = s.len();
    let b0 = s[off];
    let b1 = s[off + 1];
    let b2 = s[off + 2];
    let b3 = s[off + 3];
    let r: u32 = ((b0 as u32) << 24) | ((b1 as u32) << 16) | ((b2 as u32) << 8) | (b3 as u32);
    proof {
        let sub = s@.subrange(off as int, off as int + 4);
        assert(sub[0] == b0 && sub[1] == b1 && sub[2] == b2 && sub[3] == b3);
    }
    r
}

/// Reads the eight bytes of `s` at `off` as a big-endian 64-bit integer.
pub fn read_be64(s: &Vec<u8>, off: usize) -> (r: u64)
    requires
        off + 8 <= s@.len(),
    ensures
        r == be64_val(s@.subrange(off as int, off as int + 8)),
{
    let _n: usize = s.len();
    let b0 = s[off];
    let b1 = s[off + 1];
    let b2 = s[off + 2];
    let b3 = s[off + 3];
    let b4 = s[off + 4];
    let b5 = s[off + 5];
    let b6 = s[off + 6];
    let b7 = s[off + 7];
    let r: u64 = ((b0 as u64) << 56) | ((b1 as u64) << 48) | ((b2 as u64) << 40) | ((b3 as u64)
        << 32) | ((b4 as u64) << 24) | ((b5 as u64) << 16) | ((b6 as u64) << 8) | (b7 as u64);
    proof {
        let sub = s@.subrange(off as int, off as int + 8);
        assert(sub[0] == b0 && sub[1] == b1 && sub[2] == b2 && sub[3] == b3);
        assert(sub[4] == b4 && sub[5] == b5 && sub[6] == b6 && sub[7] == b7);
    }
    r
}

/// Copies the bytes of `s` from `lo` (inclusive) to `hi` (exclusive).
pub fn sub_bytes(s: &Vec<u8>, lo: usize, hi: usize) -> (r: Vec<u8>)
    requires
        lo <= hi <= s@.len(),
    ensures
        r@ == s@.subrange(lo as int, hi as int),
{
    let mut v: Vec<u8> = Vec::new();
    let mut i: usize = lo;
    while i < hi
        invariant
            lo <= i <= hi <= s@.len(),
            v@ == s@.subrange(lo as int, i as int),
        decreases hi - i,
    {
        v.push(s[i]);
        proof {
            assert(s@.subrange(lo as int, i as int + 1) =~= s@.subrange(lo as int, i as int).push(
                s@[i as int]));
        }
        i = i + 1;
    }
    v
}

} // verus!
