//! Row codecs for the index families: pure byte-level encoders and decoders.
//! Every well-formed domain value round-trips, and keys of one family sort in
//! their semantic order because heights are stored big-endian.

use vstd::prelude::*;

use crate::bytes::{be32, be32_spec, be32_val, is_prefix, lemma_be32_order, lemma_be32_roundtrip,
    lemma_concat_inj, lemma_lex_common_prefix, lex_lt, read_be32, sub_bytes};

verus! {

/// Family tag of the height-to-hash rows.
pub const HEIGHT_TAG: u8 = 0x48;

/// Family tag of the spending-edge rows.
pub const SPENDING_TAG: u8 = 0x53;

/// Family tag of the transaction-confirmation rows.
pub const CONFIRM_TAG: u8 = 0x43;

/// The key of the row mapping a best-chain height to its block hash.
pub open spec fn height_key_spec(height: u32) -> Seq<u8> {
    seq![HEIGHT_TAG] + be32_spec(height)
}

/// Encodes the height-to-hash key: the family tag followed by the height in
/// big-endian.
pub fn height_key(height: u32) -> (r: Vec<u8>)
    ensures
        r@ == height_key_spec(height),
        r@.len() == 5,
{
    let mut v: Vec<u8> = Vec::new();
    v.push(HEIGHT_TAG);
    let be = be32(height);
    crate::bytes::extend_bytes(&mut v, &be);
    proof {
        assert(v@ =~= height_key_spec(height));
    }
    v
}

/// Decodes a height-to-hash key, accepting exactly the well-formed ones.
pub fn decode_height_key(key: &Vec<u8>) -> (r: Option<u32>)
    ensures
        match r {
            Some(h) => key@ == height_key_spec(h),
            None => forall|h: u32| key@ != height_key_spec(h),
        },
{
    if key.len() != 5 {
        return None;
    }
    if key[0] != HEIGHT_TAG {
        proof {
            assert forall|h: u32| key@ != height_key_spec(h) by {
                assert(height_key_spec(h)[0] == HEIGHT_TAG);
            }
        }
        return None;
    }
    let h = read_be32(key, 1);
    proof {
        lemma_be32_roundtrip(h);
        assert(key@.subrange(1, 5) == be32_spec(be32_val(key@.subrange(1, 5)))) by {
            let sub = key@.subrange(1, 5);
            assert(sub.len() == 4);
            assert(be32_spec(be32_val(sub)).len() == 4);
            assert forall|i: int| 0 <= i < 4 implies be32_spec(be32_val(sub))[i] == sub[i] by {
                lemma_be32_val_inverse(sub);
            }
            assert(be32_spec(be32_val(sub)) =~= sub);
        }
        assert(key@ =~= height_key_spec(h));
    }
    Some(h)
}

/// A four-byte string is the encoding of the integer it denotes.
proof fn lemma_be32_val_inverse(s: Seq<u8>)
    requires
        s.len() == 4,
    ensures
        be32_spec(be32_val(s)) == s,
{
    let n = be32_val(s);
    let s0 = s[0];
    let s1 = s[1];
    let s2 = s[2];
    let s3 = s[3];
    assert(((n >> 24) & 0xff) as u8 == s0 && ((n >> 16) & 0xff) as u8 == s1 && ((n >> 8)
        & 0xff) as u8 == s2 && (n & 0xff) as u8 == s3) by (bit_vector)
        requires
            n == (((s0 as u32) << 24) | ((s1 as u32) << 16) | ((s2 as u32) << 8)
                | (s3 as u32)) as u32,
    ;
    assert(be32_spec(n) =~= s);
}

/// Height keys sort by height: the store's lexicographic order lists the
/// best chain from genesis to tip.
pub proof fn lemma_height_key_order(h1: u32, h2: u32)
    requires
        h1 < h2,
    ensures
        lex_lt(height_key_spec(h1), height_key_spec(h2)),
{
    lemma_be32_order(h1, h2);
    lemma_lex_common_prefix(seq![HEIGHT_TAG], be32_spec(h1), be32_spec(h2));
}

/// Height keys are injective: one key names one height.
pub proof fn lemma_height_key_injective(h1: u32, h2: u32)
    requires
        height_key_spec(h1) == height_key_spec(h2),
    ensures
        h1 == h2,
{
    lemma_concat_inj(seq![HEIGHT_TAG], be32_spec(h1), seq![HEIGHT_TAG], be32_spec(h2));
    crate::bytes::lemma_be32_injective(h1, h2);
}

/// The key of the spending-edge row for an outpoint.
pub open spec fn spending_key_spec(prev_txid: Seq<u8>, prev_vout: u32) -> Seq<u8> {
    seq![SPENDING_TAG] + prev_txid + be32_spec(prev_vout)
}

/// Encodes the spending-edge key for the outpoint `(prev_txid, prev_vout)`.
pub fn spending_key(prev_txid: &Vec<u8>, prev_vout: u32) -> (r: Vec<u8>)
    requires
        prev_txid@.len() == 32,
    ensures
        r@ == spending_key_spec(prev_txid@, prev_vout),
        r@.len() == 37,
{
    let mut v: Vec<u8> = Vec::new();
    v.push(SPENDING_TAG);
    crate::bytes::extend_bytes(&mut v, prev_txid);
    let be = be32(prev_vout);
    crate::bytes::extend_bytes(&mut v, &be);
    proof {
        assert(v@ =~= spending_key_spec(prev_txid@, prev_vout));
    }
    v
}

/// Decodes a spending-edge key into its outpoint.
pub fn decode_spending_key(key: &Vec<u8>) -> (r: Option<(Vec<u8>, u32)>)
    ensures
        match r {
            Some(p) => p.0@.len() == 32 && key@ == spending_key_spec(p.0@, p.1),
            None => forall|t: Seq<u8>, v: u32| t.len() == 32 ==> key@ != spending_key_spec(t, v),
        },
{
    if key.len() != 37 {
        return None;
    }
    if key[0] != SPENDING_TAG {
        proof {
            assert forall|t: Seq<u8>, v: u32| t.len() == 32 implies key@ != spending_key_spec(
                t,
                v,
            ) by {
                assert(spending_key_spec(t, v)[0] == SPENDING_TAG);
            }
        }
        return None;
    }
    let txid = sub_bytes(key, 1, 33);
    let vout = read_be32(key, 33);
    proof {
        lemma_be32_val_inverse(key@.subrange(33, 37));
        assert(key@ =~= spending_key_spec(txid@, vout));
    }
    Some((txid, vout))
}

/// One spending edge names one outpoint.
pub proof fn lemma_spending_key_injective(t1: Seq<u8>, v1: u32, t2: Seq<u8>, v2: u32)
    requires
        t1.len() == 32,
        t2.len() == 32,
        spending_key_spec(t1, v1) == spending_key_spec(t2, v2),
    ensures
        t1 == t2,
        v1 == v2,
{
    lemma_concat_inj(
        seq![SPENDING_TAG] + t1,
        be32_spec(v1),
        seq![SPENDING_TAG] + t2,
        be32_spec(v2),
    );
    lemma_concat_inj(seq![SPENDING_TAG], t1, seq![SPENDING_TAG], t2);
    crate::bytes::lemma_be32_injective(v1, v2);
}

/// The value of a spending-edge row: the spending transaction and its input
/// index.
pub open spec fn spending_value_spec(spender: Seq<u8>, vin: u32) -> Seq<u8> {
    spender + be32_spec(vin)
}

/// Encodes the spending-edge value `(spender, vin)`.
pub fn spending_value(spender: &Vec<u8>, vin: u32) -> (r: Vec<u8>)
    requires
        spender@.len() == 32,
    ensures
        r@ == spending_value_spec(spender@, vin),
{
    let mut v: Vec<u8> = Vec::new();
    crate::bytes::extend_bytes(&mut v, spender);
    let be = be32(vin);
    crate::bytes::extend_bytes(&mut v, &be);
    proof {
        assert(v@ =~= spending_value_spec(spender@, vin));
    }
    v
}

/// Decodes a spending-edge value.
pub fn decode_spending_value(value: &Vec<u8>) -> (r: Option<(Vec<u8>, u32)>)
    ensures
        match r {
            Some(p) => p.0@.len() == 32 && value@ == spending_value_spec(p.0@, p.1),
            None => forall|t: Seq<u8>, v: u32| t.len() == 32 ==> value@ != spending_value_spec(t, v),
        },
{
    if value.len() != 36 {
        return None;
    }
    let spender = sub_bytes(value, 0, 32);
    let vin = read_be32(value, 32);
    proof {
        lemma_be32_val_inverse(value@.subrange(32, 36));
        assert(value@ =~= spending_value_spec(spender@, vin));
    }
    Some((spender, vin))
}

/// The key of the confirmation row of a transaction.
pub open spec fn confirm_key_spec(txid: Seq<u8>) -> Seq<u8> {
    seq![CONFIRM_TAG] + txid
}

/// Encodes the confirmation-row key of `txid`.
pub fn confirm_key(txid: &Vec<u8>) -> (r: Vec<u8>)
    requires
        txid@.len() == 32,
    ensures
        r@ == confirm_key_spec(txid@),
        r@.len() == 33,
{
    let mut v: Vec<u8> = Vec::new();
    v.push(CONFIRM_TAG);
    crate::bytes::extend_bytes(&mut v, txid);
    proof {
        assert(v@ =~= confirm_key_spec(txid@));
    }
    v
}

/// The value of a confirmation row: confirming block hash, height, and the
/// transaction's position in the block.
pub open spec fn confirm_value_spec(blockhash: Seq<u8>, height: u32, position: u32) -> Seq<u8> {
    blockhash + be32_spec(height) + be32_spec(position)
}

/// Encodes a confirmation-row value.
pub fn confirm_value(blockhash: &Vec<u8>, height: u32, position: u32) -> (r: Vec<u8>)
    requires
        blockhash@.len() == 32,
    ensures
        r@ == confirm_value_spec(blockhash@, height, position),
{
    let mut v: Vec<u8> = Vec::new();
    crate::bytes::extend_bytes(&mut v, blockhash);
    let bh = be32(height);
    crate::bytes::extend_bytes(&mut v, &bh);
    let bp = be32(position);
    crate::bytes::extend_bytes(&mut v, &bp);
    proof {
        assert(v@ =~= confirm_value_spec(blockhash@, height, position));
    }
    v
}

/// Decodes a confirmation-row value.
pub fn decode_confirm_value(value: &Vec<u8>) -> (r: Option<(Vec<u8>, u32, u32)>)
    ensures
        match r {
            Some(p) => p.0@.len() == 32 && value@ == confirm_value_spec(p.0@, p.1, p.2),
            None => forall|b: Seq<u8>, h: u32, q: u32|
                b.len() == 32 ==> value@ != confirm_value_spec(b, h, q),
        },
{
    if value.len() != 40 {
        return None;
    }
    let hash = sub_bytes(value, 0, 32);
    let height = read_be32(value, 32);
    let position = read_be32(value, 36);
    proof {
        lemma_be32_val_inverse(value@.subrange(32, 36));
        lemma_be32_val_inverse(value@.subrange(36, 40));
        assert(value@ =~= confirm_value_spec(hash@, height, position));
    }
    Some((hash, height, position))
}

/// Every height key begins with the family tag, so a prefix scan of the tag
/// sees exactly the best-chain map.
pub proof fn lemma_height_key_prefix(h: u32)
    ensures
        is_prefix(seq![HEIGHT_TAG], height_key_spec(h)),
{
    assert(height_key_spec(h).take(1) =~= seq![HEIGHT_TAG]);
}

} // verus!
