//! The composition layer: one coherent read over the confirmed chain view
//! and the mempool mirror.  The unspent-output rule is the heart of it: a
//! confirmed output is reported only while no mempool transaction spends it,
//! and the mempool's own fresh outputs are appended after.

use vstd::prelude::*;

verus! {

/// A reference to a transaction output.
pub struct OutPoint {
    pub txid: Vec<u8>,
    pub vout: u32,
}

/// An unspent output as the reader reports it: its outpoint, its value, and
/// the height of its confirming block, or nothing while unconfirmed.
pub struct Utxo {
    pub txid: Vec<u8>,
    pub vout: u32,
    pub value: u64,
    pub confirmed_height: Option<u32>,
}

/// Some edge in `edges` spends the outpoint `(txid, vout)`.
pub open spec fn is_spent(edges: Seq<OutPoint>, txid: Seq<u8>, vout: u32) -> bool {
    exists|i: int|
        0 <= i < edges.len() && (#[trigger] edges[i]).txid@ == txid && edges[i].vout == vout
}

/// Keeps an output only while no mempool edge spends it.
pub open spec fn unspent_filter(edges: Seq<OutPoint>) -> spec_fn(Utxo) -> bool {
    |u: Utxo| !is_spent(edges, u.txid@, u.vout)
}

/// True when some edge spends the outpoint `(txid, vout)`.
pub fn has_spend(edges: &Vec<OutPoint>, txid: &Vec<u8>, vout: u32) -> (r: bool)
    ensures
        r == is_spent(edges@, txid@, vout),
{
    let n = edges.len();
    let mut i: usize = 0;
    while i < n
        invariant
            n == edges@.len(),
            i <= n,
            forall|j: int|
                0 <= j < i ==> !((#[trigger] edges@[j]).txid@ == txid@ && edges@[j].vout == vout),
        decreases n - i,
    {
        if edges[i].vout == vout && crate::bytes::eq_bytes(&edges[i].txid, txid) {
            proof {
                assert(edges@[i as int].txid@ == txid@ && edges@[i as int].vout == vout);
            }
            return true;
        }
        i = i + 1;
    }
    false
}

/// The unified unspent-output view of a script: the confirmed outputs whose
/// outpoints no mempool transaction spends, followed by the mempool's own
/// unspent outputs.
pub fn utxo(chain_utxos: Vec<Utxo>, mempool_edges: &Vec<OutPoint>, mempool_utxos: Vec<Utxo>) -> (r:
    Vec<Utxo>)
    ensures
        r@ == chain_utxos@.filter(unspent_filter(mempool_edges@)) + mempool_utxos@,
{
    let ghost orig = chain_utxos@;
    let ghost pred = unspent_filter(mempool_edges@);
    let mut src = chain_utxos;
    let mut out: Vec<Utxo> = Vec::new();
    let n = src.len();
    let mut i: usize = 0;
    proof {
        reveal(Seq::filter);
        assert(orig.take(0).filter(pred) =~= Seq::<Utxo>::empty());
    }
    while i < n
        invariant
            n == orig.len(),
            i <= n,
            src@.len() == n - i,
            pred == unspent_filter(mempool_edges@),
            forall|j: int| 0 <= j < n - i ==> #[trigger] src@[j] == orig[i + j],
            out@ == orig.take(i as int).filter(pred),
        decreases n - i,
    {
        let u = src.remove(0);
        proof {
            assert(u == orig[i as int]);
            assert forall|j: int| 0 <= j < n - i - 1 implies #[trigger] src@[j] == orig[i + 1
                + j] by {
                assert(src@[j] == orig[i + (j + 1)]);
            }
        }
        let spent = has_spend(mempool_edges, &u.txid, u.vout);
        let ghost pre_out = out@;
        if !spent {
            out.push(u);
        }
        proof {
            reveal(Seq::filter);
            assert(orig.take(i as int + 1).drop_last() =~= orig.take(i as int));
            assert(orig.take(i as int + 1).last() == orig[i as int]);
            if pred(orig[i as int]) {
                assert(out@ == pre_out.push(orig[i as int]));
            } else {
                assert(out@ == pre_out);
            }
            assert(out@ == orig.take(i as int + 1).filter(pred));
        }
        i = i + 1;
    }
    proof {
        assert(orig.take(n as int) =~= orig);
    }
    let mut mem = mempool_utxos;
    out.append(&mut mem);
    out
}

/// A confirmed history event: a transaction and its confirming height, or
/// nothing for a mempool event.
pub struct HistoryEntry {
    pub txid: Vec<u8>,
    pub confirmed_height: Option<u32>,
}

/// Every entry of `s` is tagged as confirmed.
pub open spec fn all_confirmed(s: Seq<HistoryEntry>) -> bool {
    forall|i: int| 0 <= i < s.len() ==> (#[trigger] s[i]).confirmed_height is Some
}

/// Every entry of `s` is tagged as unconfirmed.
pub open spec fn all_unconfirmed(s: Seq<HistoryEntry>) -> bool {
    forall|i: int| 0 <= i < s.len() ==> (#[trigger] s[i]).confirmed_height is None
}

/// No two entries of `s` name the same transaction.
pub open spec fn distinct_txids(s: Seq<HistoryEntry>) -> bool {
    forall|i: int, j: int|
        0 <= i < j < s.len() ==> (#[trigger] s[i]).txid@ != (#[trigger] s[j]).txid@
}

/// The unified history names each transaction at most once, provided the
/// confirmed view and the mempool view each do, and no transaction sits in
/// both at once.
pub proof fn lemma_history_distinct(confirmed: Seq<HistoryEntry>, mempool: Seq<HistoryEntry>)
    requires
        distinct_txids(confirmed),
        distinct_txids(mempool),
        forall|i: int, j: int|
            0 <= i < confirmed.len() && 0 <= j < mempool.len() ==> (
            #[trigger] confirmed[i]).txid@ != (#[trigger] mempool[j]).txid@,
    ensures
        distinct_txids(confirmed + mempool),
{
    let all = confirmed + mempool;
    assert forall|i: int, j: int| 0 <= i < j < all.len() implies (#[trigger] all[i]).txid@ != (
    #[trigger] all[j]).txid@ by {
        if i < confirmed.len() {
            assert(all[i] == confirmed[i]);
        } else {
            assert(all[i] == mempool[i - confirmed.len()]);
        }
        if j < confirmed.len() {
            assert(all[j] == confirmed[j]);
        } else {
            assert(all[j] == mempool[j - confirmed.len()]);
        }
    }
}

/// The unified history of a script: the confirmed events, each tagged with
/// its height, followed by the mempool events, tagged with nothing.  An
/// entry is tagged confirmed exactly when it came from the chain view.
pub fn history_txids(confirmed: Vec<HistoryEntry>, mempool: Vec<HistoryEntry>) -> (r: Vec<
    HistoryEntry,
>)
    requires
        all_confirmed(confirmed@),
        all_unconfirmed(mempool@),
    ensures
        r@ == confirmed@ + mempool@,
        forall|i: int|
            0 <= i < r@.len() ==> ((#[trigger] r@[i]).confirmed_height is Some <==> i
                < confirmed@.len()),
{
    let ghost c0 = confirmed@;
    let ghost m0 = mempool@;
    let mut out = confirmed;
    let mut mem = mempool;
    out.append(&mut mem);
    proof {
        assert forall|i: int|
            0 <= i < out@.len() implies ((#[trigger] out@[i]).confirmed_height is Some <==> i
            < c0.len()) by {
            if i < c0.len() {
                assert(out@[i] == c0[i]);
            } else {
                assert(out@[i] == m0[i - c0.len()]);
            }
        }
    }
    out
}

} // verus!
