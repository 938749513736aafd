use electrs::query::{has_spend, history_txids, utxo, HistoryEntry, OutPoint, Utxo};

fn coinbase_utxo() -> Utxo {
    Utxo { txid: vec![0xaa; 32], vout: 0, value: 5_000_000_000, confirmed_height: Some(1) }
}

#[test]
fn chain_utxo_passes_through_with_empty_mempool() {
    let r = utxo(vec![coinbase_utxo()], &vec![], vec![]);
    assert_eq!(r.len(), 1);
    assert_eq!(r[0].txid, vec![0xaa; 32]);
    assert_eq!(r[0].value, 5_000_000_000);
    assert_eq!(r[0].confirmed_height, Some(1));
}

#[test]
fn mempool_spend_filters_a_confirmed_output() {
    let edges = vec![OutPoint { txid: vec![0xaa; 32], vout: 0 }];
    let r = utxo(vec![coinbase_utxo()], &edges, vec![]);
    assert_eq!(r.len(), 0);
}

#[test]
fn mempool_spend_of_another_outpoint_filters_nothing() {
    let edges = vec![
        OutPoint { txid: vec![0xaa; 32], vout: 1 },
        OutPoint { txid: vec![0xbb; 32], vout: 0 },
    ];
    let r = utxo(vec![coinbase_utxo()], &edges, vec![]);
    assert_eq!(r.len(), 1);
}

#[test]
fn mempool_utxos_are_appended_after_chain_utxos() {
    let fresh = Utxo { txid: vec![0xcc; 32], vout: 0, value: 4_900_000_000, confirmed_height: None };
    let r = utxo(vec![coinbase_utxo()], &vec![], vec![fresh]);
    assert_eq!(r.len(), 2);
    assert_eq!(r[0].txid, vec![0xaa; 32]);
    assert_eq!(r[1].txid, vec![0xcc; 32]);
    assert_eq!(r[1].confirmed_height, None);
}

#[test]
fn eviction_restores_the_confirmed_output() {
    let edges = vec![OutPoint { txid: vec![0xaa; 32], vout: 0 }];
    let during = utxo(vec![coinbase_utxo()], &edges, vec![]);
    assert_eq!(during.len(), 0);
    let after = utxo(vec![coinbase_utxo()], &vec![], vec![]);
    assert_eq!(after.len(), 1);
    assert_eq!(after[0].value, 5_000_000_000);
}

#[test]
fn has_spend_finds_only_the_exact_outpoint() {
    let edges = vec![OutPoint { txid: vec![0xaa; 32], vout: 3 }];
    assert!(has_spend(&edges, &vec![0xaa; 32], 3));
    assert!(!has_spend(&edges, &vec![0xaa; 32], 2));
    assert!(!has_spend(&edges, &vec![0xab; 32], 3));
}

#[test]
fn history_tags_confirmed_before_mempool() {
    let confirmed = vec![
        HistoryEntry { txid: vec![1; 32], confirmed_height: Some(1) },
        HistoryEntry { txid: vec![2; 32], confirmed_height: Some(2) },
    ];
    let mempool = vec![HistoryEntry { txid: vec![3; 32], confirmed_height: None }];
    let r = history_txids(confirmed, mempool);
    assert_eq!(r.len(), 3);
    assert_eq!(r[0].txid, vec![1; 32]);
    assert_eq!(r[0].confirmed_height, Some(1));
    assert_eq!(r[1].confirmed_height, Some(2));
    assert_eq!(r[2].txid, vec![3; 32]);
    assert_eq!(r[2].confirmed_height, None);
}
