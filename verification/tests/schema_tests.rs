use electrs::schema::{
    confirm_key, confirm_value, decode_confirm_value, decode_height_key, decode_spending_key,
    decode_spending_value, height_key, spending_key, spending_value,
};

#[test]
fn height_key_layout_is_tag_and_big_endian_height() {
    assert_eq!(height_key(0), vec![b'H', 0, 0, 0, 0]);
    assert_eq!(height_key(1), vec![b'H', 0, 0, 0, 1]);
    assert_eq!(height_key(0x01020304), vec![b'H', 1, 2, 3, 4]);
}

#[test]
fn height_key_round_trips() {
    for h in [0u32, 1, 255, 256, 70000, u32::MAX] {
        assert_eq!(decode_height_key(&height_key(h)), Some(h));
    }
}

#[test]
fn height_keys_sort_by_height() {
    let mut keys = vec![height_key(256), height_key(1), height_key(70000), height_key(0)];
    keys.sort();
    assert_eq!(
        keys,
        vec![height_key(0), height_key(1), height_key(256), height_key(70000)]
    );
}

#[test]
fn malformed_height_keys_are_rejected() {
    assert_eq!(decode_height_key(&vec![b'H', 0, 0, 0]), None);
    assert_eq!(decode_height_key(&vec![b'S', 0, 0, 0, 1]), None);
}

#[test]
fn spending_row_round_trips() {
    let txid = vec![0xabu8; 32];
    let key = spending_key(&txid, 7);
    assert_eq!(key.len(), 37);
    assert_eq!(key[0], b'S');
    let (t, v) = decode_spending_key(&key).unwrap();
    assert_eq!(t, txid);
    assert_eq!(v, 7);

    let spender = vec![0xcdu8; 32];
    let value = spending_value(&spender, 3);
    let (s, vin) = decode_spending_value(&value).unwrap();
    assert_eq!(s, spender);
    assert_eq!(vin, 3);
}

#[test]
fn malformed_spending_rows_are_rejected() {
    assert_eq!(decode_spending_key(&vec![b'S'; 10]), None);
    assert_eq!(decode_spending_value(&vec![0u8; 35]), None);
}

#[test]
fn confirm_row_round_trips() {
    let txid = vec![0x11u8; 32];
    let key = confirm_key(&txid);
    assert_eq!(key.len(), 33);
    assert_eq!(key[0], b'C');

    let hash = vec![0x22u8; 32];
    let value = confirm_value(&hash, 812345, 2);
    let (h, height, pos) = decode_confirm_value(&value).unwrap();
    assert_eq!(h, hash);
    assert_eq!(height, 812345);
    assert_eq!(pos, 2);
    assert_eq!(decode_confirm_value(&vec![0u8; 39]), None);
}
