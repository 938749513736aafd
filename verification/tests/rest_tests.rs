use electrs::rest::{
    address_to_scripthash, compute_script_hash, parse_scripthash, to_scripthash, ttl_by_depth,
    HttpError, Network, CONF_FINAL, TTL_LONG, TTL_SHORT,
};

#[test]
fn parse_scripthash_accepts_64_hex_digits() {
    let s = "00".repeat(32);
    assert_eq!(parse_scripthash(&s).unwrap(), vec![0u8; 32]);
    let s2 = "ff".repeat(32);
    assert_eq!(parse_scripthash(&s2).unwrap(), vec![0xffu8; 32]);
}

#[test]
fn parse_scripthash_rejects_bad_input() {
    assert_eq!(parse_scripthash("zz"), Err(HttpError::BadRequest));
    assert_eq!(parse_scripthash("abc"), Err(HttpError::BadRequest));
    assert_eq!(parse_scripthash("ab"), Err(HttpError::BadRequest));
    assert_eq!(parse_scripthash(&"00".repeat(31)), Err(HttpError::BadRequest));
}

#[test]
fn compute_script_hash_is_sha256_of_the_bytes() {
    let empty_digest =
        parse_scripthash("e3b0c44298fc1c149afbf4c8996fb92427ae41e4649b934ca495991b7852b855")
            .unwrap();
    assert_eq!(compute_script_hash(&vec![]), empty_digest);

    let abc_digest =
        parse_scripthash("ba7816bf8f01cfea414140de5dae2223b00361a396177a9cb410ff61f20015ad")
            .unwrap();
    assert_eq!(compute_script_hash(&vec![b'a', b'b', b'c']), abc_digest);
}

#[test]
fn address_to_scripthash_matches_the_script_digest() {
    let script = parse_scripthash_bytes("76a91462e907b15cbf27d5425399ebf6f0fb50ebb88f1888ac");
    let expected = compute_script_hash(&script);
    let got = address_to_scripthash("1A1zP1eP5QGefi2DMPTfTL5SLmv7DivfNa", &Network::Mainnet)
        .unwrap();
    assert_eq!(got, expected);
}

#[test]
fn address_on_wrong_network_is_rejected() {
    assert_eq!(
        address_to_scripthash("1A1zP1eP5QGefi2DMPTfTL5SLmv7DivfNa", &Network::Testnet),
        Err(HttpError::BadRequest)
    );
    assert_eq!(
        address_to_scripthash("not an address", &Network::Mainnet),
        Err(HttpError::BadRequest)
    );
}

#[test]
fn testnet_address_is_accepted_on_regtest() {
    let on_testnet =
        address_to_scripthash("mipcBbFg9gMiCh81Kj8tqqdgoZub1ZJRfn", &Network::Testnet).unwrap();
    let on_regtest =
        address_to_scripthash("mipcBbFg9gMiCh81Kj8tqqdgoZub1ZJRfn", &Network::Regtest).unwrap();
    assert_eq!(on_testnet, on_regtest);
}

#[test]
fn to_scripthash_dispatches_on_the_kind() {
    let s = "00".repeat(32);
    assert_eq!(
        to_scripthash("scripthash", &s, &Network::Mainnet).unwrap(),
        vec![0u8; 32]
    );
    let by_addr = to_scripthash(
        "address",
        "1A1zP1eP5QGefi2DMPTfTL5SLmv7DivfNa",
        &Network::Mainnet,
    )
    .unwrap();
    let direct =
        address_to_scripthash("1A1zP1eP5QGefi2DMPTfTL5SLmv7DivfNa", &Network::Mainnet).unwrap();
    assert_eq!(by_addr, direct);
    assert_eq!(
        to_scripthash("neither", &s, &Network::Mainnet),
        Err(HttpError::BadRequest)
    );
}

#[test]
fn ttl_is_long_only_for_deep_blocks() {
    assert_eq!(ttl_by_depth(None, 100), TTL_SHORT);
    assert_eq!(ttl_by_depth(Some(100), 100), TTL_SHORT);
    assert_eq!(ttl_by_depth(Some(100 - CONF_FINAL + 1), 100), TTL_SHORT);
    assert_eq!(ttl_by_depth(Some(100 - CONF_FINAL), 100), TTL_LONG);
    assert_eq!(ttl_by_depth(Some(0), 100), TTL_LONG);
}

fn parse_scripthash_bytes(hex_str: &str) -> Vec<u8> {
    hex::decode(hex_str).unwrap()
}
