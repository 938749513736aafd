use electrs::elements::{AssetIssuance, ConfAmount, IssuanceValue};

#[test]
fn new_issuance_with_explicit_amounts() {
    let issuance = AssetIssuance {
        asset_blinding_nonce: vec![0u8; 32],
        asset_entropy: vec![0u8; 32],
        amount: ConfAmount::Explicit(1500),
        inflation_keys: ConfAmount::Explicit(300_000_000),
    };
    let v = IssuanceValue::from_issuance(&issuance);
    assert!(!v.is_reissuance);
    assert_eq!(v.asset_blinding_nonce, None);
    assert_eq!(v.asset_entropy, None);
    assert_eq!(v.assetamount, Some(1500));
    assert_eq!(v.assetamountcommitment, None);
    assert_eq!(v.tokenamount, Some(3));
    assert_eq!(v.tokenamountcommitment, None);
}

#[test]
fn reissuance_reports_nonce_and_entropy_in_hex() {
    let mut nonce = vec![0u8; 32];
    nonce[0] = 0xab;
    let mut entropy = vec![0u8; 32];
    entropy[31] = 0x01;
    let issuance = AssetIssuance {
        asset_blinding_nonce: nonce,
        asset_entropy: entropy,
        amount: ConfAmount::Null,
        inflation_keys: ConfAmount::Null,
    };
    let v = IssuanceValue::from_issuance(&issuance);
    assert!(v.is_reissuance);
    let nonce_hex = v.asset_blinding_nonce.unwrap();
    assert_eq!(nonce_hex.len(), 64);
    assert!(nonce_hex.starts_with("ab"));
    let entropy_hex = v.asset_entropy.unwrap();
    assert!(entropy_hex.ends_with("01"));
    assert_eq!(v.assetamount, None);
    assert_eq!(v.tokenamount, None);
}

#[test]
fn confidential_amounts_become_hex_commitments() {
    let issuance = AssetIssuance {
        asset_blinding_nonce: vec![0u8; 32],
        asset_entropy: vec![0u8; 32],
        amount: ConfAmount::Confidential(vec![0x09, 0xff]),
        inflation_keys: ConfAmount::Confidential(vec![0x08, 0x00]),
    };
    let v = IssuanceValue::from_issuance(&issuance);
    assert_eq!(v.assetamount, None);
    assert_eq!(v.assetamountcommitment.unwrap(), "09ff");
    assert_eq!(v.tokenamount, None);
    assert_eq!(v.tokenamountcommitment.unwrap(), "0800");
}
