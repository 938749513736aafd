//! Sidechain issuance reporting: the reader-facing summary of an asset
//! issuance.  Amounts can be explicit integers or confidential commitments;
//! a commitment is carried as its serialized bytes and reported in hex, and
//! a missing explicit amount is reported as absent.

use vstd::prelude::*;

use crate::bytes::eq_bytes;

verus! {

/// One lowercase hex digit.
pub open spec fn hex_char(v: u8) -> char {
    if v == 0 {
        '0'
    } else if v == 1 {
        '1'
    } else if v == 2 {
        '2'
    } else if v == 3 {
        '3'
    } else if v == 4 {
        '4'
    } else if v == 5 {
        '5'
    } else if v == 6 {
        '6'
    } else if v == 7 {
        '7'
    } else if v == 8 {
        '8'
    } else if v == 9 {
        '9'
    } else if v == 10 {
        'a'
    } else if v == 11 {
        'b'
    } else if v == 12 {
        'c'
    } else if v == 13 {
        'd'
    } else if v == 14 {
        'e'
    } else {
        'f'
    }
}

/// The lowercase hex rendering of a byte string: two digits per byte.
pub open spec fn hex_of(b: Seq<u8>) -> Seq<char> {
    Seq::new(
        b.len() * 2,
        |i: int|
            if i % 2 == 0 {
                hex_char(b[i / 2] / 16)
            } else {
                hex_char(b[i / 2] % 16)
            },
    )
}

/// Relies on hex::encode: the lowercase hex rendering of the bytes, two
/// digits per byte.
#[verifier::external_body]
fn hex_encode(b: &Vec<u8>) -> (r: String)
    ensures
        r@ == hex_of(b@),
{
    hex::encode(b.as_slice())
}

/// An amount of an issuance: absent, an explicit integer, or a confidential
/// commitment carried as its serialized bytes.
pub enum ConfAmount {
    Null,
    Explicit(u64),
    Confidential(Vec<u8>),
}

/// An asset issuance as the index models it: the blinding nonce and entropy
/// as 32-byte strings, and the asset and reissuance-token amounts.
pub struct AssetIssuance {
    pub asset_blinding_nonce: Vec<u8>,
    pub asset_entropy: Vec<u8>,
    pub amount: ConfAmount,
    pub inflation_keys: ConfAmount,
}

/// The reader-facing summary of an issuance.
pub struct IssuanceValue {
    pub is_reissuance: bool,
    pub asset_blinding_nonce: Option<String>,
    pub asset_entropy: Option<String>,
    pub assetamount: Option<u64>,
    pub assetamountcommitment: Option<String>,
    pub tokenamount: Option<u64>,
    pub tokenamountcommitment: Option<String>,
}

/// A 32-byte string of zeroes.
pub open spec fn zero32() -> Seq<u8> {
    Seq::new(32, |i: int| 0u8)
}

impl IssuanceValue {
    /// Builds the summary of an issuance: a nonzero blinding nonce marks a
    /// reissuance and is reported in hex, nonzero entropy is reported in
    /// hex, explicit amounts are reported as integers (the token amount in
    /// whole units of 10^8), and confidential amounts as hex commitments.
    pub fn from_issuance(issuance: &AssetIssuance) -> (r: IssuanceValue)
        ensures
            r.is_reissuance == (issuance.asset_blinding_nonce@ != zero32()),
            match r.asset_blinding_nonce {
                Some(s) => issuance.asset_blinding_nonce@ != zero32() && s@ == hex_of(
                    issuance.asset_blinding_nonce@,
                ),
                None => issuance.asset_blinding_nonce@ == zero32(),
            },
            match r.asset_entropy {
                Some(s) => issuance.asset_entropy@ != zero32() && s@ == hex_of(
                    issuance.asset_entropy@,
                ),
                None => issuance.asset_entropy@ == zero32(),
            },
            r.assetamount == match issuance.amount {
                ConfAmount::Explicit(v) => Some(v),
                _ => None::<u64>,
            },
            match r.assetamountcommitment {
                Some(s) => issuance.amount matches ConfAmount::Confidential(c) && s@ == hex_of(c@),
                None => !(issuance.amount is Confidential),
            },
            r.tokenamount == match issuance.inflation_keys {
                ConfAmount::Explicit(v) => Some((v / 100000000) as u64),
                _ => None::<u64>,
            },
            match r.tokenamountcommitment {
                Some(s) => issuance.inflation_keys matches ConfAmount::Confidential(c) && s@
                    == hex_of(c@),
                None => !(issuance.inflation_keys is Confidential),
            },
    {
        let zero: Vec<u8> = vec![0u8; 32];
        proof {
            assert(zero@ =~= zero32());
        }
        let is_reissuance = !eq_bytes(&issuance.asset_blinding_nonce, &zero);
        let asset_blinding_nonce = if is_reissuance {
            Some(hex_encode(&issuance.asset_blinding_nonce))
        } else {
            None
        };
        let asset_entropy = if !eq_bytes(&issuance.asset_entropy, &zero) {
            Some(hex_encode(&issuance.asset_entropy))
        } else {
            None
        };
        let assetamount = match &issuance.amount {
            ConfAmount::Explicit(v) => Some(*v),
            _ => None,
        };
        let assetamountcommitment = match &issuance.amount {
            ConfAmount::Confidential(c) => Some(hex_encode(c)),
            _ => None,
        };
        let tokenamount = match &issuance.inflation_keys {
            ConfAmount::Explicit(v) => Some(*v / 100000000),
            _ => None,
        };
        let tokenamountcommitment = match &issuance.inflation_keys {
            ConfAmount::Confidential(c) => Some(hex_encode(c)),
            _ => None,
        };
        IssuanceValue {
            is_reissuance,
            asset_blinding_nonce,
            asset_entropy,
            assetamount,
            assetamountcommitment,
            tokenamount,
            tokenamountcommitment,
        }
    }
}

} // verus!
