//! Reader-side helpers: turning caller-supplied address and scripthash
//! strings into the 32-byte scripthash keys the index is queried by, and the
//! cache lifetime rule for confirmed data.

use vstd::prelude::*;
use vstd::string::StringSliceAdditionalSpecFns;

verus! {

/// Time-to-live for resources that can still change.
pub const TTL_SHORT: u32 = 10;

/// Time-to-live for resources buried deep enough to be final.
pub const TTL_LONG: u32 = 157784630;

/// Confirmations beyond which a reorganization is considered unlikely.
pub const CONF_FINAL: usize = 10;

/// Networks whose addresses the reader accepts.
#[derive(Clone, Copy, PartialEq, Eq, Structural, Debug)]
pub enum Network {
    Mainnet,
    Testnet,
    Regtest,
}

impl Network {
    /// The code handed to the address decoder.
    pub open spec fn spec_code(&self) -> u8 {
        match self {
            Network::Mainnet => 0,
            Network::Testnet => 1,
            Network::Regtest => 2,
        }
    }

    /// Returns the code handed to the address decoder.
    pub fn code(&self) -> (r: u8)
        ensures
            r == self.spec_code(),
    {
        match self {
            Network::Mainnet => 0,
            Network::Testnet => 1,
            Network::Regtest => 2,
        }
    }
}

/// A reader-side failure: bad input, or nothing found.
#[derive(Clone, Copy, PartialEq, Eq, Structural, Debug)]
pub enum HttpError {
    BadRequest,
    NotFound,
}

/// The SHA-256 digest of a byte string, as the outside hash routine
/// computes it.
pub uninterp spec fn sha256_of(b: Seq<u8>) -> Seq<u8>;

/// The locking script an address string denotes on the network with the
/// given code, if the string is a valid address there.
pub uninterp spec fn address_script(s: Seq<char>, net_code: u8) -> Option<Seq<u8>>;

/// Relies on bitcoin_hashes::sha256::Hash::hash: the 32-byte SHA-256 digest
/// of the input, a function of the bytes alone.
#[verifier::external_body]
fn sha256(data: &Vec<u8>) -> (r: Vec<u8>)
    ensures
        r@ == sha256_of(data@),
        r@.len() == 32,
{
    bitcoin_hashes::sha256::Hash::hash(data.as_slice()).to_byte_array().to_vec()
}

/// Relies on bitcoin::Address (FromStr, require_network, script_pubkey): the
/// locking script an address string denotes on the given network, a function
/// of the string and the network alone.
#[verifier::external_body]
fn parse_address(addr: &str, net_code: u8) -> (r: Option<Vec<u8>>)
    ensures
        match r {
            Some(v) => address_script(addr@, net_code) == Some(v@),
            None => address_script(addr@, net_code) is None,
        },
{
    let a: bitcoin::Address<bitcoin::address::NetworkUnchecked> = match addr.parse() {
        Ok(a) => a,
        Err(_) => return None,
    };
    let net = match net_code {
        0 => bitcoin::Network::Bitcoin,
        1 => bitcoin::Network::Testnet,
        _ => bitcoin::Network::Regtest,
    };
    match a.require_network(net) {
        Ok(a) => Some(a.script_pubkey().into_bytes()),
        Err(_) => None,
    }
}

/// True of the characters `0`-`9`, `a`-`f` and `A`-`F`.
pub open spec fn is_hex_digit(c: char) -> bool {
    ('0' <= c && c <= '9') || ('a' <= c && c <= 'f') || ('A' <= c && c <= 'F')
}

/// The value of one hex digit.
pub open spec fn hex_digit_val(c: char) -> u8 {
    if '0' <= c && c <= '9' {
        ((c as int) - 0x30) as u8
    } else if 'a' <= c && c <= 'f' {
        ((c as int) - 0x61 + 10) as u8
    } else {
        ((c as int) - 0x41 + 10) as u8
    }
}

/// A string is well-formed hex: even length, hex digits throughout.
pub open spec fn is_hex(s: Seq<char>) -> bool {
    s.len() % 2 == 0 && forall|i: int| 0 <= i < s.len() ==> is_hex_digit(#[trigger] s[i])
}

/// The bytes a well-formed hex string denotes.
pub open spec fn hex_decoded(s: Seq<char>) -> Seq<u8> {
    Seq::new(
        (s.len() / 2) as nat,
        |i: int| (hex_digit_val(s[2 * i]) * 16 + hex_digit_val(s[2 * i + 1])) as u8,
    )
}

/// Relies on hex::decode: accepts exactly the even-length strings of hex
/// digits and returns the bytes they denote.
#[verifier::external_body]
fn hex_decode(s: &str) -> (r: Option<Vec<u8>>)
    ensures
        match r {
            Some(v) => is_hex(s@) && v@ == hex_decoded(s@),
            None => !is_hex(s@),
        },
{
    hex::decode(s).ok()
}

/// Parses a caller-supplied scripthash: 64 hex digits naming 32 bytes.
/// Returns the bytes exactly when the string is well-formed hex of that
/// length, and `BadRequest` otherwise.
pub fn parse_scripthash(scripthash: &str) -> (r: Result<Vec<u8>, HttpError>)
    ensures
        match r {
            Ok(v) => is_hex(scripthash@) && hex_decoded(scripthash@).len() == 32 && v@
                == hex_decoded(scripthash@),
            Err(e) => e == HttpError::BadRequest && !(is_hex(scripthash@) && hex_decoded(
                scripthash@,
            ).len() == 32),
        },
{
    match hex_decode(scripthash) {
        None => Err(HttpError::BadRequest),
        Some(bytes) => {
            if bytes.len() != 32 {
                Err(HttpError::BadRequest)
            } else {
                Ok(bytes)
            }
        },
    }
}

/// The scripthash of the script an address denotes, per `address_script`:
/// the address is accepted on its own network, and a testnet address is also
/// accepted when the reader runs on regtest.
pub open spec fn spec_address_to_scripthash(addr: Seq<char>, network: Network) -> Option<
    Seq<u8>,
> {
    match address_script(addr, network.spec_code()) {
        Some(sc) => Some(sha256_of(sc)),
        None => {
            if network == Network::Regtest {
                match address_script(addr, 1) {
                    Some(sc) => Some(sha256_of(sc)),
                    None => None,
                }
            } else {
                None
            }
        },
    }
}

/// Turns an address string into the scripthash the index is keyed by:
/// SHA-256 of the address's locking script.  An address of another network
/// is rejected, except that a testnet address is accepted on regtest.
pub fn address_to_scripthash(addr: &str, network: &Network) -> (r: Result<Vec<u8>, HttpError>)
    ensures
        match r {
            Ok(v) => spec_address_to_scripthash(addr@, *network) == Some(v@) && v@.len() == 32,
            Err(e) => e == HttpError::BadRequest && spec_address_to_scripthash(addr@, *network)
                is None,
        },
{
    let direct = parse_address(addr, network.code());
    match direct {
        Some(script) => Ok(sha256(&script)),
        None => {
            match network {
                Network::Regtest => {
                    match parse_address(addr, 1) {
                        Some(script) => Ok(sha256(&script)),
                        None => Err(HttpError::BadRequest),
                    }
                },
                _ => Err(HttpError::BadRequest),
            }
        },
    }
}

/// Compares two strings byte for byte.
fn str_eq(a: &str, b: &str) -> (r: bool)
    ensures
        r == (a.spec_bytes() == b.spec_bytes()),
{
    let ab = a.as_bytes();
    let bb = b.as_bytes();
    if ab.len() != bb.len() {
        return false;
    }
    let mut i: usize = 0;
    while i < ab.len()
        invariant
            i <= ab@.len(),
            ab@.len() == bb@.len(),
            ab@ == a.spec_bytes(),
            bb@ == b.spec_bytes(),
            forall|j: int| 0 <= j < i ==> ab@[j] == bb@[j],
        decreases ab@.len() - i,
    {
        if ab[i] != bb[i] {
            return false;
        }
        i = i + 1;
    }
    proof {
        assert(ab@ =~= bb@);
    }
    true
}

/// Turns a caller-supplied script identifier into a scripthash key: an
/// `address` string is resolved through its locking script, a `scripthash`
/// string is parsed as hex, and any other kind is rejected.
pub fn to_scripthash(script_type: &str, script_str: &str, network: &Network) -> (r: Result<
    Vec<u8>,
    HttpError,
>)
    ensures
        ({
            let t = script_type.spec_bytes();
            if t == "address".spec_bytes() {
                match r {
                    Ok(v) => spec_address_to_scripthash(script_str@, *network) == Some(v@),
                    Err(e) => e == HttpError::BadRequest && spec_address_to_scripthash(
                        script_str@,
                        *network,
                    ) is None,
                }
            } else if t == "scripthash".spec_bytes() {
                match r {
                    Ok(v) => is_hex(script_str@) && hex_decoded(script_str@).len() == 32 && v@
                        == hex_decoded(script_str@),
                    Err(e) => e == HttpError::BadRequest && !(is_hex(script_str@) && hex_decoded(
                        script_str@,
                    ).len() == 32),
                }
            } else {
                r == Result::<Vec<u8>, HttpError>::Err(HttpError::BadRequest)
            }
        }),
{
    if str_eq(script_type, "address") {
        address_to_scripthash(script_str, network)
    } else if str_eq(script_type, "scripthash") {
        parse_scripthash(script_str)
    } else {
        Err(HttpError::BadRequest)
    }
}

/// Computes the scripthash key of a locking script: SHA-256 of its bytes.
pub fn compute_script_hash(script: &Vec<u8>) -> (r: Vec<u8>)
    ensures
        r@ == sha256_of(script@),
        r@.len() == 32,
{
    sha256(script)
}

/// How long a response about a block at the given height may be cached:
/// long once it is `CONF_FINAL` deep under the best tip, short otherwise.
pub fn ttl_by_depth(height: Option<usize>, best_height: usize) -> (r: u32)
    ensures
        r == match height {
            Some(h) => {
                if best_height >= h + CONF_FINAL {
                    TTL_LONG
                } else {
                    TTL_SHORT
                }
            },
            None => TTL_SHORT,
        },
{
    match height {
        Some(h) => {
            if best_height >= h && best_height - h >= CONF_FINAL {
                TTL_LONG
            } else {
                TTL_SHORT
            }
        },
        None => TTL_SHORT,
    }
}

} // verus!
