//! Bitcoin helpers over group keys: authorization messages and their
//! digests, derivation paths, Taproot addresses and child addresses, the
//! key tweaks that let a group signer spend them, Schnorr verification, and
//! key-path spends. No wallet storage, RPC or broadcasting.
use vstd::prelude::*;
use crate::bitcoin_backend::{
    add_exp_tweak, address_script, address_script_pubkey, bip32_child, ckd_pub, hex_bytes,
    hex_decode, hex_encode, hex_text, hmac_sha512, hmac_sha512_of, input_views, key_spend_sighash,
    lift_even_xonly, network_code, output_views, p2tr_address, p2tr_address_text, parse_txid,
    point_add_tweak, secp_scalar, secp_schnorr_valid, secp_xonly_valid, secret_add_tweak,
    secret_key, secret_negate, sha256_digest, sha256_of, spend_hex, spend_sighash, split_xonly,
    tap_output, tap_tweak_bytes, tap_tweak_hash, tap_tweak_output, transaction_inputs, tx_inputs,
    txid_of, txid_text, unsigned_spend_hex, MAX_DECODABLE_HEX, verify_schnorr, with_witness, witness_input, transaction_txid, AddressFailure,
    BitcoinNetwork,
};
use crate::requests::{AggregateSignature, GroupKey};
use crate::scalar::{be_value, group_order};
use crate::text::{decimal, push_decimal, str_eq};

verus! {

/// Why a Bitcoin helper refused its input: a message.
#[derive(Debug)]
pub struct BitcoinError {
    pub message: String,
}

fn fail(text: &str) -> (e: BitcoinError)
    ensures
        e.message@ == text@,
{
    BitcoinError { message: String::from_str(text) }
}

fn fail_with(text: &str, cause: String) -> (e: BitcoinError)
    ensures
        e.message@ == text@ + cause@,
{
    let mut message = String::from_str(text);
    message.append(cause.as_str());
    BitcoinError { message }
}

/// The text `ChildNumber::from_*_idx` gives an index of 2^31 or more.
pub open spec fn child_number_text(n: u32) -> Seq<char> {
    "child number "@ + decimal(n as nat) + " is invalid (not within [0, 2^31 - 1])"@
}

fn fail_index(text: &str, n: u32) -> (e: BitcoinError)
    ensures
        e.message@ == text@ + child_number_text(n),
{
    let mut message = String::from_str(text);
    message.append("child number ");
    push_decimal(&mut message, n as u64);
    message.append(" is invalid (not within [0, 2^31 - 1])");
    BitcoinError { message }
}

// ---------------------------------------------------------------- messages

/// A human-readable authorization request whose digest a group signs.
#[derive(Debug, Clone, PartialEq, Eq)]
pub struct BitcoinAuthorizationMessage {
    pub network: String,
    pub action: String,
    pub recipient: Option<String>,
    pub amount_sats: Option<u64>,
    pub memo: Option<String>,
    pub nonce: String,
}

pub open spec fn opt_text(o: Option<String>) -> Seq<char> {
    match o {
        Some(s) => s@,
        None => Seq::empty(),
    }
}

pub open spec fn opt_amount(o: Option<u64>) -> Seq<char> {
    match o {
        Some(v) => decimal(v as nat),
        None => Seq::empty(),
    }
}

/// The deterministic text of an authorization message.
pub open spec fn authorization_text(m: BitcoinAuthorizationMessage) -> Seq<char> {
    "DKGKit Bitcoin Authorization\nnetwork="@ + m.network@ + "\naction="@ + m.action@ + "\nrecipient="@
        + opt_text(m.recipient) + "\namount_sats="@ + opt_amount(m.amount_sats) + "\nmemo="@ + opt_text(m.memo)
        + "\nnonce="@ + m.nonce@
}

/// The canonical text is the title line, then one `key=value` line per
/// field in the order network, action, recipient, amount_sats, memo, nonce,
/// each line carrying that field of the message: the text of a present
/// recipient or memo, the decimal amount, nothing for an absent field.
pub proof fn lemma_authorization_text_lines(m: BitcoinAuthorizationMessage)
    ensures
        authorization_text(m) == "DKGKit Bitcoin Authorization"@ + "\nnetwork="@ + m.network@ + "\naction="@ + m.action@
            + "\nrecipient="@ + (match m.recipient {
            Some(r) => r@,
            None => Seq::<char>::empty(),
        }) + "\namount_sats="@ + (match m.amount_sats {
            Some(v) => decimal(v as nat),
            None => Seq::<char>::empty(),
        }) + "\nmemo="@ + (match m.memo {
            Some(t) => t@,
            None => Seq::<char>::empty(),
        }) + "\nnonce="@ + m.nonce@,
{
    reveal_strlit("DKGKit Bitcoin Authorization\nnetwork=");
    reveal_strlit("DKGKit Bitcoin Authorization");
    reveal_strlit("\nnetwork=");
    assert("DKGKit Bitcoin Authorization\nnetwork="@ =~= "DKGKit Bitcoin Authorization"@ + "\nnetwork="@);
    assert(opt_text(m.recipient) == (match m.recipient {
        Some(r) => r@,
        None => Seq::<char>::empty(),
    }));
    assert(opt_text(m.memo) == (match m.memo {
        Some(t) => t@,
        None => Seq::<char>::empty(),
    }));
}

fn push_opt(out: &mut String, o: &Option<String>)
    ensures
        final(out)@ == old(out)@ + opt_text(*o),
{
    match o {
        Some(s) => out.append(s.as_str()),
        None => {},
    }
}

impl BitcoinAuthorizationMessage {
    /// The deterministic text form, for display and signing.
    pub fn canonical_text(&self) -> (r: String)
        ensures
            r@ == authorization_text(*self),
    {
        let mut out = String::from_str("DKGKit Bitcoin Authorization\nnetwork=");
        out.append(self.network.as_str());
        out.append("\naction=");
        out.append(self.action.as_str());
        out.append("\nrecipient=");
        push_opt(&mut out, &self.recipient);
        out.append("\namount_sats=");
        match self.amount_sats {
            Some(v) => push_decimal(&mut out, v),
            None => {},
        }
        out.append("\nmemo=");
        push_opt(&mut out, &self.memo);
        out.append("\nnonce=");
        out.append(self.nonce.as_str());
        out
    }

    /// The SHA-256 digest of the UTF-8 bytes of the canonical text.
    pub fn digest(&self) -> (r: [u8; 32])
        ensures
            r@ == sha256_of(vstd::utf8::encode_utf8(authorization_text(*self))),
    {
        let text = self.canonical_text();
        sha256(text.as_str().as_bytes())
    }
}

/// SHA-256 of an application message.
pub fn sha256(bytes: &[u8]) -> (r: [u8; 32])
    ensures
        r@ == sha256_of(bytes@),
{
    sha256_digest(bytes)
}

// ---------------------------------------------------------------- paths and keys

/// A BIP-44-shaped derivation path `m/purpose'/coin'/account'/change/index`.
#[derive(Debug, Clone, PartialEq, Eq)]
pub struct BitcoinDerivationPath {
    pub purpose: u32,
    pub coin_type: u32,
    pub account: u32,
    pub change: u32,
    pub address_index: u32,
}

/// A group key used as an account key, with its chain code.
#[derive(Debug, PartialEq, Eq)]
pub struct BitcoinAccountKey {
    pub group_key: GroupKey,
    pub chain_code: [u8; 32],
}

impl BitcoinAccountKey {
    pub fn new(group_key: GroupKey, chain_code: [u8; 32]) -> (r: Self)
        ensures
            r.group_key == group_key,
            r.chain_code == chain_code,
    {
        BitcoinAccountKey { group_key, chain_code }
    }
}

/// The text of a derivation path.
pub open spec fn path_text(p: BitcoinDerivationPath) -> Seq<char> {
    "m/"@ + decimal(p.purpose as nat) + "'/"@ + decimal(p.coin_type as nat) + "'/"@ + decimal(p.account as nat)
        + "'/"@ + decimal(p.change as nat) + "/"@ + decimal(p.address_index as nat)
}

impl BitcoinDerivationPath {
    /// The BIP-86 Taproot path on mainnet: purpose 86, coin 0.
    pub fn bip86(account: u32, change: u32, address_index: u32) -> (r: Self)
        ensures
            r == (BitcoinDerivationPath { purpose: 86, coin_type: 0, account, change, address_index }),
    {
        BitcoinDerivationPath { purpose: 86, coin_type: 0, account, change, address_index }
    }

    /// The BIP-44 path on mainnet: purpose 44, coin 0.
    pub fn bip44(account: u32, change: u32, address_index: u32) -> (r: Self)
        ensures
            r == (BitcoinDerivationPath { purpose: 44, coin_type: 0, account, change, address_index }),
    {
        BitcoinDerivationPath { purpose: 44, coin_type: 0, account, change, address_index }
    }

    /// `m/purpose'/coin'/account'/change/index`.
    pub fn display_path(&self) -> (r: String)
        ensures
            r@ == path_text(*self),
    {
        let mut out = String::from_str("m/");
        push_decimal(&mut out, self.purpose as u64);
        out.append("'/");
        push_decimal(&mut out, self.coin_type as u64);
        out.append("'/");
        push_decimal(&mut out, self.account as u64);
        out.append("'/");
        push_decimal(&mut out, self.change as u64);
        out.append("/");
        push_decimal(&mut out, self.address_index as u64);
        out
    }
}

/// An address with the keys it comes from, as text.
#[derive(Debug, Clone, PartialEq, Eq)]
pub struct BitcoinAddressDescriptor {
    pub path: BitcoinDerivationPath,
    pub network: String,
    pub address: String,
    pub account_xonly_public_key_hex: String,
    pub internal_xonly_public_key_hex: String,
    pub xonly_public_key_hex: String,
    pub chain_code_hex: String,
}

// ---------------------------------------------------------------- networks and hex

/// The network a name stands for.
pub open spec fn network_named(text: Seq<char>) -> Option<BitcoinNetwork> {
    if text == "bitcoin"@ || text == "mainnet"@ {
        Some(BitcoinNetwork::Bitcoin)
    } else if text == "testnet"@ {
        Some(BitcoinNetwork::Testnet)
    } else if text == "testnet4"@ {
        Some(BitcoinNetwork::Testnet4)
    } else if text == "signet"@ {
        Some(BitcoinNetwork::Signet)
    } else if text == "regtest"@ {
        Some(BitcoinNetwork::Regtest)
    } else {
        None
    }
}

/// ASCII lower case of a character.
pub open spec fn ascii_lower(c: char) -> char {
    if 65 <= (c as u32) && (c as u32) <= 90 {
        ((c as u32) + 32) as char
    } else {
        c
    }
}

/// ASCII lower case of a text.
pub open spec fn lower_text(s: Seq<char>) -> Seq<char> {
    s.map_values(|c: char| ascii_lower(c))
}

/// Every network is read from its name, its debug name in lower case, and
/// the main network from "mainnet" too.
pub proof fn lemma_network_names(n: BitcoinNetwork)
    ensures
        network_named(lower_text(network_debug(n))) == Some(n),
        network_named("mainnet"@) == Some(BitcoinNetwork::Bitcoin),
{
    reveal_strlit("Bitcoin");
    reveal_strlit("Testnet");
    reveal_strlit("Testnet4");
    reveal_strlit("Signet");
    reveal_strlit("Regtest");
    reveal_strlit("bitcoin");
    reveal_strlit("mainnet");
    reveal_strlit("testnet");
    reveal_strlit("testnet4");
    reveal_strlit("signet");
    reveal_strlit("regtest");
    assert("mainnet"@ != "bitcoin"@) by { assert("mainnet"@[0] != "bitcoin"@[0]); }
    let t = lower_text(network_debug(n));
    match n {
        BitcoinNetwork::Bitcoin => {
            assert(t =~= "bitcoin"@);
        },
        BitcoinNetwork::Testnet => {
            assert(t =~= "testnet"@);
            assert(t != "bitcoin"@) by { assert(t[0] != "bitcoin"@[0]); }
            assert(t != "mainnet"@) by { assert(t[0] != "mainnet"@[0]); }
        },
        BitcoinNetwork::Testnet4 => {
            assert(t =~= "testnet4"@);
            assert(t != "bitcoin"@) by { assert(t.len() != "bitcoin"@.len()); }
            assert(t != "mainnet"@) by { assert(t.len() != "mainnet"@.len()); }
            assert(t != "testnet"@) by { assert(t.len() != "testnet"@.len()); }
        },
        BitcoinNetwork::Signet => {
            assert(t =~= "signet"@);
            assert(t != "bitcoin"@) by { assert(t.len() != "bitcoin"@.len()); }
            assert(t != "mainnet"@) by { assert(t.len() != "mainnet"@.len()); }
            assert(t != "testnet"@) by { assert(t.len() != "testnet"@.len()); }
            assert(t != "testnet4"@) by { assert(t.len() != "testnet4"@.len()); }
        },
        BitcoinNetwork::Regtest => {
            assert(t =~= "regtest"@);
            assert(t != "bitcoin"@) by { assert(t[0] != "bitcoin"@[0]); }
            assert(t != "mainnet"@) by { assert(t[0] != "mainnet"@[0]); }
            assert(t != "testnet"@) by { assert(t[0] != "testnet"@[0]); }
            assert(t != "testnet4"@) by { assert(t.len() != "testnet4"@.len()); }
            assert(t != "signet"@) by { assert(t.len() != "signet"@.len()); }
        },
    }
}

/// Reads a network name: bitcoin (or mainnet), testnet, testnet4, signet, regtest.
pub fn parse_network(network: &str) -> (r: Result<BitcoinNetwork, BitcoinError>)
    ensures
        match network_named(network@) {
            Some(n) => r == Ok::<BitcoinNetwork, BitcoinError>(n),
            None => r matches Err(e) && e.message@ == "unsupported Bitcoin network: "@ + network@,
        },
{
    if str_eq(network, "bitcoin") || str_eq(network, "mainnet") {
        Ok(BitcoinNetwork::Bitcoin)
    } else if str_eq(network, "testnet") {
        Ok(BitcoinNetwork::Testnet)
    } else if str_eq(network, "testnet4") {
        Ok(BitcoinNetwork::Testnet4)
    } else if str_eq(network, "signet") {
        Ok(BitcoinNetwork::Signet)
    } else if str_eq(network, "regtest") {
        Ok(BitcoinNetwork::Regtest)
    } else {
        Err(fail_with("unsupported Bitcoin network: ", String::from_str(network)))
    }
}

/// The debug name of a network.
pub open spec fn network_debug(n: BitcoinNetwork) -> Seq<char> {
    match n {
        BitcoinNetwork::Bitcoin => "Bitcoin"@,
        BitcoinNetwork::Testnet => "Testnet"@,
        BitcoinNetwork::Testnet4 => "Testnet4"@,
        BitcoinNetwork::Signet => "Signet"@,
        BitcoinNetwork::Regtest => "Regtest"@,
    }
}

fn network_name(n: BitcoinNetwork) -> (r: String)
    ensures
        r@ == network_debug(n),
{
    match n {
        BitcoinNetwork::Bitcoin => String::from_str("Bitcoin"),
        BitcoinNetwork::Testnet => String::from_str("Testnet"),
        BitcoinNetwork::Testnet4 => String::from_str("Testnet4"),
        BitcoinNetwork::Signet => String::from_str("Signet"),
        BitcoinNetwork::Regtest => String::from_str("Regtest"),
    }
}

/// The 32 bytes of a vector of that length.
fn array32(v: &Vec<u8>) -> (r: [u8; 32])
    requires
        v@.len() == 32,
    ensures
        r@ == v@,
{
    let mut out = [0u8; 32];
    let mut i: usize = 0;
    while i < 32
        invariant
            v@.len() == 32,
            i <= 32,
            forall|k: int| 0 <= k < i ==> out@[k] == v@[k],
        decreases 32 - i,
    {
        out[i] = v[i];
        i += 1;
    }
    assert(out@ =~= v@);
    out
}

/// The 64 bytes of a vector of that length.
fn array64(v: &Vec<u8>) -> (r: [u8; 64])
    requires
        v@.len() == 64,
    ensures
        r@ == v@,
{
    let mut out = [0u8; 64];
    let mut i: usize = 0;
    while i < 64
        invariant
            v@.len() == 64,
            i <= 64,
            forall|k: int| 0 <= k < i ==> out@[k] == v@[k],
        decreases 64 - i,
    {
        out[i] = v[i];
        i += 1;
    }
    assert(out@ =~= v@);
    out
}

/// Reads 32 bytes from hexadecimal text of either case.
pub fn parse_xonly_public_key_hex(hex_text_in: &str) -> (r: Result<[u8; 32], BitcoinError>)
    ensures
        match hex_bytes(hex_text_in@) {
            None => r matches Err(e) && e.message@ == "x-only public key must be hex"@,
            Some(b) => if b.len() == 32 {
                r matches Ok(a) && a@ == b
            } else {
                r matches Err(e) && e.message@ == "x-only public key must be exactly 32 bytes"@
            },
        },
{
    match hex_decode(hex_text_in) {
        None => Err(fail("x-only public key must be hex")),
        Some(bytes) => {
            if bytes.len() != 32 {
                Err(fail("x-only public key must be exactly 32 bytes"))
            } else {
                Ok(array32(&bytes))
            }
        },
    }
}

// ---------------------------------------------------------------- addresses

/// The BIP-341 Taproot address that commits to the group key as its output key.
pub fn taproot_address(group_key: &GroupKey, network: BitcoinNetwork) -> (r: Result<String, BitcoinError>)
    ensures
        secp_xonly_valid(group_key.xonly_public_key@) ==> (r matches Ok(a) && a@ == p2tr_address_text(
            group_key.xonly_public_key@,
            network_code(network),
        )),
        !secp_xonly_valid(group_key.xonly_public_key@) ==> (r matches Err(e)
            && exists|t: Seq<char>| e.message@ == "invalid x-only public key: "@ + t),
{
    match lift_even_xonly(group_key.xonly_public_key) {
        Err(e) => Err(fail_with("invalid x-only public key: ", e)),
        Ok(_) => Ok(p2tr_address(group_key.xonly_public_key, network)),
    }
}

/// A root descriptor for the group key: its Taproot address, the key's hex
/// as account, internal and output key, and no chain code.
pub fn taproot_address_descriptor(group_key: &GroupKey, network: BitcoinNetwork, path: BitcoinDerivationPath) -> (r: Result<
    BitcoinAddressDescriptor,
    BitcoinError,
>)
    ensures
        secp_xonly_valid(group_key.xonly_public_key@) <==> r is Ok,
        r matches Ok(d) ==> {
            &&& d.path == path
            &&& d.network@ == network_debug(network)
            &&& d.address@ == p2tr_address_text(group_key.xonly_public_key@, network_code(network))
            &&& d.account_xonly_public_key_hex@ == hex_text(group_key.xonly_public_key@)
            &&& d.internal_xonly_public_key_hex@ == hex_text(group_key.xonly_public_key@)
            &&& d.xonly_public_key_hex@ == hex_text(group_key.xonly_public_key@)
            &&& d.chain_code_hex@.len() == 0
        },
{
    let address = taproot_address(group_key, network)?;
    Ok(BitcoinAddressDescriptor {
        path,
        network: network_name(network),
        address,
        account_xonly_public_key_hex: hex_encode(&group_key.xonly_public_key),
        internal_xonly_public_key_hex: hex_encode(&group_key.xonly_public_key),
        xonly_public_key_hex: hex_encode(&group_key.xonly_public_key),
        chain_code_hex: String::new(),
    })
}

/// `taproot_address_descriptor` for a network given by name.
pub fn taproot_address_descriptor_for_network(group_key: &GroupKey, network: &str, path: BitcoinDerivationPath) -> (r: Result<
    BitcoinAddressDescriptor,
    BitcoinError,
>)
    ensures
        network_named(network@) is None ==> (r matches Err(e) && e.message@ == "unsupported Bitcoin network: "@ + network@),
        network_named(network@) matches Some(n) ==> (r is Ok <==> secp_xonly_valid(group_key.xonly_public_key@)),
        r matches Ok(d) ==> d.path == path && d.address@ == p2tr_address_text(
            group_key.xonly_public_key@,
            network_code(network_named(network@)->0),
        ) && d.network@ == network_debug(network_named(network@)->0),
{
    let network = parse_network(network)?;
    taproot_address_descriptor(group_key, network, path)
}

/// The child key and chain code two normal steps below an account key.
pub open spec fn child_of(p: Seq<u8>, chain: Seq<u8>, change: u32, index: u32) -> Option<(Seq<u8>, Seq<u8>)> {
    match bip32_child(p, chain, change) {
        None => None,
        Some(first) => bip32_child(first.0, first.1, index),
    }
}

/// Derives the child key `/change/index` below the account key (the
/// non-hardened tail of `m/purpose'/coin'/account'/change/index`): the
/// account index must be hardenable and both tail indices normal.
fn derive_child(account_key: &BitcoinAccountKey, path: &BitcoinDerivationPath) -> (r: Result<([u8; 33], [u8; 32]), BitcoinError>)
    ensures
        !secp_xonly_valid(account_key.group_key.xonly_public_key@) ==> r is Err,
        path.account >= 0x8000_0000 ==> r is Err,
        path.change >= 0x8000_0000 ==> r is Err,
        path.address_index >= 0x8000_0000 ==> r is Err,
        r is Ok <==> secp_xonly_valid(account_key.group_key.xonly_public_key@) && path.account < 0x8000_0000
            && path.change < 0x8000_0000 && path.address_index < 0x8000_0000 && child_of(
            seq![2u8] + account_key.group_key.xonly_public_key@, account_key.chain_code@, path.change, path.address_index) is Some,
        r matches Ok(v) ==> child_of(seq![2u8] + account_key.group_key.xonly_public_key@, account_key.chain_code@, path.change, path.address_index)
            == Some((v.0@, v.1@)) && (v.0@[0] == 2 || v.0@[0] == 3) && secp_xonly_valid(v.0@.subrange(1, 33)),
{
    let account_public = match lift_even_xonly(account_key.group_key.xonly_public_key) {
        Ok(p) => p,
        Err(e) => return Err(fail_with("invalid account x-only public key: ", e)),
    };
    proof {
        assert(account_public@.subrange(1, 33) =~= account_key.group_key.xonly_public_key@);
    }
    if path.account >= 0x8000_0000 {
        return Err(fail_index("invalid account index: ", path.account));
    }
    if path.change >= 0x8000_0000 {
        return Err(fail_index("invalid child index: ", path.change));
    }
    let first = match ckd_pub(account_public, account_key.chain_code, path.change) {
        Ok(v) => v,
        Err(e) => return Err(fail_with("failed to derive public child key: ", e)),
    };
    if path.address_index >= 0x8000_0000 {
        return Err(fail_index("invalid child index: ", path.address_index));
    }
    let second = match ckd_pub(first.0, first.1, path.address_index) {
        Ok(v) => v,
        Err(e) => return Err(fail_with("failed to derive public child key: ", e)),
    };
    Ok(second)
}

/// The Taproot tweak of an internal x-only key can be applied: the tweak
/// hash is below the group order and the tweaked point is not at infinity.
pub open spec fn tap_tweak_ok(x: Seq<u8>) -> bool {
    &&& be_value(tap_tweak_hash(x)) < group_order()
    &&& point_add_tweak(seq![2u8] + x, tap_tweak_hash(x)) is Some
}

/// The Taproot output key of an internal x-only key, refusing (where the
/// bitcoin crate would panic) a tweak hash at or above the group order and a
/// tweaked point at infinity.
fn taproot_output(internal: [u8; 32]) -> (r: Result<([u8; 32], bool, [u8; 32]), BitcoinError>)
    requires
        secp_xonly_valid(internal@),
    ensures
        tap_tweak_ok(internal@) == r is Ok,
        r matches Ok(v) ==> (v.0@, v.1) == tap_output(internal@) && v.2@ == tap_tweak_hash(internal@)
            && secp_xonly_valid(v.0@),
{
    let tweak = tap_tweak_bytes(internal);
    match secp_scalar(tweak) {
        Err(_) => Err(fail("taproot tweak hash is not below the group order")),
        Ok(_) => {
            let lifted = match lift_even_xonly(internal) {
                Ok(p) => p,
                Err(e) => return Err(fail_with("invalid internal x-only public key: ", e)),
            };
            proof {
                assert(lifted@.subrange(1, 33) =~= internal@);
            }
            match add_exp_tweak(lifted, tweak) {
                Err(e) => Err(fail_with("taproot tweak leads to the point at infinity: ", e)),
                Ok(_) => {
                    let (output, odd) = tap_tweak_output(internal);
                    Ok((output, odd, tweak))
                },
            }
        },
    }
}

/// A real BIP-32 child address below the account key: the non-hardened
/// tail `/change/index` is derived from the public key and chain code, and
/// the child is used as the Taproot internal key.
pub fn taproot_child_address_descriptor(account_key: &BitcoinAccountKey, network: BitcoinNetwork, path: BitcoinDerivationPath) -> (r: Result<
    BitcoinAddressDescriptor,
    BitcoinError,
>)
    ensures
        !secp_xonly_valid(account_key.group_key.xonly_public_key@) ==> r is Err,
        path.account >= 0x8000_0000 || path.change >= 0x8000_0000 || path.address_index >= 0x8000_0000 ==> r is Err,
        r is Ok <==> secp_xonly_valid(account_key.group_key.xonly_public_key@) && path.account < 0x8000_0000
            && path.change < 0x8000_0000 && path.address_index < 0x8000_0000 && match child_of(
            seq![2u8] + account_key.group_key.xonly_public_key@, account_key.chain_code@, path.change, path.address_index) {
            Some((child, _)) => tap_tweak_ok(child.subrange(1, 33)),
            None => false,
        },
        r matches Ok(d) ==> exists|child: Seq<u8>, chain: Seq<u8>| {
            &&& child_of(seq![2u8] + account_key.group_key.xonly_public_key@, account_key.chain_code@, path.change, path.address_index)
                == Some((child, chain))
            &&& d.path == path
            &&& d.network@ == network_debug(network)
            &&& d.account_xonly_public_key_hex@ == hex_text(account_key.group_key.xonly_public_key@)
            &&& d.internal_xonly_public_key_hex@ == hex_text(child.subrange(1, 33))
            &&& d.xonly_public_key_hex@ == hex_text(tap_output(child.subrange(1, 33)).0)
            &&& d.address@ == p2tr_address_text(tap_output(child.subrange(1, 33)).0, network_code(network))
            &&& d.chain_code_hex@ == hex_text(chain)
        },
{
    let (child, chain) = derive_child(account_key, &path)?;
    let (internal, _) = split_xonly(child);
    let (output, _, _) = taproot_output(internal)?;
    let address = p2tr_address(output, network);
    Ok(BitcoinAddressDescriptor {
        path,
        network: network_name(network),
        address,
        account_xonly_public_key_hex: hex_encode(&account_key.group_key.xonly_public_key),
        internal_xonly_public_key_hex: hex_encode(&internal),
        xonly_public_key_hex: hex_encode(&output),
        chain_code_hex: hex_encode(&chain),
    })
}

/// `taproot_child_address_descriptor` for a network given by name.
pub fn taproot_child_address_descriptor_for_network(account_key: &BitcoinAccountKey, network: &str, path: BitcoinDerivationPath) -> (r: Result<
    BitcoinAddressDescriptor,
    BitcoinError,
>)
    ensures
        network_named(network@) is None ==> (r matches Err(e) && e.message@ == "unsupported Bitcoin network: "@ + network@),
        !secp_xonly_valid(account_key.group_key.xonly_public_key@) ==> r is Err,
        r matches Ok(d) ==> d.path == path && d.network@ == network_debug(network_named(network@)->0)
            && d.account_xonly_public_key_hex@ == hex_text(account_key.group_key.xonly_public_key@),
{
    let network = parse_network(network)?;
    taproot_child_address_descriptor(account_key, network, path)
}

/// A Taproot address for an x-only key given in hex.
pub fn taproot_address_from_xonly_hex(xonly_hex: &str, network: BitcoinNetwork) -> (r: Result<String, BitcoinError>)
    ensures
        match hex_bytes(xonly_hex@) {
            None => r matches Err(e) && e.message@ == "x-only public key must be hex"@,
            Some(x) => if x.len() != 32 {
                r matches Err(e) && e.message@ == "x-only public key must be exactly 32 bytes"@
            } else if secp_xonly_valid(x) {
                r matches Ok(a) && a@ == p2tr_address_text(x, network_code(network))
            } else {
                r matches Err(e) && exists|t: Seq<char>| e.message@ == "invalid x-only public key: "@ + t
            },
        },
{
    let group_key = GroupKey { xonly_public_key: parse_xonly_public_key_hex(xonly_hex)?, verification_key_bytes: Vec::new() };
    taproot_address(&group_key, network)
}


// ---------------------------------------------------------------- key tweaks

/// How a group key reaches an output key `Q = A·P + B·G`: the x-only output
/// key, the additive tweak `B` (big-endian scalar bytes) and whether `A = -1`.
#[derive(Debug, Clone, PartialEq, Eq)]
pub struct TaprootKeyTweak {
    pub output_xonly: [u8; 32],
    pub tweak: [u8; 32],
    pub negate_key: bool,
}

/// A key tweak as plain values.
pub struct TweakView {
    pub output_xonly: Seq<u8>,
    pub tweak: nat,
    pub negate_key: bool,
}

pub open spec fn tweak_view(t: TaprootKeyTweak) -> TweakView {
    TweakView { output_xonly: t.output_xonly@, tweak: be_value(t.tweak@), negate_key: t.negate_key }
}

/// Big-endian bytes of a 32-bit number.
pub open spec fn u32_be(n: u32) -> Seq<u8> {
    seq![(n as nat / 0x100_0000) as u8, (n as nat / 0x1_0000 % 256) as u8, (n as nat / 0x100 % 256) as u8, (n as nat % 256) as u8]
}

/// The left half of a BIP-32 step's HMAC: the additive tweak.
pub open spec fn il_half(chain: Seq<u8>, parent: Seq<u8>, index: u32) -> Seq<u8> {
    hmac_sha512_of(chain, parent + u32_be(index)).take(32)
}

/// The right half of a BIP-32 step's HMAC: the next chain code.
pub open spec fn chain_half(chain: Seq<u8>, parent: Seq<u8>, index: u32) -> Seq<u8> {
    hmac_sha512_of(chain, parent + u32_be(index)).skip(32)
}

/// `N - v` for a value to negate, `v` otherwise.
pub open spec fn signed(v: nat, negate: bool) -> nat {
    if negate {
        (group_order() - v) as nat
    } else {
        v
    }
}

/// The tweak for an internal key `I` (compressed) reached from the group key
/// by the additive scalar `t`: the Taproot output of `I`, the tweak
/// `s_out·(s_I·t + t_tap)` and the sign `s_I·s_out` of the key term.
pub open spec fn output_tweak(internal_point: Seq<u8>, t: nat) -> TweakView {
    let internal = internal_point.subrange(1, 33);
    let odd_i = internal_point[0] == 3;
    let out = tap_output(internal);
    let inner = (signed(t, odd_i) + be_value(tap_tweak_hash(internal))) % group_order();
    TweakView { output_xonly: out.0, tweak: signed(inner, out.1), negate_key: odd_i != out.1 }
}

/// The tweak of `output_tweak` exists: the Taproot tweak of the internal
/// key can be applied and the inner tweak sum is not zero.
pub open spec fn output_tweak_defined(internal_point: Seq<u8>, t: nat) -> bool {
    let h = be_value(tap_tweak_hash(internal_point.subrange(1, 33)));
    &&& tap_tweak_ok(internal_point.subrange(1, 33))
    &&& (signed(t, internal_point[0] == 3) + h) % group_order() != 0
}

/// The tweak of a BIP-86 child address: the BIP-32 tweak of the two normal
/// steps below the even lift of the account key, then the Taproot tweak.
pub open spec fn child_key_tweak(xonly: Seq<u8>, chain: Seq<u8>, change: u32, index: u32) -> Option<TweakView> {
    let p0 = seq![2u8] + xonly;
    let il1 = il_half(chain, p0, change);
    match point_add_tweak(p0, il1) {
        None => None,
        Some(p1) => {
            let il2 = il_half(chain_half(chain, p0, change), p1, index);
            let t = (be_value(il1) + be_value(il2)) % group_order();
            match child_of(p0, chain, change, index) {
                None => None,
                Some(child) => if 0 < be_value(il1) < group_order() && be_value(il2) < group_order() && t != 0
                    && point_add_tweak(p1, il2) == Some(child.0) && output_tweak_defined(child.0, t) {
                    Some(output_tweak(child.0, t))
                } else {
                    None
                },
            }
        },
    }
}

fn u32_be_bytes(n: u32) -> (r: [u8; 4])
    ensures
        r@ == u32_be(n),
{
    let r = [(n / 0x100_0000) as u8, (n / 0x1_0000 % 256) as u8, (n / 0x100 % 256) as u8, (n % 256) as u8];
    assert(r@ =~= u32_be(n));
    r
}

/// One BIP-32 step recomputed from the HMAC: the tweak scalar, the child
/// point and chain code, and the running sum of tweaks (the first tweak as a
/// secret key, later ones added to it).
fn bip32_step(chain: [u8; 32], parent: [u8; 33], index: u32, acc: Option<[u8; 32]>) -> (r: Result<
    ([u8; 33], [u8; 32], [u8; 32]),
    BitcoinError,
>)
    requires
        parent@[0] == 2 || parent@[0] == 3,
        secp_xonly_valid(parent@.subrange(1, 33)),
        acc matches Some(a) ==> 0 < be_value(a@) < group_order(),
    ensures
        r is Ok <==> {
            let il = il_half(chain@, parent@, index);
            &&& be_value(il) < group_order()
            &&& point_add_tweak(parent@, il) is Some
            &&& match acc {
                None => be_value(il) > 0,
                Some(a) => (be_value(a@) + be_value(il)) % group_order() != 0,
            }
        },
        r matches Ok(v) ==> {
            let il = il_half(chain@, parent@, index);
            &&& point_add_tweak(parent@, il) == Some(v.0@)
            &&& (v.0@[0] == 2 || v.0@[0] == 3) && secp_xonly_valid(v.0@.subrange(1, 33))
            &&& v.1@ == chain_half(chain@, parent@, index)
            &&& 0 < be_value(v.2@) < group_order()
            &&& be_value(v.2@) == match acc {
                None => be_value(il),
                Some(a) => (be_value(a@) + be_value(il)) % group_order(),
            }
        },
{
    let index_bytes = u32_be_bytes(index);
    let mut data: Vec<u8> = Vec::new();
    let mut k: usize = 0;
    while k < 33
        invariant
            k <= 33,
            data@ == parent@.take(k as int),
        decreases 33 - k,
    {
        data.push(parent[k]);
        assert(data@ =~= parent@.take(k + 1));
        k += 1;
    }
    let mut k: usize = 0;
    while k < 4
        invariant
            k <= 4,
            data@ == parent@ + index_bytes@.take(k as int),
        decreases 4 - k,
    {
        data.push(index_bytes[k]);
        assert(data@ =~= parent@ + index_bytes@.take(k + 1));
        k += 1;
    }
    assert(index_bytes@.take(4) =~= index_bytes@);
    assert(parent@.take(33) =~= parent@);
    let i = hmac_sha512(chain, data.as_slice());
    let mut il = [0u8; 32];
    let mut next_chain = [0u8; 32];
    let mut k: usize = 0;
    while k < 32
        invariant
            k <= 32,
            i@.len() == 64,
            forall|j: int| 0 <= j < k ==> il@[j] == i@[j] && next_chain@[j] == i@[j + 32],
        decreases 32 - k,
    {
        il[k] = i[k];
        next_chain[k] = i[k + 32];
        k += 1;
    }
    assert(il@ =~= i@.take(32));
    assert(next_chain@ =~= i@.skip(32));
    let il_scalar = match secp_scalar(il) {
        Ok(v) => v,
        Err(e) => return Err(fail_with("invalid BIP32 tweak: ", e)),
    };
    let child = match add_exp_tweak(parent, il_scalar) {
        Ok(p) => p,
        Err(e) => return Err(fail_with("BIP32 point derivation failed: ", e)),
    };
    let sum = match acc {
        None => match secret_key(il) {
            Ok(v) => v,
            Err(e) => return Err(fail_with("invalid BIP32 tweak: ", e)),
        },
        Some(a) => match secret_add_tweak(a, il_scalar) {
            Ok(v) => v,
            Err(e) => return Err(fail_with("BIP32 tweak accumulation failed: ", e)),
        },
    };
    Ok((child, next_chain, sum))
}

/// The key tweak for a vault's BIP-86 child receive address, so that a
/// signer for the group key can make a key-path spend signature for it.
pub fn taproot_child_key_tweak(account_key: &BitcoinAccountKey, network: &str, path: BitcoinDerivationPath) -> (r: Result<
    TaprootKeyTweak,
    BitcoinError,
>)
    ensures
        network_named(network@) is None ==> (r matches Err(e) && e.message@ == "unsupported Bitcoin network: "@ + network@),
        !secp_xonly_valid(account_key.group_key.xonly_public_key@) ==> r is Err,
        path.account >= 0x8000_0000 || path.change >= 0x8000_0000 || path.address_index >= 0x8000_0000 ==> r is Err,
        r is Ok <==> network_named(network@) is Some && secp_xonly_valid(account_key.group_key.xonly_public_key@)
            && path.account < 0x8000_0000 && path.change < 0x8000_0000 && path.address_index < 0x8000_0000
            && child_key_tweak(account_key.group_key.xonly_public_key@, account_key.chain_code@, path.change,
            path.address_index) is Some,
        r matches Ok(t) ==> child_key_tweak(account_key.group_key.xonly_public_key@, account_key.chain_code@, path.change, path.address_index)
            == Some(tweak_view(t)),
{
    let _network = parse_network(network)?;
    let (child, _) = derive_child(account_key, &path)?;
    let (internal, child_odd) = split_xonly(child);
    let account_public = match lift_even_xonly(account_key.group_key.xonly_public_key) {
        Ok(p) => p,
        Err(e) => return Err(fail_with("invalid account x-only public key: ", e)),
    };
    proof {
        assert(account_public@.subrange(1, 33) =~= account_key.group_key.xonly_public_key@);
    }
    let (parent1, chain1, tweak1) = bip32_step(account_key.chain_code, account_public, path.change, None)?;
    let (parent2, _, bip32_tweak) = bip32_step(chain1, parent1, path.address_index, Some(tweak1))?;
    if !bytes33_eq(&parent2, &child) {
        return Err(fail("recomputed BIP32 child does not match the Xpub derivation"));
    }
    let (output_xonly, output_odd, tap_tweak) = taproot_output(internal)?;
    let inner = if child_odd { secret_negate(bip32_tweak) } else { bip32_tweak };
    let inner = match secret_add_tweak(inner, tap_tweak) {
        Ok(v) => v,
        Err(e) => return Err(fail_with("taproot tweak accumulation failed: ", e)),
    };
    let tweak = if output_odd { secret_negate(inner) } else { inner };
    let t = TaprootKeyTweak { output_xonly, tweak, negate_key: child_odd != output_odd };
    proof {
        assert(child@.subrange(1, 33) == internal@);
    }
    Ok(t)
}

fn bytes33_eq(a: &[u8; 33], b: &[u8; 33]) -> (r: bool)
    ensures
        r == (a@ == b@),
{
    let mut i: usize = 0;
    while i < 33
        invariant
            i <= 33,
            forall|k: int| 0 <= k < i ==> a@[k] == b@[k],
        decreases 33 - i,
    {
        if a[i] != b[i] {
            return false;
        }
        i += 1;
    }
    assert(a@ =~= b@);
    true
}

/// The tweak of a silent-payment output: the group key's even lift plus
/// `k·G` as the internal key, then the Taproot tweak.
pub open spec fn silent_output_tweak(xonly: Seq<u8>, k: Seq<u8>) -> Option<TweakView> {
    match point_add_tweak(seq![2u8] + xonly, k) {
        None => None,
        Some(p) => Some(output_tweak(p, be_value(k))),
    }
}

/// The tweak of a silent-payment leaf key `P = B + k·G` itself, with no
/// Taproot tweak: its x-only key, `±k`, and whether `P` has odd y.
pub open spec fn silent_leaf_tweak(xonly: Seq<u8>, k: Seq<u8>) -> Option<TweakView> {
    match point_add_tweak(seq![2u8] + xonly, k) {
        None => None,
        Some(p) => Some(TweakView { output_xonly: p.subrange(1, 33), tweak: signed(be_value(k), p[0] == 3), negate_key: p[0] == 3 }),
    }
}

/// The group key's even lift plus `k·G`, for a valid key and secret `k`.
fn silent_point(group_key: &GroupKey, k: [u8; 32]) -> (r: Result<[u8; 33], BitcoinError>)
    ensures
        !secp_xonly_valid(group_key.xonly_public_key@) ==> r is Err,
        !(0 < be_value(k@) < group_order()) ==> r is Err,
        r is Ok <==> secp_xonly_valid(group_key.xonly_public_key@) && 0 < be_value(k@) < group_order()
            && point_add_tweak(seq![2u8] + group_key.xonly_public_key@, k@) is Some,
        r matches Ok(p) ==> 0 < be_value(k@) < group_order() && point_add_tweak(seq![2u8] + group_key.xonly_public_key@, k@) == Some(p@)
            && (p@[0] == 2 || p@[0] == 3) && secp_xonly_valid(p@.subrange(1, 33)),
{
    let p_even = match lift_even_xonly(group_key.xonly_public_key) {
        Ok(p) => p,
        Err(e) => return Err(fail_with("invalid group x-only public key: ", e)),
    };
    proof {
        assert(p_even@.subrange(1, 33) =~= group_key.xonly_public_key@);
    }
    let k_secret = match secret_key(k) {
        Ok(v) => v,
        Err(e) => return Err(fail_with("invalid silent-payment tweak scalar: ", e)),
    };
    let k_scalar = match secp_scalar(k_secret) {
        Ok(v) => v,
        Err(e) => return Err(fail_with("invalid silent-payment tweak scalar: ", e)),
    };
    match add_exp_tweak(p_even, k_scalar) {
        Ok(p) => Ok(p),
        Err(e) => Err(fail_with("silent-payment point derivation failed: ", e)),
    }
}

/// The key tweak for a BIP-352 silent-payment output paid to the group key
/// with per-output tweak `k`: the key-path spend key of `B + k·G`.
pub fn silent_payment_output_tweak(group_key: &GroupKey, k: [u8; 32]) -> (r: Result<TaprootKeyTweak, BitcoinError>)
    ensures
        !secp_xonly_valid(group_key.xonly_public_key@) ==> r is Err,
        !(0 < be_value(k@) < group_order()) ==> r is Err,
        r is Ok <==> secp_xonly_valid(group_key.xonly_public_key@) && 0 < be_value(k@) < group_order()
            && match point_add_tweak(seq![2u8] + group_key.xonly_public_key@, k@) {
            Some(p) => output_tweak_defined(p, be_value(k@)),
            None => false,
        },
        r matches Ok(t) ==> silent_output_tweak(group_key.xonly_public_key@, k@) == Some(tweak_view(t)),
{
    let point = silent_point(group_key, k)?;
    let (internal, internal_odd) = split_xonly(point);
    let (output_xonly, output_odd, tap_tweak) = taproot_output(internal)?;
    let inner = if internal_odd { secret_negate(k) } else { k };
    let inner = match secret_add_tweak(inner, tap_tweak) {
        Ok(v) => v,
        Err(e) => return Err(fail_with("taproot tweak accumulation failed: ", e)),
    };
    let tweak = if output_odd { secret_negate(inner) } else { inner };
    Ok(TaprootKeyTweak { output_xonly, tweak, negate_key: internal_odd != output_odd })
}

/// The key tweak for signing under a silent-payment leaf key `B + k·G`
/// directly, with no Taproot output tweak.
pub fn silent_payment_leaf_tweak(group_key: &GroupKey, k: [u8; 32]) -> (r: Result<TaprootKeyTweak, BitcoinError>)
    ensures
        !secp_xonly_valid(group_key.xonly_public_key@) ==> r is Err,
        !(0 < be_value(k@) < group_order()) ==> r is Err,
        r is Ok <==> secp_xonly_valid(group_key.xonly_public_key@) && 0 < be_value(k@) < group_order()
            && point_add_tweak(seq![2u8] + group_key.xonly_public_key@, k@) is Some,
        r matches Ok(t) ==> silent_leaf_tweak(group_key.xonly_public_key@, k@) == Some(tweak_view(t)),
{
    let point = silent_point(group_key, k)?;
    let (p_xonly, p_odd) = split_xonly(point);
    let tweak = if p_odd { secret_negate(k) } else { k };
    Ok(TaprootKeyTweak { output_xonly: p_xonly, tweak, negate_key: p_odd })
}

// ---------------------------------------------------------------- verification

/// BIP-340 verification of a signature over a 32-byte digest.
pub fn verify_schnorr_digest(xonly_public_key: &[u8; 32], digest: &[u8; 32], signature: &[u8; 64]) -> (r: Result<bool, BitcoinError>)
    ensures
        secp_xonly_valid(xonly_public_key@) ==> r == Ok::<bool, BitcoinError>(
            secp_schnorr_valid(xonly_public_key@, digest@, signature@),
        ),
        secp_xonly_valid(xonly_public_key@) ==> r == Ok::<bool, BitcoinError>(
            crate::curve::bip340_verifies(xonly_public_key@, digest@, signature@),
        ),
        !secp_xonly_valid(xonly_public_key@) ==> r is Err,
{
    match lift_even_xonly(*xonly_public_key) {
        Err(e) => Err(fail_with("invalid x-only public key: ", e)),
        Ok(_) => Ok(verify_schnorr(*xonly_public_key, *digest, *signature)),
    }
}

/// Verifies an aggregate signature, which must be 64 bytes, over a digest
/// under the group key.
pub fn verify_aggregate_signature_digest(group_key: &GroupKey, digest: &[u8; 32], signature: &AggregateSignature) -> (r: Result<
    bool,
    BitcoinError,
>)
    ensures
        signature.signature_bytes@.len() != 64 ==> (r matches Err(e) && e.message@ == "aggregate signature must be exactly 64 bytes"@),
        signature.signature_bytes@.len() == 64 && secp_xonly_valid(group_key.xonly_public_key@) ==> r == Ok::<bool, BitcoinError>(
            secp_schnorr_valid(group_key.xonly_public_key@, digest@, signature.signature_bytes@),
        ),
        signature.signature_bytes@.len() == 64 && secp_xonly_valid(group_key.xonly_public_key@) ==> r == Ok::<bool, BitcoinError>(
            crate::curve::bip340_verifies(group_key.xonly_public_key@, digest@, signature.signature_bytes@),
        ),
{
    if signature.signature_bytes.len() != 64 {
        return Err(fail("aggregate signature must be exactly 64 bytes"));
    }
    let bytes = array64(&signature.signature_bytes);
    verify_schnorr_digest(&group_key.xonly_public_key, digest, &bytes)
}

/// BIP-340 verification with the key, digest and signature in hex.
pub fn verify_schnorr_digest_hex(xonly_public_key_hex: &str, digest_hex: &str, signature_hex: &str) -> (r: Result<
    bool,
    BitcoinError,
>)
    ensures
        hex_bytes(xonly_public_key_hex@) is None ==> (r matches Err(e) && e.message@ == "x-only public key must be hex"@),
        r matches Ok(v) ==> exists|x: Seq<u8>, d: Seq<u8>, s: Seq<u8>| {
            &&& hex_bytes(xonly_public_key_hex@) == Some(x) && x.len() == 32
            &&& hex_bytes(digest_hex@) == Some(d) && d.len() == 32
            &&& hex_bytes(signature_hex@) == Some(s) && s.len() == 64
            &&& v == secp_schnorr_valid(x, d, s)
        },
{
    let public_key = parse_xonly_public_key_hex(xonly_public_key_hex)?;
    let digest = match hex_decode(digest_hex) {
        None => return Err(fail("digest must be hex")),
        Some(b) => {
            if b.len() != 32 {
                return Err(fail("digest must be exactly 32 bytes"));
            }
            array32(&b)
        },
    };
    let signature = match hex_decode(signature_hex) {
        None => return Err(fail("signature must be hex")),
        Some(b) => {
            if b.len() != 64 {
                return Err(fail("signature must be exactly 64 bytes"));
            }
            array64(&b)
        },
    };
    verify_schnorr_digest(&public_key, &digest, &signature)
}


// ---------------------------------------------------------------- key-path spends

/// A vault output to spend.
#[derive(Debug, Clone, PartialEq, Eq)]
pub struct TaprootSpendInput {
    pub txid: String,
    pub vout: u32,
    pub value_sats: u64,
}

/// A destination output of a spend.
#[derive(Debug, Clone, PartialEq, Eq)]
pub struct TaprootSpendOutput {
    pub address: String,
    pub value_sats: u64,
}

/// The outpoints of the inputs, by their txid texts.
pub open spec fn spend_inputs(inputs: Seq<TaprootSpendInput>) -> Seq<(Seq<u8>, u32)> {
    inputs.map_values(|i: TaprootSpendInput| (txid_of(i.txid@)->0, i.vout))
}

/// The values and scripts of the outputs, by their address texts.
pub open spec fn spend_outputs(outputs: Seq<TaprootSpendOutput>, network: nat) -> Seq<(u64, Seq<u8>)> {
    outputs.map_values(|o: TaprootSpendOutput| (o.value_sats, address_script(o.address@, network)->0))
}

/// The prevouts of the inputs: each input's value, paying `script`.
pub open spec fn spend_prevouts(inputs: Seq<TaprootSpendInput>, script: Seq<u8>) -> Seq<(u64, Seq<u8>)> {
    inputs.map_values(|i: TaprootSpendInput| (i.value_sats, script))
}

fn address_error(failure: AddressFailure, invalid: &str, mismatch: &str) -> (e: BitcoinError)
    ensures
        e.message@ == match failure {
            AddressFailure::Invalid(t) => invalid@ + t@,
            AddressFailure::WrongNetwork(t) => mismatch@ + t@,
        },
{
    match failure {
        AddressFailure::Invalid(t) => fail_with(invalid, t),
        AddressFailure::WrongNetwork(t) => fail_with(mismatch, t),
    }
}

/// The transaction version of the spends built here.
pub const SPEND_VERSION: i32 = 2;

/// The lock time of the spends built here: none.
pub const SPEND_LOCK_TIME: u32 = 0;

/// The sequence of every input of the spends built here: replaceable, with
/// no relative lock time.
pub const SPEND_SEQUENCE: u32 = 0xFFFF_FFFD;

/// The consensus byte of the sighash type the spends are signed with:
/// BIP-341's default type.
pub const SPEND_SIGHASH_TYPE: u8 = 0;

/// Builds the unsigned key-path spend of vault outputs (all locked by
/// `vault_address`) to the given outputs, and the BIP-341 sighash of each
/// input, in order.
pub fn taproot_keyspend_sighashes(
    network: &str,
    vault_address: &str,
    inputs: &[TaprootSpendInput],
    outputs: &[TaprootSpendOutput],
) -> (r: Result<(String, Vec<[u8; 32]>), BitcoinError>)
    ensures
        inputs@.len() == 0 ==> (r matches Err(e) && e.message@ == "a spend needs at least one input"@),
        inputs@.len() > 0 && outputs@.len() == 0 ==> (r matches Err(e) && e.message@ == "a spend needs at least one output"@),
        inputs@.len() > 0 && outputs@.len() > 0 && network_named(network@) is None ==> (r matches Err(e)
            && e.message@ == "unsupported Bitcoin network: "@ + network@),
        r is Ok <==> inputs@.len() > 0 && outputs@.len() > 0 && network_named(network@) is Some && {
            let code = network_code(network_named(network@)->0);
            let hex = spend_hex(SPEND_VERSION, SPEND_LOCK_TIME, SPEND_SEQUENCE, spend_inputs(inputs@), spend_outputs(outputs@, code));
            &&& address_script(vault_address@, code) is Some
            &&& forall|i: int| 0 <= i < inputs@.len() ==> (#[trigger] txid_of(inputs@[i].txid@)) is Some
            &&& forall|j: int| 0 <= j < outputs@.len() ==> (#[trigger] address_script(outputs@[j].address@, code)) is Some
            &&& hex.len() <= MAX_DECODABLE_HEX
            &&& forall|k: int| 0 <= k < inputs@.len() ==> (#[trigger] spend_sighash(hex,
                spend_prevouts(inputs@, address_script(vault_address@, code)->0), k as nat, SPEND_SIGHASH_TYPE)) is Some
        },
        r matches Ok(v) ==> {
            let code = network_code(network_named(network@)->0);
            let ins = spend_inputs(inputs@);
            let outs = spend_outputs(outputs@, code);
            let hex = spend_hex(SPEND_VERSION, SPEND_LOCK_TIME, SPEND_SEQUENCE, ins, outs);
            &&& address_script(vault_address@, code) is Some
            &&& v.0@ == hex
            &&& tx_inputs(v.0@) == Some(inputs@.len())
            &&& v.1@.len() == inputs@.len()
            &&& forall|k: int| 0 <= k < v.1@.len() ==> spend_sighash(
                hex,
                spend_prevouts(inputs@, address_script(vault_address@, code)->0),
                k as nat,
                SPEND_SIGHASH_TYPE,
            ) == Some((#[trigger] v.1@[k])@)
        },
{
    if inputs.len() == 0 {
        return Err(fail("a spend needs at least one input"));
    }
    if outputs.len() == 0 {
        return Err(fail("a spend needs at least one output"));
    }
    let net = parse_network(network)?;
    let ghost code = network_code(net);
    let vault_script = match address_script_pubkey(vault_address, net) {
        Ok(s) => s,
        Err(f) => return Err(address_error(f, "invalid vault address: ", "vault address network mismatch: ")),
    };
    let mut spend_ins: Vec<([u8; 32], u32)> = Vec::new();
    let mut prevouts: Vec<(u64, Vec<u8>)> = Vec::new();
    let mut i: usize = 0;
    while i < inputs.len()
        invariant
            i <= inputs@.len(),
            inputs@.len() > 0 && outputs@.len() > 0 && network_named(network@) == Some(net),
            input_views(spend_ins@) == spend_inputs(inputs@.take(i as int)),
            output_views(prevouts@) == spend_prevouts(inputs@.take(i as int), vault_script@),
            forall|m: int| 0 <= m < i ==> (#[trigger] txid_of(inputs@[m].txid@)) is Some,
        decreases inputs@.len() - i,
    {
        let txid = match parse_txid(inputs[i].txid.as_str()) {
            Ok(t) => t,
            Err(e) => return Err(fail_with("invalid input txid: ", e)),
        };
        let ghost prev = spend_ins@;
        let ghost prev_out = prevouts@;
        spend_ins.push((txid, inputs[i].vout));
        prevouts.push((inputs[i].value_sats, vault_script.clone()));
        proof {
            assert(inputs@.take(i + 1) =~= inputs@.take(i as int).push(inputs@[i as int]));
            assert(input_views(spend_ins@) =~= input_views(prev).push((txid@, inputs@[i as int].vout)));
            assert(spend_inputs(inputs@.take(i + 1)) =~= spend_inputs(inputs@.take(i as int)).push((txid@, inputs@[i as int].vout)));
            assert(output_views(prevouts@) =~= output_views(prev_out).push((inputs@[i as int].value_sats, vault_script@)));
            assert(spend_prevouts(inputs@.take(i + 1), vault_script@) =~= spend_prevouts(inputs@.take(i as int), vault_script@).push(
                (inputs@[i as int].value_sats, vault_script@),
            ));
        }
        i += 1;
    }
    assert(inputs@.take(i as int) =~= inputs@);
    let mut tx_outputs: Vec<(u64, Vec<u8>)> = Vec::new();
    let mut j: usize = 0;
    while j < outputs.len()
        invariant
            j <= outputs@.len(),
            code == network_code(net),
            inputs@.len() > 0 && outputs@.len() > 0 && network_named(network@) == Some(net),
            output_views(tx_outputs@) == spend_outputs(outputs@.take(j as int), code),
            forall|m: int| 0 <= m < inputs@.len() ==> (#[trigger] txid_of(inputs@[m].txid@)) is Some,
            forall|m: int| 0 <= m < j ==> (#[trigger] address_script(outputs@[m].address@, code)) is Some,
        decreases outputs@.len() - j,
    {
        let script = match address_script_pubkey(outputs[j].address.as_str(), net) {
            Ok(s) => s,
            Err(f) => return Err(address_error(f, "invalid output address: ", "output address network mismatch: ")),
        };
        let ghost prev = tx_outputs@;
        let ghost script_view = script@;
        tx_outputs.push((outputs[j].value_sats, script));
        proof {
            assert(outputs@.take(j + 1) =~= outputs@.take(j as int).push(outputs@[j as int]));
            assert(output_views(tx_outputs@) =~= output_views(prev).push((outputs@[j as int].value_sats, script_view)));
            assert(spend_outputs(outputs@.take(j + 1), code) =~= spend_outputs(outputs@.take(j as int), code).push(
                (outputs@[j as int].value_sats, script_view),
            ));
        }
        j += 1;
    }
    assert(outputs@.take(j as int) =~= outputs@);
    let unsigned = unsigned_spend_hex(SPEND_VERSION, SPEND_LOCK_TIME, SPEND_SEQUENCE, &spend_ins, &tx_outputs);
    if unsigned.as_str().unicode_len() > MAX_DECODABLE_HEX {
        return Err(fail("transaction too large to decode"));
    }
    let mut sighashes: Vec<[u8; 32]> = Vec::new();
    let mut k: usize = 0;
    while k < inputs.len()
        invariant
            k <= inputs@.len(),
            inputs@.len() > 0 && outputs@.len() > 0 && network_named(network@) == Some(net),
            sighashes@.len() == k,
            tx_inputs(unsigned@) is Some,
            code == network_code(net),
            address_script(vault_address@, code) == Some(vault_script@),
            unsigned@ == spend_hex(SPEND_VERSION, SPEND_LOCK_TIME, SPEND_SEQUENCE, spend_inputs(inputs@), spend_outputs(outputs@, code)),
            output_views(prevouts@) == spend_prevouts(inputs@, vault_script@),
            forall|m: int| 0 <= m < inputs@.len() ==> (#[trigger] txid_of(inputs@[m].txid@)) is Some,
            forall|m: int| 0 <= m < outputs@.len() ==> (#[trigger] address_script(outputs@[m].address@, code)) is Some,
            forall|m: int| 0 <= m < k ==> spend_sighash(unsigned@, output_views(prevouts@), m as nat, SPEND_SIGHASH_TYPE)
                == Some((#[trigger] sighashes@[m])@),
        decreases inputs@.len() - k,
    {
        let h = match key_spend_sighash(unsigned.as_str(), &prevouts, k, SPEND_SIGHASH_TYPE) {
            Ok(h) => h,
            Err(e) => {
                proof {
                    let kk: int = k as int;
                    assert(spend_sighash(unsigned@, spend_prevouts(inputs@, address_script(vault_address@, code)->0),
                        kk as nat, SPEND_SIGHASH_TYPE) is None);
                    assert(!(forall|m: int| 0 <= m < inputs@.len() ==> (#[trigger] spend_sighash(unsigned@,
                        spend_prevouts(inputs@, address_script(vault_address@, code)->0), m as nat, SPEND_SIGHASH_TYPE)) is Some));
                }
                return Err(fail_with("taproot sighash failed: ", e));
            },
        };
        sighashes.push(h);
        k += 1;
    }
    proof {
        assert forall|m: int| 0 <= m < inputs@.len() implies (#[trigger] spend_sighash(unsigned@,
            spend_prevouts(inputs@, address_script(vault_address@, code)->0), m as nat, SPEND_SIGHASH_TYPE)) is Some by {
            assert(spend_sighash(unsigned@, output_views(prevouts@), m as nat, SPEND_SIGHASH_TYPE) == Some(sighashes@[m]@));
        }
    }
    Ok((unsigned, sighashes))
}

pub open spec fn msg_signature_count(expected: nat, got: nat) -> Seq<char> {
    "expected "@ + decimal(expected) + " signatures, got "@ + decimal(got)
}

/// The hex of a transaction after the witnesses of its first `k` inputs are
/// set, in order, each to its one signature.
pub open spec fn witnessed_hex(hex: Seq<char>, sigs: Seq<Seq<u8>>, k: nat) -> Seq<char>
    decreases k,
{
    if k == 0 {
        hex
    } else {
        with_witness(witnessed_hex(hex, sigs, (k - 1) as nat), (k - 1) as nat, sigs[k - 1])
    }
}

/// The bytes of each signature.
pub open spec fn signature_views(s: Seq<[u8; 64]>) -> Seq<Seq<u8>> {
    s.map_values(|x: [u8; 64]| x@)
}

/// Puts each 64-byte signature in its input's witness and returns the raw
/// transaction hex and its txid.
pub fn finalize_taproot_keyspend(unsigned_tx_hex: &str, signatures: &[[u8; 64]]) -> (r: Result<(String, String), BitcoinError>)
    ensures
        tx_inputs(unsigned_tx_hex@) is None ==> r is Err,
        (tx_inputs(unsigned_tx_hex@) is Some && tx_inputs(unsigned_tx_hex@)->0 != signatures@.len()) ==> (r matches Err(e)
            && e.message@ == msg_signature_count(tx_inputs(unsigned_tx_hex@)->0, signatures@.len())),
        tx_inputs(unsigned_tx_hex@) == Some(signatures@.len()) ==> (r is Ok <==> forall|k: nat|
            1 <= k <= signatures@.len() ==> (#[trigger] witnessed_hex(
                unsigned_tx_hex@,
                signature_views(signatures@),
                k,
            )).len() <= MAX_DECODABLE_HEX),
        tx_inputs(unsigned_tx_hex@) == Some(signatures@.len()) ==> match r {
            Ok(v) => v.0@ == witnessed_hex(
                unsigned_tx_hex@,
                signature_views(signatures@),
                signatures@.len(),
            ) && v.1@ == txid_text(v.0@),
            Err(e) => e.message@ == "transaction too large to decode"@,
        },
{
    let n = match transaction_inputs(unsigned_tx_hex) {
        Ok(n) => n,
        Err(e) => return Err(fail_with("invalid unsigned transaction: ", e)),
    };
    if n != signatures.len() {
        let mut message = String::from_str("expected ");
        push_decimal(&mut message, n as u64);
        message.append(" signatures, got ");
        push_decimal(&mut message, signatures.len() as u64);
        return Err(BitcoinError { message });
    }
    let ghost sigs = signature_views(signatures@);
    let mut raw = String::from_str(unsigned_tx_hex);
    let mut i: usize = 0;
    while i < n
        invariant
            i <= n,
            n == signatures@.len(),
            sigs == signature_views(signatures@),
            tx_inputs(unsigned_tx_hex@) == Some(n as nat),
            tx_inputs(raw@) == Some(n as nat),
            raw@ == witnessed_hex(unsigned_tx_hex@, sigs, i as nat),
            forall|k: nat| 1 <= k <= i ==> (#[trigger] witnessed_hex(unsigned_tx_hex@, sigs, k)).len() <= MAX_DECODABLE_HEX,
        decreases n - i,
    {
        raw = witness_input(raw.as_str(), i, signatures[i]);
        assert(sigs[i as int] == signatures@[i as int]@);
        assert(raw@ == witnessed_hex(unsigned_tx_hex@, sigs, (i + 1) as nat));
        if raw.as_str().unicode_len() > MAX_DECODABLE_HEX {
            return Err(fail("transaction too large to decode"));
        }
        i += 1;
    }
    let txid = transaction_txid(raw.as_str());
    Ok((raw, txid))
}

} // verus!
