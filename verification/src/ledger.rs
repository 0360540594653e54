//! The boundary to the external ledger-structures collaborator: the exact
//! serialization, the fee-weight formula and the cryptographic primitives
//! live there. Every function here wraps one of its calls, or converts one
//! value of this library into its form, and the rest of the library is
//! verified against the stated contracts.

use vstd::prelude::*;
use crate::types::{Tx, TxView, TxHash, CoinID, CoinData, TxKind, Denom, sigs_cleared};

verus! {

/// The signature-independent hash that `melstructs::Transaction::hash_nosigs`
/// assigns to a transaction value whose signatures are cleared. It depends on
/// the remaining fields alone.
pub uninterp spec fn hash_nosigs_of(t: TxView) -> TxHash;

/// The fee that `melstructs::Transaction::base_fee` requires of a transaction
/// value at a given fee multiplier and weight ballast, with covenant weights
/// taken from `melvm::covenant_weight_from_bytes`. It depends on those
/// arguments alone.
pub uninterp spec fn base_fee_of(t: TxView, fee_multiplier: u128, ballast: u128) -> u128;

/// The weight that `melvm::covenant_weight_from_bytes` assigns to one
/// covenant's bytes. It depends on the bytes alone.
pub uninterp spec fn covenant_weight_of(c: Seq<u8>) -> u128;

/// Total weight of a transaction's covenants.
pub open spec fn cov_weight_total(cs: Seq<Seq<u8>>) -> int
    decreases cs.len(),
{
    if cs.len() == 0 {
        0
    } else {
        cov_weight_total(cs.drop_last()) + covenant_weight_of(cs.last())
    }
}

/// Relies on `melvm::covenant_weight_from_bytes`: a total, deterministic
/// function of the covenant bytes alone (undecodable bytes weigh 0).
#[verifier::external_body]
pub(crate) fn covenant_weight(c: &Vec<u8>) -> (r: u128)
    ensures
        r == covenant_weight_of(c@),
{
    melvm::covenant_weight_from_bytes(c)
}

/// Relies on `tmelcrypt::HashVal` holding exactly the 32 bytes of a 256-bit
/// hash; the two halves are laid out big-endian, upper half first.
#[verifier::external_body]
fn mel_hashval(hi: u128, lo: u128) -> tmelcrypt::HashVal {
    let mut b = [0u8; 32];
    b[..16].copy_from_slice(&hi.to_be_bytes());
    b[16..].copy_from_slice(&lo.to_be_bytes());
    tmelcrypt::HashVal(b)
}

/// Relies on `melstructs::Transaction` carrying kind, fee and data, field for
/// field; the remaining fields start empty.
#[verifier::external_body]
fn mel_tx_new(k: &TxKind, fee: u128, data: &Vec<u8>) -> melstructs::Transaction {
    let kind = match k {
        TxKind::Normal => melstructs::TxKind::Normal,
        TxKind::Stake => melstructs::TxKind::Stake,
        TxKind::DoscMint => melstructs::TxKind::DoscMint,
        TxKind::Swap => melstructs::TxKind::Swap,
        TxKind::LiqDeposit => melstructs::TxKind::LiqDeposit,
        TxKind::LiqWithdraw => melstructs::TxKind::LiqWithdraw,
        TxKind::Faucet => melstructs::TxKind::Faucet,
    };
    let mut t = melstructs::Transaction::default();
    t.kind = kind;
    t.fee = melstructs::CoinValue(fee);
    t.data = bytes::Bytes::copy_from_slice(data);
    t
}

/// Relies on `melstructs::CoinID` being the pair of a transaction hash and an
/// output index; appends one input.
#[verifier::external_body]
fn mel_tx_push_input(t: &mut melstructs::Transaction, c: &CoinID) {
    t.inputs.push(melstructs::CoinID {
        txhash: melstructs::TxHash(mel_hashval(c.txhash.hi, c.txhash.lo)),
        index: c.index,
    });
}

/// Relies on `melstructs::CoinData` carrying covenant hash, value,
/// denomination and additional data, field for field, and on
/// `melstructs::Denom` distinguishing the same five asset kinds, one arm
/// each; appends one output.
#[verifier::external_body]
fn mel_tx_push_output(t: &mut melstructs::Transaction, d: &CoinData) {
    let denom = match &d.denom {
        Denom::Mel => melstructs::Denom::Mel,
        Denom::Sym => melstructs::Denom::Sym,
        Denom::Erg => melstructs::Denom::Erg,
        Denom::NewCustom => melstructs::Denom::NewCustom,
        Denom::Custom(h) => melstructs::Denom::Custom(melstructs::TxHash(mel_hashval(h.hi, h.lo))),
    };
    t.outputs.push(melstructs::CoinData {
        covhash: melstructs::Address(mel_hashval(d.covhash.hi, d.covhash.lo)),
        value: melstructs::CoinValue(d.value),
        denom,
        additional_data: bytes::Bytes::copy_from_slice(&d.additional_data),
    });
}

/// Appends one unlock covenant, as bytes.
#[verifier::external_body]
fn mel_tx_push_covenant(t: &mut melstructs::Transaction, c: &Vec<u8>) {
    t.covenants.push(bytes::Bytes::copy_from_slice(c));
}

/// Appends one signature, as bytes.
#[verifier::external_body]
fn mel_tx_push_sig(t: &mut melstructs::Transaction, s: &Vec<u8>) {
    t.sigs.push(bytes::Bytes::copy_from_slice(s));
}

/// Converts a transaction of this library into the external form, field for
/// field.
#[verifier::external_body]
fn mel_tx(tx: &Tx) -> melstructs::Transaction {
    let mut m = mel_tx_new(&tx.kind, tx.fee, &tx.data);
    for c in tx.inputs.iter() {
        mel_tx_push_input(&mut m, c);
    }
    for o in tx.outputs.iter() {
        mel_tx_push_output(&mut m, o);
    }
    for c in tx.covenants.iter() {
        mel_tx_push_covenant(&mut m, c);
    }
    for s in tx.sigs.iter() {
        mel_tx_push_sig(&mut m, s);
    }
    m
}

/// Relies on `melstructs::Transaction::hash_nosigs`: it clears the signatures,
/// serializes the rest, and hashes that, so the result is a function of the
/// signature-cleared transaction value alone.
#[verifier::external_body]
pub(crate) fn tx_hash_nosigs(tx: &Tx) -> (r: TxHash)
    ensures
        r == hash_nosigs_of(sigs_cleared(tx@)),
{
    let h = mel_tx(tx).hash_nosigs().0 .0;
    TxHash {
        hi: u128::from_be_bytes(h[..16].try_into().unwrap()),
        lo: u128::from_be_bytes(h[16..].try_into().unwrap()),
    }
}

/// Relies on `melstructs::Transaction::base_fee` with
/// `melvm::covenant_weight_from_bytes`: a deterministic function of the
/// serialized transaction, the fee multiplier and the ballast. The covenant
/// weights are summed there without an overflow check, so the bound below
/// keeps the call away from inputs on which that sum could overflow.
#[verifier::external_body]
pub(crate) fn tx_base_fee(tx: &Tx, fee_multiplier: u128, ballast: u128) -> (r: u128)
    requires
        cov_weight_total(tx@.covenants) <= u128::MAX,
    ensures
        r == base_fee_of(tx@, fee_multiplier, ballast),
{
    mel_tx(tx).base_fee(fee_multiplier, ballast, melvm::covenant_weight_from_bytes).0
}

/// Relies on `melvm::Covenant::std_ed25519_pk_new` and
/// `tmelcrypt::Ed25519SK::to_public`: the standard single-key unlock covenant
/// for the public half of the given key, in its binary encoding.
#[verifier::external_body]
pub(crate) fn std_ed25519_covenant(sk: &tmelcrypt::Ed25519SK) -> Vec<u8> {
    melvm::Covenant::std_ed25519_pk_new(sk.to_public()).to_bytes().to_vec()
}

/// Relies on `tmelcrypt::Ed25519SK::sign`: an ed25519 signature over the 32
/// bytes of the given hash, exactly 64 bytes long.
#[verifier::external_body]
pub(crate) fn ed25519_sign_hash(sk: &tmelcrypt::Ed25519SK, h: &TxHash) -> (r: Vec<u8>)
    ensures
        r@.len() == 64,
{
    sk.sign(&mel_hashval(h.hi, h.lo).0).to_vec()
}

} // verus!
