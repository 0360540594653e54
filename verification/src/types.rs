//! The ledger value types that the wallet's logic reads, modelled as plain
//! data: 256-bit hashes are held as two 128-bit halves, byte strings as
//! `Vec<u8>`, and coin values as `u128` micro-units.

use vstd::prelude::*;

verus! {

/// A 256-bit covenant hash naming a spending authority, split into its
/// big-endian upper and lower 128-bit halves.
#[derive(Clone, Copy, PartialEq, Eq, Structural, Debug, Hash)]
pub struct Address {
    pub hi: u128,
    pub lo: u128,
}

/// The signature-independent 256-bit hash of a transaction, split into its
/// big-endian upper and lower 128-bit halves.
#[derive(Clone, Copy, PartialEq, Eq, Structural, Debug, Hash)]
pub struct TxHash {
    pub hi: u128,
    pub lo: u128,
}

/// A reference to one output of one transaction: the transaction's hash plus
/// the output's index.
#[derive(Clone, Copy, PartialEq, Eq, Structural, Debug, Hash)]
pub struct CoinID {
    pub txhash: TxHash,
    pub index: u8,
}

/// The asset type of a coin: the native fee asset, the two auxiliary network
/// assets, the pseudo-denomination that mints a new token, or a custom token
/// named by the hash of the transaction that minted it.
#[derive(Clone, Copy, PartialEq, Eq, Structural, Debug, Hash)]
pub enum Denom {
    Mel,
    Sym,
    Erg,
    NewCustom,
    Custom(TxHash),
}

/// The kind of a transaction. The wallet never inspects it; it is carried
/// through to the assembled transaction.
#[derive(Clone, Copy, PartialEq, Eq, Structural, Debug, Hash)]
pub enum TxKind {
    Normal,
    Stake,
    DoscMint,
    Swap,
    LiqDeposit,
    LiqWithdraw,
    Faucet,
}

/// The payload a coin carries: who may spend it, its asset type, its value,
/// and arbitrary additional bytes.
#[derive(Clone, PartialEq, Eq, Debug)]
pub struct CoinData {
    pub covhash: Address,
    pub value: u128,
    pub denom: Denom,
    pub additional_data: Vec<u8>,
}

/// A [`CoinData`] together with the block height at which it was confirmed.
#[derive(Clone, PartialEq, Eq, Debug)]
pub struct CoinDataHeight {
    pub coin_data: CoinData,
    pub height: u64,
}

/// A transaction: the coins it spends, the outputs it creates, its declared
/// fee, the covenants unlocking its inputs, arbitrary data, and signatures.
#[derive(Clone, PartialEq, Eq, Debug)]
pub struct Tx {
    pub kind: TxKind,
    pub inputs: Vec<CoinID>,
    pub outputs: Vec<CoinData>,
    pub fee: u128,
    pub covenants: Vec<Vec<u8>>,
    pub data: Vec<u8>,
    pub sigs: Vec<Vec<u8>>,
}

/// Mathematical value of a [`CoinData`].
#[verifier::ext_equal]
pub struct CoinDataV {
    pub covhash: Address,
    pub value: u128,
    pub denom: Denom,
    pub additional_data: Seq<u8>,
}

/// Mathematical value of a [`CoinDataHeight`].
#[verifier::ext_equal]
pub struct CoinDataHeightV {
    pub coin_data: CoinDataV,
    pub height: u64,
}

/// Mathematical value of a [`Tx`].
#[verifier::ext_equal]
pub struct TxView {
    pub kind: TxKind,
    pub inputs: Seq<CoinID>,
    pub outputs: Seq<CoinDataV>,
    pub fee: u128,
    pub covenants: Seq<Seq<u8>>,
    pub data: Seq<u8>,
    pub sigs: Seq<Seq<u8>>,
}

impl View for CoinData {
    type V = CoinDataV;

    open spec fn view(&self) -> CoinDataV {
        CoinDataV {
            covhash: self.covhash,
            value: self.value,
            denom: self.denom,
            additional_data: self.additional_data@,
        }
    }
}

impl View for CoinDataHeight {
    type V = CoinDataHeightV;

    open spec fn view(&self) -> CoinDataHeightV {
        CoinDataHeightV { coin_data: self.coin_data@, height: self.height }
    }
}

impl View for Tx {
    type V = TxView;

    open spec fn view(&self) -> TxView {
        TxView {
            kind: self.kind,
            inputs: self.inputs@,
            outputs: self.outputs@.map_values(|o: CoinData| o@),
            fee: self.fee,
            covenants: self.covenants@.map_values(|c: Vec<u8>| c@),
            data: self.data@,
            sigs: self.sigs@.map_values(|s: Vec<u8>| s@),
        }
    }
}

/// Copies a byte string.
pub fn copy_bytes(v: &Vec<u8>) -> (r: Vec<u8>)
    ensures
        r@ == v@,
{
    let mut r: Vec<u8> = Vec::new();
    let mut i: usize = 0;
    while i < v.len()
        invariant
            i <= v@.len(),
            r@ == v@.take(i as int),
        decreases v@.len() - i,
    {
        r.push(v[i]);
        i += 1;
        proof {
            assert(r@ =~= v@.take(i as int));
        }
    }
    proof {
        assert(v@.take(v@.len() as int) =~= v@);
    }
    r
}

/// Copies a list of byte strings.
pub fn copy_bytes_list(v: &Vec<Vec<u8>>) -> (r: Vec<Vec<u8>>)
    ensures
        r@.len() == v@.len(),
        forall|i: int| 0 <= i < v@.len() ==> (#[trigger] r@[i])@ == v@[i]@,
{
    let mut r: Vec<Vec<u8>> = Vec::new();
    let mut i: usize = 0;
    while i < v.len()
        invariant
            i <= v@.len(),
            r@.len() == i,
            forall|j: int| 0 <= j < i ==> (#[trigger] r@[j])@ == v@[j]@,
        decreases v@.len() - i,
    {
        r.push(copy_bytes(&v[i]));
        i += 1;
    }
    r
}

/// Copies a list of coin ids.
pub fn copy_coinids(v: &Vec<CoinID>) -> (r: Vec<CoinID>)
    ensures
        r@ == v@,
{
    let mut r: Vec<CoinID> = Vec::new();
    let mut i: usize = 0;
    while i < v.len()
        invariant
            i <= v@.len(),
            r@ == v@.take(i as int),
        decreases v@.len() - i,
    {
        r.push(v[i]);
        i += 1;
        proof {
            assert(r@ =~= v@.take(i as int));
        }
    }
    proof {
        assert(v@.take(v@.len() as int) =~= v@);
    }
    r
}

/// Copies a coin payload.
pub fn clone_coindata(c: &CoinData) -> (r: CoinData)
    ensures
        r@ == c@,
{
    CoinData {
        covhash: c.covhash,
        value: c.value,
        denom: c.denom,
        additional_data: copy_bytes(&c.additional_data),
    }
}

/// Copies a confirmed coin payload.
pub fn clone_cdh(c: &CoinDataHeight) -> (r: CoinDataHeight)
    ensures
        r@ == c@,
{
    CoinDataHeight { coin_data: clone_coindata(&c.coin_data), height: c.height }
}

/// Copies a list of coin payloads.
pub fn copy_coindatas(v: &Vec<CoinData>) -> (r: Vec<CoinData>)
    ensures
        r@.len() == v@.len(),
        forall|i: int| 0 <= i < v@.len() ==> (#[trigger] r@[i])@ == v@[i]@,
{
    let mut r: Vec<CoinData> = Vec::new();
    let mut i: usize = 0;
    while i < v.len()
        invariant
            i <= v@.len(),
            r@.len() == i,
            forall|j: int| 0 <= j < i ==> (#[trigger] r@[j])@ == v@[j]@,
        decreases v@.len() - i,
    {
        r.push(clone_coindata(&v[i]));
        i += 1;
    }
    r
}

/// Copies a whole transaction.
pub fn clone_tx(t: &Tx) -> (r: Tx)
    ensures
        r@ == t@,
{
    let r = Tx {
        kind: t.kind,
        inputs: copy_coinids(&t.inputs),
        outputs: copy_coindatas(&t.outputs),
        fee: t.fee,
        covenants: copy_bytes_list(&t.covenants),
        data: copy_bytes(&t.data),
        sigs: copy_bytes_list(&t.sigs),
    };
    proof {
        assert(r@.outputs =~= t@.outputs);
        assert(r@.covenants =~= t@.covenants);
        assert(r@.sigs =~= t@.sigs);
    }
    r
}

/// The same transaction value with its signatures cleared; transaction
/// hashing is signature-independent.
pub open spec fn sigs_cleared(t: TxView) -> TxView {
    TxView { sigs: Seq::empty(), ..t }
}

/// Two transaction values that agree on everything except their signatures.
pub open spec fn same_except_sigs(a: TxView, b: TxView) -> bool {
    &&& a.kind == b.kind
    &&& a.inputs == b.inputs
    &&& a.outputs == b.outputs
    &&& a.fee == b.fee
    &&& a.covenants == b.covenants
    &&& a.data == b.data
}

} // verus!
