//! The wallet state: the confirmed UTXO set and the pending outgoing
//! transactions of one address at one height. Both maps are held as vectors
//! of key/value pairs with unique keys; their mathematical model is the
//! corresponding [`Map`].

use vstd::prelude::*;
use vstd::pervasive::VecAdditionalExecFns;
use crate::types::{Address, TxHash, CoinID, Denom, CoinData, CoinDataHeight, CoinDataHeightV,
    Tx, TxView, sigs_cleared, clone_coindata, clone_cdh};
use crate::ledger::{tx_hash_nosigs, hash_nosigs_of};

verus! {

/// Why a state mutation was rejected. On any error the wallet is unchanged.
#[derive(Clone, Copy, PartialEq, Eq, Structural, Debug)]
pub enum AddCoinsError {
    /// The supplied height is not exactly one above the wallet's height.
    BadHeight,
    /// A supplied coin is not addressed to the wallet's covenant hash.
    WrongAddress,
}

/// A bookkeeping struct that tracks all the coins locked by one covenant.
pub struct Wallet {
    /// Network identifier of this wallet.
    pub netid: u8,
    /// The address (covenant hash) all coins here are associated with.
    pub address: Address,
    /// The latest block height known to this wallet.
    pub height: u64,
    /// All confirmed UTXOs this wallet can spend, keyed by coin id.
    pub confirmed_utxos: Vec<(CoinID, CoinDataHeight)>,
    /// Pending outgoing transactions, keyed by signature-independent hash.
    pub pending_outgoing: Vec<(TxHash, Tx)>,
}

// ---------------------------------------------------------------------------
// Association lists as maps
// ---------------------------------------------------------------------------

pub open spec fn ukeys_unique(s: Seq<(CoinID, CoinDataHeight)>) -> bool {
    forall|i: int, j: int| 0 <= i < j < s.len() ==> (#[trigger] s[i]).0 != (#[trigger] s[j]).0
}

/// The natural order on coin ids: by transaction hash (upper half first,
/// big-endian), then by output index.
pub open spec fn coin_lt(a: CoinID, b: CoinID) -> bool {
    ||| a.txhash.hi < b.txhash.hi
    ||| (a.txhash.hi == b.txhash.hi && a.txhash.lo < b.txhash.lo)
    ||| (a.txhash.hi == b.txhash.hi && a.txhash.lo == b.txhash.lo && a.index < b.index)
}

/// The confirmed set is held in strictly ascending coin-id order.
pub open spec fn usorted(s: Seq<(CoinID, CoinDataHeight)>) -> bool {
    forall|i: int, j: int| 0 <= i < j < s.len() ==> coin_lt((#[trigger] s[i]).0, (#[trigger] s[j]).0)
}

/// Compares two coin ids in the natural order.
fn coin_lt_check(a: &CoinID, b: &CoinID) -> (r: bool)
    ensures
        r == coin_lt(*a, *b),
{
    if a.txhash.hi != b.txhash.hi {
        a.txhash.hi < b.txhash.hi
    } else if a.txhash.lo != b.txhash.lo {
        a.txhash.lo < b.txhash.lo
    } else {
        a.index < b.index
    }
}

pub open spec fn umap_of(s: Seq<(CoinID, CoinDataHeight)>) -> Map<CoinID, CoinDataHeightV>
    decreases s.len(),
{
    if s.len() == 0 {
        Map::empty()
    } else {
        umap_of(s.drop_last()).insert(s.last().0, s.last().1@)
    }
}

pub open spec fn pkeys_unique(s: Seq<(TxHash, Tx)>) -> bool {
    forall|i: int, j: int| 0 <= i < j < s.len() ==> (#[trigger] s[i]).0 != (#[trigger] s[j]).0
}

pub open spec fn pmap_of(s: Seq<(TxHash, Tx)>) -> Map<TxHash, TxView>
    decreases s.len(),
{
    if s.len() == 0 {
        Map::empty()
    } else {
        pmap_of(s.drop_last()).insert(s.last().0, s.last().1@)
    }
}

proof fn lemma_umap_absent(s: Seq<(CoinID, CoinDataHeight)>, k: CoinID)
    requires
        forall|i: int| 0 <= i < s.len() ==> (#[trigger] s[i]).0 != k,
    ensures
        !umap_of(s).contains_key(k),
    decreases s.len(),
{
    if s.len() > 0 {
        lemma_umap_absent(s.drop_last(), k);
    }
}

proof fn lemma_umap_update(s: Seq<(CoinID, CoinDataHeight)>, i: int, v: CoinDataHeight)
    requires
        ukeys_unique(s),
        0 <= i < s.len(),
    ensures
        umap_of(s.update(i, (s[i].0, v))) =~= umap_of(s).insert(s[i].0, v@),
        ukeys_unique(s.update(i, (s[i].0, v))),
    decreases s.len(),
{
    let t = s.update(i, (s[i].0, v));
    assert(ukeys_unique(t));
    if i == s.len() - 1 {
        assert(t.drop_last() =~= s.drop_last());
        assert(t.last() == (s[i].0, v));
    } else {
        assert(ukeys_unique(s.drop_last()));
        assert(t.drop_last() =~= s.drop_last().update(i, (s[i].0, v)));
        lemma_umap_update(s.drop_last(), i, v);
        assert(t.last() == s.last());
        assert(s.last().0 != s[i].0);
    }
}

proof fn lemma_umap_remove(s: Seq<(CoinID, CoinDataHeight)>, i: int)
    requires
        ukeys_unique(s),
        0 <= i < s.len(),
    ensures
        umap_of(s.remove(i)) =~= umap_of(s).remove(s[i].0),
        ukeys_unique(s.remove(i)),
    decreases s.len(),
{
    let t = s.remove(i);
    assert(ukeys_unique(t));
    if i == s.len() - 1 {
        assert(t =~= s.drop_last());
        lemma_umap_absent_of_unique(s);
    } else {
        assert(ukeys_unique(s.drop_last()));
        assert(t.drop_last() =~= s.drop_last().remove(i));
        lemma_umap_remove(s.drop_last(), i);
        assert(t.last() == s.last());
        assert(s.last().0 != s[i].0);
    }
}

proof fn lemma_umap_insert_at(s: Seq<(CoinID, CoinDataHeight)>, i: int, k: CoinID, val: CoinDataHeight)
    requires
        ukeys_unique(s),
        forall|j: int| 0 <= j < s.len() ==> (#[trigger] s[j]).0 != k,
        0 <= i <= s.len(),
    ensures
        umap_of(s.insert(i, (k, val))) =~= umap_of(s).insert(k, val@),
        ukeys_unique(s.insert(i, (k, val))),
    decreases s.len(),
{
    let t = s.insert(i, (k, val));
    assert(ukeys_unique(t));
    if i == s.len() {
        assert(t.drop_last() =~= s);
        assert(t.last() == (k, val));
    } else {
        assert(t.drop_last() =~= s.drop_last().insert(i, (k, val)));
        assert(t.last() == s.last());
        assert(ukeys_unique(s.drop_last()));
        lemma_umap_insert_at(s.drop_last(), i, k, val);
        assert(s.last().0 != k);
    }
}

/// In a unique-key list, the last key does not occur earlier, so the map of
/// the prefix does not contain it.
proof fn lemma_umap_absent_of_unique(s: Seq<(CoinID, CoinDataHeight)>)
    requires
        ukeys_unique(s),
        s.len() > 0,
    ensures
        !umap_of(s.drop_last()).contains_key(s.last().0),
{
    assert(forall|i: int| 0 <= i < s.drop_last().len()
        ==> (#[trigger] s.drop_last()[i]).0 != s.last().0);
    lemma_umap_absent(s.drop_last(), s.last().0);
}

proof fn lemma_pmap_absent(s: Seq<(TxHash, Tx)>, k: TxHash)
    requires
        forall|i: int| 0 <= i < s.len() ==> (#[trigger] s[i]).0 != k,
    ensures
        !pmap_of(s).contains_key(k),
    decreases s.len(),
{
    if s.len() > 0 {
        lemma_pmap_absent(s.drop_last(), k);
    }
}

proof fn lemma_pmap_update(s: Seq<(TxHash, Tx)>, i: int, v: Tx)
    requires
        pkeys_unique(s),
        0 <= i < s.len(),
    ensures
        pmap_of(s.update(i, (s[i].0, v))) =~= pmap_of(s).insert(s[i].0, v@),
        pkeys_unique(s.update(i, (s[i].0, v))),
    decreases s.len(),
{
    let t = s.update(i, (s[i].0, v));
    assert(pkeys_unique(t));
    if i == s.len() - 1 {
        assert(t.drop_last() =~= s.drop_last());
        assert(t.last() == (s[i].0, v));
    } else {
        assert(pkeys_unique(s.drop_last()));
        assert(t.drop_last() =~= s.drop_last().update(i, (s[i].0, v)));
        lemma_pmap_update(s.drop_last(), i, v);
        assert(t.last() == s.last());
        assert(s.last().0 != s[i].0);
    }
}

proof fn lemma_pmap_remove(s: Seq<(TxHash, Tx)>, i: int)
    requires
        pkeys_unique(s),
        0 <= i < s.len(),
    ensures
        pmap_of(s.remove(i)) =~= pmap_of(s).remove(s[i].0),
        pkeys_unique(s.remove(i)),
    decreases s.len(),
{
    let t = s.remove(i);
    assert(pkeys_unique(t));
    if i == s.len() - 1 {
        assert(t =~= s.drop_last());
        assert(forall|j: int| 0 <= j < s.drop_last().len()
            ==> (#[trigger] s.drop_last()[j]).0 != s.last().0);
        lemma_pmap_absent(s.drop_last(), s.last().0);
    } else {
        assert(pkeys_unique(s.drop_last()));
        assert(t.drop_last() =~= s.drop_last().remove(i));
        lemma_pmap_remove(s.drop_last(), i);
        assert(t.last() == s.last());
        assert(s.last().0 != s[i].0);
    }
}

// ---------------------------------------------------------------------------
// Executable association-list operations
// ---------------------------------------------------------------------------

fn ufind(v: &Vec<(CoinID, CoinDataHeight)>, k: CoinID) -> (r: Option<usize>)
    ensures
        match r {
            Some(i) => i < v@.len() && v@[i as int].0 == k,
            None => forall|i: int| 0 <= i < v@.len() ==> (#[trigger] v@[i]).0 != k,
        },
{
    let mut i: usize = 0;
    while i < v.len()
        invariant
            i <= v@.len(),
            forall|j: int| 0 <= j < i ==> (#[trigger] v@[j]).0 != k,
        decreases v@.len() - i,
    {
        if v[i].0 == k {
            return Some(i);
        }
        i += 1;
    }
    None
}

fn uinsert(v: &mut Vec<(CoinID, CoinDataHeight)>, k: CoinID, val: CoinDataHeight)
    requires
        ukeys_unique(old(v)@),
        usorted(old(v)@),
    ensures
        ukeys_unique(final(v)@),
        usorted(final(v)@),
        umap_of(final(v)@) == umap_of(old(v)@).insert(k, val@),
{
    let mut i: usize = 0;
    while i < v.len() && coin_lt_check(&v[i].0, &k)
        invariant
            i <= v@.len(),
            ukeys_unique(v@),
            usorted(v@),
            *v == *old(v),
            forall|j: int| 0 <= j < i ==> coin_lt((#[trigger] v@[j]).0, k),
        decreases v@.len() - i,
    {
        i += 1;
    }
    if i < v.len() && v[i].0 == k {
        proof {
            lemma_umap_update(v@, i as int, val);
            assert(usorted(v@.update(i as int, (k, val)))) by {
                assert(forall|j: int|
                    0 <= j < v@.len() ==> (#[trigger] v@.update(i as int, (k, val))[j]).0
                        == v@[j].0);
            }
        }
        v.set(i, (k, val));
    } else {
        proof {
            assert(forall|j: int| 0 <= j < v@.len() ==> (#[trigger] v@[j]).0 != k) by {
                assert(i < v@.len() ==> !coin_lt(v@[i as int].0, k) && v@[i as int].0 != k);
                assert(forall|j: int|
                    i <= j < v@.len() && i < v@.len() ==> coin_lt(v@[i as int].0, (
                    #[trigger] v@[j]).0) || j == i);
            }
            lemma_umap_insert_at(v@, i as int, k, val);
            let t = v@.insert(i as int, (k, val));
            assert(usorted(t)) by {
                assert forall|a: int, b: int| 0 <= a < b < t.len()
                    implies coin_lt((#[trigger] t[a]).0, (#[trigger] t[b]).0) by {
                    if a < i && b == i {
                        assert(t[a].0 == v@[a].0 && coin_lt(v@[a].0, k));
                    } else if a == i && b > i {
                        assert(t[b].0 == v@[b - 1].0);
                        assert(b - 1 >= i);
                        assert(!coin_lt(v@[i as int].0, k) && v@[i as int].0 != k);
                    } else if a < i && b > i {
                        assert(t[a].0 == v@[a].0 && t[b].0 == v@[b - 1].0);
                    } else if a > i {
                        assert(t[a].0 == v@[a - 1].0 && t[b].0 == v@[b - 1].0);
                    } else {
                        assert(t[a].0 == v@[a].0 && t[b].0 == v@[b].0);
                    }
                }
            }
        }
        v.insert(i, (k, val));
    }
}

fn uremove(v: &mut Vec<(CoinID, CoinDataHeight)>, k: CoinID)
    requires
        ukeys_unique(old(v)@),
        usorted(old(v)@),
    ensures
        ukeys_unique(final(v)@),
        usorted(final(v)@),
        umap_of(final(v)@) == umap_of(old(v)@).remove(k),
{
    match ufind(v, k) {
        Some(i) => {
            proof {
                lemma_umap_remove(v@, i as int);
                let t = v@.remove(i as int);
                assert(usorted(t)) by {
                    assert(forall|a: int|
                        0 <= a < t.len() ==> (#[trigger] t[a]).0 == if a < i {
                            v@[a].0
                        } else {
                            v@[a + 1].0
                        });
                }
            }
            v.remove(i);
        }
        None => {
            proof {
                lemma_umap_absent(v@, k);
                assert(umap_of(v@) =~= umap_of(v@).remove(k));
            }
        }
    }
}

fn pfind(v: &Vec<(TxHash, Tx)>, k: TxHash) -> (r: Option<usize>)
    ensures
        match r {
            Some(i) => i < v@.len() && v@[i as int].0 == k,
            None => forall|i: int| 0 <= i < v@.len() ==> (#[trigger] v@[i]).0 != k,
        },
{
    let mut i: usize = 0;
    while i < v.len()
        invariant
            i <= v@.len(),
            forall|j: int| 0 <= j < i ==> (#[trigger] v@[j]).0 != k,
        decreases v@.len() - i,
    {
        if v[i].0 == k {
            return Some(i);
        }
        i += 1;
    }
    None
}

fn pinsert(v: &mut Vec<(TxHash, Tx)>, k: TxHash, val: Tx)
    requires
        pkeys_unique(old(v)@),
    ensures
        pkeys_unique(final(v)@),
        pmap_of(final(v)@) == pmap_of(old(v)@).insert(k, val@),
        exists|j: int| 0 <= j < final(v)@.len() && final(v)@[j].0 == k
            && #[trigger] final(v)@[j].1@ == val@,
{
    match pfind(v, k) {
        Some(i) => {
            proof {
                lemma_pmap_update(v@, i as int, val);
            }
            v.set(i, (k, val));
            proof {
                assert(v@[i as int].0 == k && v@[i as int].1@ == val@);
            }
        }
        None => {
            proof {
                let s = v@.push((k, val));
                assert(s.drop_last() =~= v@);
                assert(pkeys_unique(s));
            }
            v.push((k, val));
            proof {
                let j = v@.len() - 1;
                assert(v@[j].0 == k && v@[j].1@ == val@);
            }
        }
    }
}

fn premove(v: &mut Vec<(TxHash, Tx)>, k: TxHash)
    requires
        pkeys_unique(old(v)@),
    ensures
        pkeys_unique(final(v)@),
        pmap_of(final(v)@) == pmap_of(old(v)@).remove(k),
{
    match pfind(v, k) {
        Some(i) => {
            proof {
                lemma_pmap_remove(v@, i as int);
            }
            v.remove(i);
        }
        None => {
            proof {
                lemma_pmap_absent(v@, k);
                assert(pmap_of(v@) =~= pmap_of(v@).remove(k));
            }
        }
    }
}

// ---------------------------------------------------------------------------
// Wallet model
// ---------------------------------------------------------------------------

pub open spec fn uviews(s: Seq<(CoinID, CoinDataHeight)>) -> Seq<(CoinID, CoinDataHeightV)> {
    s.map_values(|p: (CoinID, CoinDataHeight)| (p.0, p.1@))
}

/// Per-denomination total value of a list of coins.
pub open spec fn coins_total(s: Seq<(CoinID, CoinDataHeightV)>, d: Denom) -> int
    decreases s.len(),
{
    if s.len() == 0 {
        0
    } else {
        coins_total(s.drop_last(), d)
            + if s.last().1.coin_data.denom == d { s.last().1.coin_data.value as int } else { 0 }
    }
}

/// Whether some pending transaction lists `id` among its inputs.
pub open spec fn pending_spends(pending: Seq<(TxHash, Tx)>, id: CoinID) -> bool {
    exists|j: int| 0 <= j < pending.len() && (#[trigger] pending[j]).1.inputs@.contains(id)
}

/// The confirmed coins not committed by any pending transaction, in stored
/// order.
pub open spec fn spendable_of(
    utxos: Seq<(CoinID, CoinDataHeightV)>,
    pending: Seq<(TxHash, Tx)>,
) -> Seq<(CoinID, CoinDataHeightV)>
    decreases utxos.len(),
{
    if utxos.len() == 0 {
        Seq::empty()
    } else {
        (if !pending_spends(pending, utxos[0].0) {
            seq![utxos[0]]
        } else {
            Seq::empty()
        }) + spendable_of(utxos.drop_first(), pending)
    }
}

/// The net effect of confirming a list of coins at one height.
pub open spec fn insert_all(
    m: Map<CoinID, CoinDataHeightV>,
    new: Seq<(CoinID, CoinData)>,
    h: u64,
) -> Map<CoinID, CoinDataHeightV>
    decreases new.len(),
{
    if new.len() == 0 {
        m
    } else {
        insert_all(m, new.drop_last(), h).insert(
            new.last().0,
            CoinDataHeightV { coin_data: new.last().1@, height: h },
        )
    }
}

/// The net effect of spending a list of coin ids.
pub open spec fn remove_all(m: Map<CoinID, CoinDataHeightV>, spent: Seq<CoinID>) -> Map<
    CoinID,
    CoinDataHeightV,
>
    decreases spent.len(),
{
    if spent.len() == 0 {
        m
    } else {
        remove_all(m, spent.drop_last()).remove(spent.last())
    }
}

/// The originating transaction hashes of a list of confirmed coins.
pub open spec fn new_txhashes(s: Seq<(CoinID, CoinData)>) -> Set<TxHash> {
    Set::new(|h: TxHash| exists|i: int| 0 <= i < s.len() && (#[trigger] s[i]).0.txhash == h)
}

/// Every supplied coin is addressed to `addr`.
pub open spec fn all_ours(new: Seq<(CoinID, CoinData)>, addr: Address) -> bool {
    forall|i: int| 0 <= i < new.len() ==> (#[trigger] new[i]).1.covhash == addr
}

/// Uniqueness of keys on the mathematical side.
pub open spec fn vkeys_unique(s: Seq<(CoinID, CoinDataHeightV)>) -> bool {
    forall|i: int, j: int| 0 <= i < j < s.len() ==> (#[trigger] s[i]).0 != (#[trigger] s[j]).0
}

/// Every spendable coin is free of pending commitments.
proof fn lemma_spendable_excludes(u: Seq<(CoinID, CoinDataHeightV)>, p: Seq<(TxHash, Tx)>)
    ensures
        forall|k: int| 0 <= k < spendable_of(u, p).len()
            ==> !pending_spends(p, (#[trigger] spendable_of(u, p)[k]).0),
    decreases u.len(),
{
    if u.len() > 0 {
        lemma_spendable_excludes(u.drop_first(), p);
        let sp = spendable_of(u, p);
        let rest = spendable_of(u.drop_first(), p);
        assert forall|k: int| 0 <= k < sp.len()
            implies !pending_spends(p, (#[trigger] sp[k]).0) by {
            if !pending_spends(p, u[0].0) {
                if k > 0 {
                    assert(sp[k] == rest[k - 1]);
                }
            } else {
                assert(sp[k] == rest[k]);
            }
        }
    }
}



pub(crate) fn coinid_in(v: &Vec<CoinID>, id: CoinID) -> (b: bool)
    ensures
        b == v@.contains(id),
{
    let mut i: usize = 0;
    while i < v.len()
        invariant
            i <= v@.len(),
            forall|j: int| 0 <= j < i ==> v@[j] != id,
        decreases v@.len() - i,
    {
        if v[i] == id {
            return true;
        }
        i += 1;
    }
    false
}

fn spends_check(p: &Vec<(TxHash, Tx)>, id: CoinID) -> (b: bool)
    ensures
        b == pending_spends(p@, id),
{
    let mut j: usize = 0;
    while j < p.len()
        invariant
            j <= p@.len(),
            forall|k: int| 0 <= k < j ==> !(#[trigger] p@[k]).1.inputs@.contains(id),
        decreases p@.len() - j,
    {
        if coinid_in(&p[j].1.inputs, id) {
            return true;
        }
        j += 1;
    }
    false
}

impl Wallet {
    /// Both maps have unique keys, and the confirmed set is kept in
    /// ascending coin-id order.
    pub open spec fn wf(self) -> bool {
        ukeys_unique(self.confirmed_utxos@) && usorted(self.confirmed_utxos@) && pkeys_unique(
            self.pending_outgoing@,
        )
    }

    /// The confirmed UTXO set as a map.
    pub open spec fn utxos(self) -> Map<CoinID, CoinDataHeightV> {
        umap_of(self.confirmed_utxos@)
    }

    /// The pending outgoing transactions as a map.
    pub open spec fn pending(self) -> Map<TxHash, TxView> {
        pmap_of(self.pending_outgoing@)
    }

    /// The coins the automatic selector may draw from.
    pub open spec fn spendable(self) -> Seq<(CoinID, CoinDataHeightV)> {
        spendable_of(uviews(self.confirmed_utxos@), self.pending_outgoing@)
    }

    /// Whether `height` is exactly one above the wallet's height.
    pub open spec fn height_contiguous(self, height: u64) -> bool {
        height == self.height + 1
    }

    /// Applies one block's delta: inserts the newly confirmed coins tagged
    /// with `height`, drops the pending transactions their originating hashes
    /// prove confirmed, removes the spent coins, and advances the height —
    /// all of it, or, on a non-contiguous height or a misaddressed coin,
    /// nothing at all.
    pub fn add_coins(
        &mut self,
        height: u64,
        new_coins: Vec<(CoinID, CoinData)>,
        spent_coins: Vec<CoinID>,
    ) -> (r: Result<(), AddCoinsError>)
        requires
            old(self).wf(),
        ensures
            final(self).wf(),
            !old(self).height_contiguous(height) ==> r == Err::<(), AddCoinsError>(
                AddCoinsError::BadHeight,
            ) && *final(self) == *old(self),
            old(self).height_contiguous(height) && !all_ours(new_coins@, old(self).address)
                ==> r == Err::<(), AddCoinsError>(AddCoinsError::WrongAddress) && *final(self)
                == *old(self),
            old(self).height_contiguous(height) && all_ours(new_coins@, old(self).address) ==> {
                &&& r == Ok::<(), AddCoinsError>(())
                &&& final(self).height == height
                &&& final(self).utxos() == remove_all(
                    insert_all(old(self).utxos(), new_coins@, height),
                    spent_coins@,
                )
                &&& final(self).pending() == old(self).pending().remove_keys(
                    new_txhashes(new_coins@),
                )
                &&& final(self).netid == old(self).netid
                &&& final(self).address == old(self).address
            },
    {
        if self.height == u64::MAX || height != self.height + 1 {
            return Err(AddCoinsError::BadHeight);
        }
        let mut i: usize = 0;
        while i < new_coins.len()
            invariant
                i <= new_coins@.len(),
                *self == *old(self),
                old(self).wf(),
                old(self).height_contiguous(height),
                forall|j: int| 0 <= j < i ==> (#[trigger] new_coins@[j]).1.covhash == self.address,
            decreases new_coins@.len() - i,
        {
            if new_coins[i].1.covhash != self.address {
                return Err(AddCoinsError::WrongAddress);
            }
            i += 1;
        }
        proof {
            assert(new_coins@.take(0) =~= Seq::<(CoinID, CoinData)>::empty());
            assert(new_txhashes(new_coins@.take(0)) =~= Set::<TxHash>::empty());
            assert(old(self).pending().remove_keys(Set::empty()) =~= old(self).pending());
        }
        let mut i: usize = 0;
        while i < new_coins.len()
            invariant
                i <= new_coins@.len(),
                self.wf(),
                all_ours(new_coins@, old(self).address),
                self.height == old(self).height,
                self.netid == old(self).netid,
                self.address == old(self).address,
                umap_of(self.confirmed_utxos@) == insert_all(
                    old(self).utxos(),
                    new_coins@.take(i as int),
                    height,
                ),
                pmap_of(self.pending_outgoing@) == old(self).pending().remove_keys(
                    new_txhashes(new_coins@.take(i as int)),
                ),
            decreases new_coins@.len() - i,
        {
            let id = new_coins[i].0;
            let cdh = CoinDataHeight { coin_data: clone_coindata(&new_coins[i].1), height };
            let ghost p_before = pmap_of(self.pending_outgoing@);
            premove(&mut self.pending_outgoing, id.txhash);
            uinsert(&mut self.confirmed_utxos, id, cdh);
            proof {
                let t1 = new_coins@.take(i + 1);
                assert(t1.drop_last() =~= new_coins@.take(i as int));
                assert(t1.last() == new_coins@[i as int]);
                assert(cdh@ == CoinDataHeightV { coin_data: new_coins@[i as int].1@, height });
                assert(new_txhashes(t1) =~= new_txhashes(new_coins@.take(i as int)).insert(
                    id.txhash,
                ));
                assert(p_before.remove(id.txhash) =~= old(self).pending().remove_keys(
                    new_txhashes(t1),
                ));
            }
            i += 1;
        }
        proof {
            assert(new_coins@.take(new_coins@.len() as int) =~= new_coins@);
            assert(spent_coins@.take(0) =~= Seq::<CoinID>::empty());
        }
        let mut i: usize = 0;
        while i < spent_coins.len()
            invariant
                i <= spent_coins@.len(),
                self.wf(),
                self.height == old(self).height,
                self.netid == old(self).netid,
                self.address == old(self).address,
                umap_of(self.confirmed_utxos@) == remove_all(
                    insert_all(old(self).utxos(), new_coins@, height),
                    spent_coins@.take(i as int),
                ),
                pmap_of(self.pending_outgoing@) == old(self).pending().remove_keys(
                    new_txhashes(new_coins@),
                ),
            decreases spent_coins@.len() - i,
        {
            uremove(&mut self.confirmed_utxos, spent_coins[i]);
            proof {
                let t1 = spent_coins@.take(i + 1);
                assert(t1.drop_last() =~= spent_coins@.take(i as int));
                assert(t1.last() == spent_coins@[i as int]);
            }
            i += 1;
        }
        proof {
            assert(spent_coins@.take(spent_coins@.len() as int) =~= spent_coins@);
        }
        self.height = height;
        Ok(())
    }

    /// Replaces the whole confirmed set with an authoritative snapshot, sets
    /// the height to it, and clears the pending transactions — or, if any
    /// supplied coin is misaddressed, changes nothing.
    pub fn full_reset(
        &mut self,
        latest_height: u64,
        confirmed_utxos: Vec<(CoinID, CoinDataHeight)>,
    ) -> (r: Result<(), AddCoinsError>)
        requires
            old(self).wf(),
        ensures
            final(self).wf(),
            (exists|i: int|
                0 <= i < confirmed_utxos@.len()
                    && (#[trigger] confirmed_utxos@[i]).1.coin_data.covhash != old(self).address)
                ==> r == Err::<(), AddCoinsError>(AddCoinsError::WrongAddress) && *final(self)
                == *old(self),
            (forall|i: int|
                0 <= i < confirmed_utxos@.len()
                    ==> (#[trigger] confirmed_utxos@[i]).1.coin_data.covhash == old(self).address)
                ==> {
                &&& r == Ok::<(), AddCoinsError>(())
                &&& final(self).height == latest_height
                &&& final(self).utxos() == umap_of(confirmed_utxos@)
                &&& final(self).pending() == Map::<TxHash, TxView>::empty()
                &&& final(self).pending_outgoing@.len() == 0
                &&& final(self).netid == old(self).netid
                &&& final(self).address == old(self).address
            },
    {
        let mut i: usize = 0;
        while i < confirmed_utxos.len()
            invariant
                i <= confirmed_utxos@.len(),
                *self == *old(self),
                old(self).wf(),
                forall|j: int|
                    0 <= j < i ==> (#[trigger] confirmed_utxos@[j]).1.coin_data.covhash
                        == self.address,
            decreases confirmed_utxos@.len() - i,
        {
            if confirmed_utxos[i].1.coin_data.covhash != self.address {
                return Err(AddCoinsError::WrongAddress);
            }
            i += 1;
        }
        let mut nu: Vec<(CoinID, CoinDataHeight)> = Vec::new();
        proof {
            assert(confirmed_utxos@.take(0) =~= Seq::<(CoinID, CoinDataHeight)>::empty());
        }
        let mut i: usize = 0;
        while i < confirmed_utxos.len()
            invariant
                i <= confirmed_utxos@.len(),
                *self == *old(self),
                ukeys_unique(nu@),
                usorted(nu@),
                umap_of(nu@) == umap_of(confirmed_utxos@.take(i as int)),
            decreases confirmed_utxos@.len() - i,
        {
            uinsert(&mut nu, confirmed_utxos[i].0, clone_cdh(&confirmed_utxos[i].1));
            proof {
                let t1 = confirmed_utxos@.take(i + 1);
                assert(t1.drop_last() =~= confirmed_utxos@.take(i as int));
                assert(t1.last() == confirmed_utxos@[i as int]);
            }
            i += 1;
        }
        proof {
            assert(confirmed_utxos@.take(confirmed_utxos@.len() as int) =~= confirmed_utxos@);
        }
        self.height = latest_height;
        self.confirmed_utxos = nu;
        self.pending_outgoing = Vec::new();
        Ok(())
    }

    /// Notes a broadcast but unconfirmed transaction, keyed by its
    /// signature-independent hash, so that the coins it spends stop being
    /// offered by the spendable-coin selector even though they are still
    /// confirmed.
    pub fn add_pending(&mut self, tx: Tx)
        requires
            old(self).wf(),
        ensures
            final(self).wf(),
            final(self).pending() == old(self).pending().insert(
                hash_nosigs_of(sigs_cleared(tx@)),
                tx@,
            ),
            final(self).confirmed_utxos == old(self).confirmed_utxos,
            final(self).height == old(self).height,
            final(self).netid == old(self).netid,
            final(self).address == old(self).address,
            forall|k: int|
                0 <= k < final(self).spendable().len()
                    ==> !tx.inputs@.contains((#[trigger] final(self).spendable()[k]).0),
    {
        let h = tx_hash_nosigs(&tx);
        let ghost txv = tx@;
        pinsert(&mut self.pending_outgoing, h, tx);
        proof {
            lemma_spendable_excludes(uviews(self.confirmed_utxos@), self.pending_outgoing@);
            let p = self.pending_outgoing@;
            let j = choose|j: int|
                0 <= j < p.len() && p[j].0 == h && (#[trigger] p[j]).1@ == txv;
            assert forall|k: int| 0 <= k < self.spendable().len()
                implies !txv.inputs.contains((#[trigger] self.spendable()[k]).0) by {
                let id = self.spendable()[k].0;
                assert(!pending_spends(p, id));
                if txv.inputs.contains(id) {
                    assert(p[j].1.inputs@.contains(id));
                    assert(pending_spends(p, id));
                }
            }
        }
    }

    /// The confirmed coins not committed as an input of any pending
    /// transaction, in ascending coin-id order: the only coins the automatic
    /// selector draws from.
    pub fn spendable_utxos(&self) -> (r: Vec<(CoinID, CoinDataHeight)>)
        requires
            self.wf(),
        ensures
            uviews(r@) == self.spendable(),
            ukeys_unique(r@),
            usorted(r@),
    {
        let mut r: Vec<(CoinID, CoinDataHeight)> = Vec::new();
        let u = &self.confirmed_utxos;
        proof {
            assert(uviews(r@) =~= Seq::<(CoinID, CoinDataHeightV)>::empty());
            assert(uviews(u@).skip(0) =~= uviews(u@));
            assert(uviews(r@) + uviews(u@) =~= uviews(u@));
        }
        let mut i: usize = 0;
        while i < u.len()
            invariant
                i <= u@.len(),
                self.wf(),
                u == self.confirmed_utxos,
                ukeys_unique(r@),
                usorted(r@),
                uviews(r@) + spendable_of(uviews(u@).skip(i as int), self.pending_outgoing@)
                    == self.spendable(),
                forall|k: int|
                    0 <= k < r@.len() ==> exists|m: int|
                        0 <= m < i && u@[m].0 == (#[trigger] r@[k]).0,
            decreases u@.len() - i,
        {
            let ghost pre = uviews(r@);
            let ghost tail = uviews(u@).skip(i as int);
            let id = u[i].0;
            if !spends_check(&self.pending_outgoing, id) {
                let ghost rpre = r@;
                r.push((id, clone_cdh(&u[i].1)));
                proof {
                    assert(usorted(r@)) by {
                        assert forall|k1: int, k2: int| 0 <= k1 < k2 < r@.len()
                            implies coin_lt((#[trigger] r@[k1]).0, (#[trigger] r@[k2]).0) by {
                            if k2 == r@.len() - 1 {
                                let m = choose|m: int|
                                    0 <= m < i && u@[m].0 == (#[trigger] rpre[k1]).0;
                                assert(coin_lt(u@[m].0, u@[i as int].0));
                            }
                        }
                    }
                }
            }
            proof {
                assert(tail[0] == uviews(u@)[i as int]);
                assert(tail.drop_first() =~= uviews(u@).skip(i + 1));
                if !pending_spends(self.pending_outgoing@, id) {
                    assert(uviews(r@) =~= pre.push((id, u@[i as int].1@)));
                    assert(uviews(r@) + spendable_of(uviews(u@).skip(i + 1), self.pending_outgoing@)
                        =~= pre + spendable_of(tail, self.pending_outgoing@));
                } else {
                    assert(spendable_of(tail, self.pending_outgoing@) == spendable_of(
                        tail.drop_first(),
                        self.pending_outgoing@,
                    ));
                }
            }
            i += 1;
        }
        proof {
            assert(uviews(u@).skip(u@.len() as int) =~= Seq::<(CoinID, CoinDataHeightV)>::empty());
            assert(uviews(r@) + Seq::<(CoinID, CoinDataHeightV)>::empty() =~= uviews(r@));
        }
        r
    }

    /// The total confirmed value held, by denomination, pending spends
    /// ignored.
    pub fn balances(&self) -> (r: Vec<(Denom, u128)>)
        requires
            self.wf(),
            forall|d: Denom| coins_total(uviews(self.confirmed_utxos@), d) <= u128::MAX,
        ensures
            crate::tally::tkeys_unique(r@),
            forall|d: Denom|
                crate::tally::tget(r@, d) == coins_total(uviews(self.confirmed_utxos@), d),
            forall|d: Denom|
                crate::tally::tcontains(r@, d) ==> exists|m: int|
                    0 <= m < self.confirmed_utxos@.len()
                        && (#[trigger] uviews(self.confirmed_utxos@)[m]).1.coin_data.denom == d,
            forall|m: int|
                0 <= m < self.confirmed_utxos@.len() ==> crate::tally::tcontains(
                    r@,
                    (#[trigger] uviews(self.confirmed_utxos@)[m]).1.coin_data.denom,
                ),
    {
        crate::tally::tally_of_coins(&self.confirmed_utxos)
    }
}

} // verus!
