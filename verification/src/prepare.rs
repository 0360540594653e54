//! The transaction preparer: input selection, change computation and the
//! fee-convergence ladder.

use vstd::prelude::*;
use crate::types::{Address, CoinID, Denom, TxKind, CoinData, CoinDataV, CoinDataHeight,
    CoinDataHeightV, Tx, TxView, copy_bytes, copy_coinids, copy_coindatas, clone_cdh};
use crate::wallet::{Wallet, coins_total, uviews, spendable_of, ukeys_unique, coinid_in};
use crate::tally::{tget, tkeys_unique, tcontains, tadd_seq, tcoins_seq, tally_get, tally_add,
    tally_contains, tally_of_coins, lemma_tget_entry, lemma_tget_absent, lemma_coins_total_nonneg,
    lemma_coins_total_concat, lemma_coins_total_take_le};
use crate::ledger::{tx_base_fee, base_fee_of, covenant_weight, covenant_weight_of,
    cov_weight_total};
use crate::signer::Signer;

verus! {

/// Why a transaction could not be prepared.
#[derive(Debug)]
pub enum PrepareTxError<E> {
    /// Not enough spendable money in the named denomination.
    InsufficientFunds(Denom),
    /// An explicitly supplied input cannot be spent; here: it duplicates
    /// another input of the same transaction.
    BadExternalInput(CoinID),
    /// The signer refused to sign, with its own error.
    SignerRefused(E),
}

/// Constraints on what sort of transaction to prepare.
pub struct PrepareTxArgs {
    /// Kind of the transaction.
    pub kind: TxKind,
    /// Additional inputs, normally empty: out-of-wallet coins the caller can
    /// spend, given here with their payloads.
    pub inputs: Vec<(CoinID, CoinDataHeight)>,
    /// Required outputs: the recipients. Change outputs may be appended.
    pub outputs: Vec<CoinData>,
    /// Additional covenants carried with the request, needed when spending
    /// out-of-wallet coins. The assembled transaction's covenant list holds
    /// the signer's unlock script once per input; this field is carried for
    /// callers that post-process the transaction.
    pub covenants: Vec<Vec<u8>>,
    /// The data field of the transaction.
    pub data: Vec<u8>,
    /// Pretend the transaction is this many bytes bigger when computing the
    /// required fee.
    pub fee_ballast: usize,
}

impl Default for PrepareTxArgs {
    /// A normal-kind request with nothing in it.
    fn default() -> (r: Self)
        ensures
            r.kind == TxKind::Normal,
            r.inputs@.len() == 0,
            r.outputs@.len() == 0,
            r.covenants@.len() == 0,
            r.data@.len() == 0,
            r.fee_ballast == 0,
    {
        PrepareTxArgs {
            kind: TxKind::Normal,
            inputs: Vec::new(),
            outputs: Vec::new(),
            covenants: Vec::new(),
            data: Vec::new(),
            fee_ballast: 0,
        }
    }
}

// ---------------------------------------------------------------------------
// Specification of the preparation algorithm
// ---------------------------------------------------------------------------

/// The coin ids of a list of explicit inputs.
pub open spec fn eids(s: Seq<(CoinID, CoinDataHeight)>) -> Seq<CoinID> {
    s.map_values(|p: (CoinID, CoinDataHeight)| p.0)
}

/// The coin ids of a list of selected coins.
pub open spec fn ids_of(s: Seq<(CoinID, CoinDataHeightV)>) -> Seq<CoinID> {
    s.map_values(|p: (CoinID, CoinDataHeightV)| p.0)
}

/// The mathematical values of a list of outputs.
pub open spec fn oviews(s: Seq<CoinData>) -> Seq<CoinDataV> {
    s.map_values(|o: CoinData| o@)
}

/// Whether a list of coins holds one with the given id.
pub open spec fn seq_has_id(s: Seq<(CoinID, CoinDataHeightV)>, id: CoinID) -> bool {
    exists|m: int| 0 <= m < s.len() && (#[trigger] s[m]).0 == id
}

/// Whether a list of ids names one of them twice.
pub open spec fn has_dup(ids: Seq<CoinID>) -> bool {
    exists|i: int, j: int| 0 <= i < j < ids.len() && ids[i] == ids[j]
}

/// Per-denomination total of a list of outputs.
pub open spec fn outputs_total(s: Seq<CoinDataV>, d: Denom) -> int
    decreases s.len(),
{
    if s.len() == 0 {
        0
    } else {
        outputs_total(s.drop_last(), d) + if s.last().denom == d {
            s.last().value as int
        } else {
            0
        }
    }
}

/// The tally of the requested outputs, the minting pseudo-denomination left
/// out, denominations in first-appearance order.
pub open spec fn touts_seq(s: Seq<CoinDataV>) -> Seq<(Denom, u128)>
    decreases s.len(),
{
    if s.len() == 0 {
        Seq::empty()
    } else if s.last().denom == Denom::NewCustom {
        touts_seq(s.drop_last())
    } else {
        tadd_seq(touts_seq(s.drop_last()), s.last().denom, s.last().value)
    }
}

/// Greedy selection: walk the spendable coins in order and take each coin
/// whose id is not excluded and whose denomination is not yet covered,
/// accumulating per-denomination totals. Returns the coins taken and the
/// final totals.
pub open spec fn greedy(
    coins: Seq<(CoinID, CoinDataHeightV)>,
    excl: Seq<CoinID>,
    needed: Seq<(Denom, u128)>,
    actual: Seq<(Denom, u128)>,
) -> (Seq<(CoinID, CoinDataHeightV)>, Seq<(Denom, u128)>)
    decreases coins.len(),
{
    if coins.len() == 0 {
        (Seq::empty(), actual)
    } else {
        let c = coins[0];
        let d = c.1.coin_data.denom;
        if !excl.contains(c.0) && tget(actual, d) < tget(needed, d) {
            let rest = greedy(
                coins.drop_first(),
                excl,
                needed,
                tadd_seq(actual, d, c.1.coin_data.value),
            );
            (seq![c] + rest.0, rest.1)
        } else {
            greedy(coins.drop_first(), excl, needed, actual)
        }
    }
}

/// The change outputs owed for one tally of covered amounts: one output back
/// to the wallet's address per entry whose amount strictly exceeds the need.
pub open spec fn change_seq(
    entries: Seq<(Denom, u128)>,
    needed: Seq<(Denom, u128)>,
    addr: Address,
) -> Seq<CoinDataV>
    decreases entries.len(),
{
    if entries.len() == 0 {
        Seq::empty()
    } else {
        let d = entries[0].0;
        let a = entries[0].1;
        let n = tget(needed, d);
        (if a >= n && a - n > 0 {
            seq![
                CoinDataV {
                    covhash: addr,
                    value: (a - n) as u128,
                    denom: d,
                    additional_data: Seq::empty(),
                },
            ]
        } else {
            Seq::empty()
        }) + change_seq(entries.drop_first(), needed, addr)
    }
}

/// A run of zero bytes.
pub open spec fn zero_seq(n: nat) -> Seq<u8> {
    Seq::new(n, |i: int| 0u8)
}

/// The placeholder signatures that size the fee estimate.
pub open spec fn placeholder_sigs(n: nat, ssz: nat) -> Seq<Seq<u8>> {
    Seq::new(n, |i: int| zero_seq(ssz))
}

/// The machine limit the preparer needs per denomination: all sums it forms
/// stay under this budget.
pub open spec fn prep_budget(w: Wallet, args: PrepareTxArgs, d: Denom) -> int {
    coins_total(uviews(w.confirmed_utxos@), d) + coins_total(uviews(args.inputs@), d)
        + outputs_total(oviews(args.outputs@), d)
}

/// The fee asset held by the wallet's confirmed coins and the explicit
/// inputs: an upper bound on what any selection can cover.
pub open spec fn upper_mel_of(w: Wallet, args: PrepareTxArgs) -> int {
    coins_total(uviews(args.inputs@), Denom::Mel) + coins_total(
        uviews(w.confirmed_utxos@),
        Denom::Mel,
    )
}

/// What the request needs at one candidate fee: the requested outputs plus
/// the fee in the fee asset.
pub open spec fn nseq_at(args: PrepareTxArgs, fee: u128) -> Seq<(Denom, u128)> {
    tadd_seq(touts_seq(oviews(args.outputs@)), Denom::Mel, fee)
}

/// The greedy selection and the covered totals at one candidate fee.
pub open spec fn sel_at(w: Wallet, args: PrepareTxArgs, fee: u128) -> (
    Seq<(CoinID, CoinDataHeightV)>,
    Seq<(Denom, u128)>,
) {
    greedy(
        spendable_of(uviews(w.confirmed_utxos@), w.pending_outgoing@),
        eids(args.inputs@),
        nseq_at(args, fee),
        tcoins_seq(uviews(args.inputs@)),
    )
}

/// The draft assembled at one candidate fee: explicit inputs then the greedy
/// selection; requested outputs then the owed change; the signer's covenant
/// and a placeholder signature per input.
pub open spec fn draft_at(w: Wallet, args: PrepareTxArgs, cov: Seq<u8>, ssz: usize, fee: u128) -> TxView {
    let g = sel_at(w, args, fee);
    let inputs = eids(args.inputs@) + ids_of(g.0);
    TxView {
        kind: args.kind,
        inputs: inputs,
        outputs: oviews(args.outputs@) + change_seq(g.1, nseq_at(args, fee), w.address),
        fee: fee,
        covenants: Seq::new(inputs.len(), |i: int| cov),
        data: args.data@,
        sigs: placeholder_sigs(inputs.len(), ssz as nat),
    }
}

/// One step of the fee-escalation ladder: about a tenth more, at least one
/// more, capped at the largest representable fee.
pub open spec fn ladder_next(f: u128) -> u128 {
    if f < 10 {
        (f + 1) as u128
    } else if f > u128::MAX - f / 10 {
        u128::MAX
    } else {
        (f + f / 10) as u128
    }
}

/// The ladder's `k`-th rung, starting from 1.
pub open spec fn rung(k: nat) -> u128
    decreases k,
{
    if k == 0 {
        1
    } else {
        ladder_next(rung((k - 1) as nat))
    }
}

/// Whether the covenant weights of `n` copies of one covenant can be summed.
pub open spec fn cov_weight_ok(cov: Seq<u8>, n: int) -> bool {
    n * covenant_weight_of(cov) <= u128::MAX
}

/// Whether a rung passes every check but the external fee requirement: the
/// funds guard, fee-asset coverage, the covenant-weight bound, and, when
/// demanded, exact balance.
pub open spec fn rung_viable(w: Wallet, args: PrepareTxArgs, cov: Seq<u8>, cb: bool, fee: u128) -> bool {
    let g = sel_at(w, args, fee);
    &&& fee <= upper_mel_of(w, args)
    &&& tget(g.1, Denom::Mel) >= fee
    &&& (cb ==> forall|d: Denom| #[trigger] tget(g.1, d) >= tget(nseq_at(args, fee), d))
    &&& cov_weight_ok(cov, eids(args.inputs@).len() + g.0.len() as int)
}

/// Whether the external fee requirement accepts the rung's draft.
pub open spec fn rung_fee_ok(
    w: Wallet,
    args: PrepareTxArgs,
    cov: Seq<u8>,
    ssz: usize,
    fm: u128,
    fee: u128,
) -> bool {
    base_fee_of(draft_at(w, args, cov, ssz, fee), fm, args.fee_ballast as u128) <= fee
}

/// Every rung below `k` was viable but under-estimated the external fee.
pub open spec fn prior_rungs_fee_short(
    w: Wallet,
    args: PrepareTxArgs,
    cov: Seq<u8>,
    ssz: usize,
    fm: u128,
    cb: bool,
    k: nat,
) -> bool {
    forall|k2: nat|
        k2 < k ==> rung_viable(w, args, cov, cb, #[trigger] rung(k2)) && !rung_fee_ok(
            w,
            args,
            cov,
            ssz,
            fm,
            rung(k2),
        )
}

/// What holds of a successfully prepared transaction `tx`: except for its
/// signatures, it is exactly the draft at its own declared fee — inputs,
/// outputs with change, covenants, data and kind all pinned — it spends no
/// coin twice, selects only spendable coins, covers its fee in the fee
/// asset, balances every denomination when that was demanded, carries one
/// signature per input within the signer's size bound, and the external fee
/// requirement of the placeholder-signature draft is within the declared
/// fee.
pub open spec fn prepare_ok(
    w: Wallet,
    args: PrepareTxArgs,
    cov: Seq<u8>,
    ssz: usize,
    fee_multiplier: u128,
    check_balanced: bool,
    tx: TxView,
) -> bool {
    let dr = draft_at(w, args, cov, ssz, tx.fee);
    let g = sel_at(w, args, tx.fee);
    let spend = spendable_of(uviews(w.confirmed_utxos@), w.pending_outgoing@);
    &&& tx.fee >= 1
    &&& tx.kind == dr.kind
    &&& tx.inputs == dr.inputs
    &&& tx.outputs == dr.outputs
    &&& tx.covenants == dr.covenants
    &&& tx.data == dr.data
    &&& tx.sigs.len() == tx.inputs.len()
    &&& forall|j: int| 0 <= j < tx.sigs.len() ==> (#[trigger] tx.sigs[j]).len() <= ssz
    &&& tget(g.1, Denom::Mel) >= tx.fee
    &&& (check_balanced ==> forall|d: Denom|
        #[trigger] tget(g.1, d) >= tget(nseq_at(args, tx.fee), d))
    &&& !has_dup(tx.inputs)
    &&& forall|j: int|
        eids(args.inputs@).len() <= j < tx.inputs.len() ==> seq_has_id(
            spend,
            #[trigger] tx.inputs[j],
        )
    &&& base_fee_of(dr, fee_multiplier, args.fee_ballast as u128) <= tx.fee
}

// ---------------------------------------------------------------------------
// Sum lemmas
// ---------------------------------------------------------------------------

proof fn lemma_outputs_total_nonneg(s: Seq<CoinDataV>, d: Denom)
    ensures
        outputs_total(s, d) >= 0,
    decreases s.len(),
{
    if s.len() > 0 {
        lemma_outputs_total_nonneg(s.drop_last(), d);
    }
}

proof fn lemma_outputs_total_concat(a: Seq<CoinDataV>, b: Seq<CoinDataV>, d: Denom)
    ensures
        outputs_total(a + b, d) == outputs_total(a, d) + outputs_total(b, d),
    decreases b.len(),
{
    if b.len() == 0 {
        assert(a + b =~= a);
    } else {
        assert((a + b).drop_last() =~= a + b.drop_last());
        assert((a + b).last() == b.last());
        lemma_outputs_total_concat(a, b.drop_last(), d);
    }
}

proof fn lemma_outputs_total_take_le(s: Seq<CoinDataV>, i: int, d: Denom)
    requires
        0 <= i <= s.len(),
    ensures
        outputs_total(s.take(i), d) <= outputs_total(s, d),
{
    assert(s =~= s.take(i) + s.skip(i));
    lemma_outputs_total_concat(s.take(i), s.skip(i), d);
    lemma_outputs_total_nonneg(s.skip(i), d);
}

proof fn lemma_coins_total_drop_first(s: Seq<(CoinID, CoinDataHeightV)>, d: Denom)
    requires
        s.len() > 0,
    ensures
        coins_total(s, d) == (if s[0].1.coin_data.denom == d {
            s[0].1.coin_data.value as int
        } else {
            0
        }) + coins_total(s.drop_first(), d),
{
    let single = seq![s[0]];
    assert(s =~= single + s.drop_first());
    lemma_coins_total_concat(single, s.drop_first(), d);
    assert(single.drop_last() =~= Seq::<(CoinID, CoinDataHeightV)>::empty());
    assert(coins_total(Seq::<(CoinID, CoinDataHeightV)>::empty(), d) == 0);
    assert(single.last() == s[0]);
    assert(coins_total(single, d) == if s[0].1.coin_data.denom == d {
        s[0].1.coin_data.value as int
    } else {
        0int
    });
}

/// The spendable subset's total never exceeds the confirmed total.
proof fn lemma_spendable_total_le(
    u: Seq<(CoinID, CoinDataHeightV)>,
    p: Seq<(crate::types::TxHash, Tx)>,
    d: Denom,
)
    ensures
        coins_total(spendable_of(u, p), d) <= coins_total(u, d),
    decreases u.len(),
{
    if u.len() == 0 {
    } else {
        lemma_spendable_total_le(u.drop_first(), p, d);
        lemma_coins_total_drop_first(u, d);
        let rest = spendable_of(u.drop_first(), p);
        if !crate::wallet::pending_spends(p, u[0].0) {
            let single = seq![u[0]];
            assert(spendable_of(u, p) == single + rest);
            lemma_coins_total_concat(single, rest, d);
            assert(single.drop_last() =~= Seq::<(CoinID, CoinDataHeightV)>::empty());
            assert(coins_total(Seq::<(CoinID, CoinDataHeightV)>::empty(), d) == 0);
            assert(single.last() == u[0]);
            assert(coins_total(single, d) == if u[0].1.coin_data.denom == d {
                u[0].1.coin_data.value as int
            } else {
                0int
            });
        } else {
            assert(spendable_of(u, p) =~= Seq::<(CoinID, CoinDataHeightV)>::empty() + rest);
            lemma_coins_total_concat(Seq::empty(), rest, d);
        }
    }
}

proof fn lemma_spendable_len_le(
    u: Seq<(CoinID, CoinDataHeightV)>,
    p: Seq<(crate::types::TxHash, Tx)>,
)
    ensures
        spendable_of(u, p).len() <= u.len(),
    decreases u.len(),
{
    if u.len() > 0 {
        lemma_spendable_len_le(u.drop_first(), p);
    }
}

/// The total covenant weight of `n` copies of one covenant.
proof fn lemma_cov_weight_repeat(c: Seq<u8>, n: nat)
    ensures
        cov_weight_total(Seq::new(n, |i: int| c)) == n * covenant_weight_of(c),
    decreases n,
{
    let s = Seq::new(n, |i: int| c);
    if n == 0 {
        assert(s.len() == 0);
        assert(cov_weight_total(s) == 0);
    } else {
        lemma_cov_weight_repeat(c, (n - 1) as nat);
        assert(s.drop_last() =~= Seq::new((n - 1) as nat, |i: int| c));
        assert(s.last() == c);
        assert(cov_weight_total(s) == cov_weight_total(s.drop_last()) + covenant_weight_of(c));
        let w = covenant_weight_of(c) as int;
        let m = n as int;
        assert((m - 1) * w + w == m * w) by (nonlinear_arith);
    }
}

// ---------------------------------------------------------------------------
// Executable helpers
// ---------------------------------------------------------------------------

fn id_vec(inputs: &Vec<(CoinID, CoinDataHeight)>) -> (r: Vec<CoinID>)
    ensures
        r@ == eids(inputs@),
{
    let mut r: Vec<CoinID> = Vec::new();
    let mut i: usize = 0;
    while i < inputs.len()
        invariant
            i <= inputs@.len(),
            r@ == eids(inputs@.take(i as int)),
        decreases inputs@.len() - i,
    {
        r.push(inputs[i].0);
        i += 1;
        proof {
            assert(r@ =~= eids(inputs@.take(i as int)));
        }
    }
    proof {
        assert(inputs@.take(inputs@.len() as int) =~= inputs@);
    }
    r
}

fn find_dup(ids: &Vec<CoinID>) -> (r: Option<CoinID>)
    ensures
        match r {
            Some(c) => exists|i: int, j: int|
                0 <= i < j < ids@.len() && ids@[i] == ids@[j] && ids@[j] == c,
            None => !has_dup(ids@),
        },
{
    let mut j: usize = 0;
    while j < ids.len()
        invariant
            j <= ids@.len(),
            forall|a: int, b: int| 0 <= a < b < j ==> ids@[a] != ids@[b],
        decreases ids@.len() - j,
    {
        let mut a: usize = 0;
        while a < j
            invariant
                a <= j < ids@.len(),
                forall|x: int| 0 <= x < a ==> ids@[x] != ids@[j as int],
            decreases j - a,
        {
            if ids[a] == ids[j] {
                return Some(ids[j]);
            }
            a += 1;
        }
        j += 1;
    }
    None
}

/// Tallies the requested outputs by denomination, leaving the minting
/// pseudo-denomination out.
fn tally_of_outputs(v: &Vec<CoinData>) -> (r: Vec<(Denom, u128)>)
    requires
        forall|d: Denom| outputs_total(oviews(v@), d) <= u128::MAX,
    ensures
        tkeys_unique(r@),
        forall|d: Denom|
            tget(r@, d) == if d == Denom::NewCustom {
                0
            } else {
                outputs_total(oviews(v@), d)
            },
        forall|d: Denom| tcontains(r@, d) ==> d != Denom::NewCustom,
        r@ == touts_seq(oviews(v@)),
{
    let mut r: Vec<(Denom, u128)> = Vec::new();
    proof {
        assert(oviews(v@).take(0) =~= Seq::<CoinDataV>::empty());
    }
    let mut i: usize = 0;
    while i < v.len()
        invariant
            i <= v@.len(),
            forall|d: Denom| outputs_total(oviews(v@), d) <= u128::MAX,
            tkeys_unique(r@),
            forall|d: Denom|
                tget(r@, d) == if d == Denom::NewCustom {
                    0
                } else {
                    outputs_total(oviews(v@).take(i as int), d)
                },
            forall|d: Denom| tcontains(r@, d) ==> d != Denom::NewCustom,
            r@ == touts_seq(oviews(v@).take(i as int)),
        decreases v@.len() - i,
    {
        let d = v[i].denom;
        let val = v[i].value;
        proof {
            let t1 = oviews(v@).take(i + 1);
            assert(t1.drop_last() =~= oviews(v@).take(i as int));
            assert(t1.last() == oviews(v@)[i as int]);
            lemma_outputs_total_take_le(oviews(v@), i + 1, d);
            lemma_outputs_total_nonneg(oviews(v@).take(i as int), d);
        }
        if !matches!(d, Denom::NewCustom) {
            tally_add(&mut r, d, val);
        }
        proof {
            assert forall|d2: Denom|
                tget(r@, d2) == if d2 == Denom::NewCustom {
                    0u128
                } else {
                    outputs_total(oviews(v@).take(i + 1), d2) as u128
                } by {
                let t1 = oviews(v@).take(i + 1);
                assert(t1.drop_last() =~= oviews(v@).take(i as int));
                assert(t1.last() == oviews(v@)[i as int]);
                lemma_outputs_total_nonneg(oviews(v@).take(i as int), d2);
            }
        }
        i += 1;
    }
    proof {
        assert(oviews(v@).take(v@.len() as int) =~= oviews(v@));
    }
    r
}

fn zero_vec(n: usize) -> (r: Vec<u8>)
    ensures
        r@ == zero_seq(n as nat),
{
    let mut r: Vec<u8> = Vec::new();
    let mut i: usize = 0;
    while i < n
        invariant
            i <= n,
            r@ == zero_seq(i as nat),
        decreases n - i,
    {
        r.push(0);
        i += 1;
        proof {
            assert(r@ =~= zero_seq(i as nat));
        }
    }
    r
}

fn repeat_bytes(b: &Vec<u8>, n: usize) -> (r: Vec<Vec<u8>>)
    ensures
        r@.len() == n,
        forall|j: int| 0 <= j < n ==> (#[trigger] r@[j])@ == b@,
{
    let mut r: Vec<Vec<u8>> = Vec::new();
    let mut i: usize = 0;
    while i < n
        invariant
            i <= n,
            r@.len() == i,
            forall|j: int| 0 <= j < i ==> (#[trigger] r@[j])@ == b@,
        decreases n - i,
    {
        r.push(copy_bytes(b));
        i += 1;
    }
    r
}

/// Runs the greedy selection over the spendable coins: the executable
/// counterpart of [`greedy`], starting from the explicit inputs' totals.
fn select_coins(
    spend: &Vec<(CoinID, CoinDataHeight)>,
    exids: &Vec<CoinID>,
    needed: &Vec<(Denom, u128)>,
    base: &Vec<(Denom, u128)>,
) -> (r: (Vec<(CoinID, CoinDataHeight)>, Vec<(Denom, u128)>))
    requires
        ukeys_unique(spend@),
        tkeys_unique(needed@),
        tkeys_unique(base@),
        forall|d: Denom| #[trigger] tget(base@, d) + coins_total(uviews(spend@), d) <= u128::MAX,
    ensures
        uviews(r.0@) == greedy(uviews(spend@), exids@, needed@, base@).0,
        r.1@ == greedy(uviews(spend@), exids@, needed@, base@).1,
        tkeys_unique(r.1@),
        ukeys_unique(r.0@),
        r.0@.len() <= spend@.len(),
        forall|j: int| 0 <= j < r.0@.len() ==> !exids@.contains((#[trigger] r.0@[j]).0),
        forall|j: int|
            0 <= j < r.0@.len() ==> exists|m: int|
                0 <= m < spend@.len() && spend@[m].0 == (#[trigger] r.0@[j]).0,
        forall|d: Denom|
            #[trigger] tget(r.1@, d) <= tget(base@, d) + coins_total(uviews(spend@), d),
{
    let ghost spendv = uviews(spend@);
    let ghost g0 = greedy(spendv, exids@, needed@, base@);
    let mut sel: Vec<(CoinID, CoinDataHeight)> = Vec::new();
    let mut actual: Vec<(Denom, u128)> = Vec::new();
    let mut ci: usize = 0;
    while ci < base.len()
        invariant
            ci <= base@.len(),
            actual@ == base@.take(ci as int),
        decreases base@.len() - ci,
    {
        actual.push(base[ci]);
        ci += 1;
        proof {
            assert(actual@ =~= base@.take(ci as int));
        }
    }
    proof {
        assert(base@.take(base@.len() as int) =~= base@);
        assert(spendv.take(0) =~= Seq::<(CoinID, CoinDataHeightV)>::empty());
        assert(uviews(sel@) =~= Seq::<(CoinID, CoinDataHeightV)>::empty());
        assert(uviews(sel@) + greedy(spendv.skip(0), exids@, needed@, actual@).0 =~= greedy(
            spendv.skip(0),
            exids@,
            needed@,
            actual@,
        ).0);
        assert(spendv.skip(0) =~= spendv);
    }
    let mut k: usize = 0;
    while k < spend.len()
        invariant
            k <= spend@.len(),
            ukeys_unique(spend@),
            spendv == uviews(spend@),
            spendv.len() == spend@.len(),
            tkeys_unique(needed@),
            g0 == greedy(spendv, exids@, needed@, base@),
            forall|d: Denom| #[trigger] tget(base@, d) + coins_total(spendv, d) <= u128::MAX,
            tkeys_unique(actual@),
            sel@.len() <= k,
            ukeys_unique(sel@),
            forall|j: int| 0 <= j < sel@.len() ==> !exids@.contains((#[trigger] sel@[j]).0),
            forall|j: int|
                0 <= j < sel@.len() ==> exists|m: int|
                    0 <= m < k && spend@[m].0 == (#[trigger] sel@[j]).0,
            forall|d: Denom|
                #[trigger] tget(actual@, d) <= tget(base@, d) + coins_total(
                    spendv.take(k as int),
                    d,
                ),
            g0.0 == uviews(sel@) + greedy(spendv.skip(k as int), exids@, needed@, actual@).0,
            g0.1 == greedy(spendv.skip(k as int), exids@, needed@, actual@).1,
        decreases spend@.len() - k,
    {
        let id = spend[k].0;
        let d = spend[k].1.coin_data.denom;
        let v = spend[k].1.coin_data.value;
        let ghost apre = actual@;
        let ghost selpre = sel@;
        let ghost tail = spendv.skip(k as int);
        proof {
            assert(tail[0] == spendv[k as int]);
            assert(tail.drop_first() =~= spendv.skip(k as int + 1));
            assert(spendv[k as int] == (spend@[k as int].0, spend@[k as int].1@));
            assert(spendv.take(k + 1).drop_last() =~= spendv.take(k as int));
            assert(spendv.take(k + 1).last() == spendv[k as int]);
            lemma_coins_total_take_le(spendv, k + 1, d);
            lemma_coins_total_nonneg(spendv.take(k as int), d);
        }
        let cur = tally_get(&actual, d);
        let nd = tally_get(&needed, d);
        let in_ex = coinid_in(&exids, id);
        if !in_ex && cur < nd {
            proof {
                assert(coins_total(spendv.take(k + 1), d) == coins_total(spendv.take(k as int), d)
                    + v);
                assert(cur + v <= u128::MAX);
            }
            sel.push((id, clone_cdh(&spend[k].1)));
            tally_add(&mut actual, d, v);
            proof {
                assert(actual@ == tadd_seq(apre, d, v));
                assert(!exids@.contains(id) && tget(apre, d) < tget(needed@, d));
                let rest = greedy(tail.drop_first(), exids@, needed@, actual@);
                assert(greedy(tail, exids@, needed@, apre).0 == seq![tail[0]] + rest.0);
                assert(greedy(tail, exids@, needed@, apre).1 == rest.1);
                assert(uviews(sel@) =~= uviews(selpre).push(tail[0]));
                assert(uviews(selpre) + (seq![tail[0]] + rest.0) =~= uviews(sel@) + rest.0);
                assert forall|j1: int, j2: int| 0 <= j1 < j2 < sel@.len()
                    implies (#[trigger] sel@[j1]).0 != (#[trigger] sel@[j2]).0 by {
                    if j2 == sel@.len() - 1 {
                        let m = choose|m: int|
                            0 <= m < k && spend@[m].0 == (#[trigger] selpre[j1]).0;
                        assert(spend@[m].0 != spend@[k as int].0);
                    }
                }
                assert forall|j: int| 0 <= j < sel@.len()
                    implies exists|m: int|
                        0 <= m < k + 1 && spend@[m].0 == (#[trigger] sel@[j]).0 by {
                    if j < sel@.len() - 1 {
                        let m = choose|m: int|
                            0 <= m < k && spend@[m].0 == (#[trigger] selpre[j]).0;
                        assert(spend@[m].0 == sel@[j].0);
                    } else {
                        assert(spend@[k as int].0 == sel@[j].0);
                    }
                }
                assert forall|d2: Denom|
                    #[trigger] tget(actual@, d2) <= tget(base@, d2) + coins_total(
                        spendv.take(k + 1),
                        d2,
                    ) by {
                    assert(spendv.take(k + 1).drop_last() =~= spendv.take(k as int));
                    lemma_coins_total_nonneg(spendv.take(k as int), d2);
                }
            }
        } else {
            proof {
                assert(in_ex == exids@.contains(id));
                assert(greedy(tail, exids@, needed@, actual@) == greedy(
                    tail.drop_first(),
                    exids@,
                    needed@,
                    actual@,
                ));
                assert forall|d2: Denom|
                    #[trigger] tget(actual@, d2) <= tget(base@, d2) + coins_total(
                        spendv.take(k + 1),
                        d2,
                    ) by {
                    assert(spendv.take(k + 1).drop_last() =~= spendv.take(k as int));
                    lemma_coins_total_nonneg(spendv.take(k as int), d2);
                }
            }
        }
        k += 1;
    }
    proof {
        assert(spendv.skip(spend@.len() as int) =~= Seq::<(CoinID, CoinDataHeightV)>::empty());
        assert(uviews(sel@) + Seq::<(CoinID, CoinDataHeightV)>::empty() =~= uviews(sel@));
        assert(g0.0 == uviews(sel@));
        assert(g0.1 == actual@);
        assert(spendv.take(spend@.len() as int) =~= spendv);
    }
    (sel, actual)
}

/// Appends the owed change outputs — exactly [`change_seq`] — or, when exact
/// balance is demanded, reports a denomination that falls short.
#[verifier::rlimit(100)]
fn change_outputs(
    actual: &Vec<(Denom, u128)>,
    needed: &Vec<(Denom, u128)>,
    base_outputs: &Vec<CoinData>,
    addr: Address,
    check_balanced: bool,
) -> (r: Result<Vec<CoinData>, Denom>)
    requires
        tkeys_unique(actual@),
        tkeys_unique(needed@),
    ensures
        r is Ok ==> oviews(r->Ok_0@) == oviews(base_outputs@) + change_seq(
            actual@,
            needed@,
            addr,
        ),
        r is Ok && check_balanced ==> forall|d: Denom|
            #[trigger] tget(actual@, d) >= tget(needed@, d),
        r is Err ==> check_balanced && tget(actual@, r->Err_0) < tget(needed@, r->Err_0),
{
    let mut outputs: Vec<CoinData> = copy_coindatas(base_outputs);
    proof {
        assert(oviews(outputs@) =~= oviews(base_outputs@));
        assert(actual@.skip(0) =~= actual@);
    }
    let mut j: usize = 0;
    while j < actual.len()
        invariant
            j <= actual@.len(),
            tkeys_unique(actual@),
            tkeys_unique(needed@),
            oviews(outputs@) + change_seq(actual@.skip(j as int), needed@, addr) == oviews(
                base_outputs@,
            ) + change_seq(actual@, needed@, addr),
            check_balanced ==> forall|m: int|
                0 <= m < j ==> (#[trigger] actual@[m]).1 >= tget(needed@, actual@[m].0),
        decreases actual@.len() - j,
    {
        let d = actual[j].0;
        let a = actual[j].1;
        let n = tally_get(&needed, d);
        let ghost tail = actual@.skip(j as int);
        let ghost opre = outputs@;
        proof {
            assert(tail[0] == actual@[j as int]);
            assert(tail.drop_first() =~= actual@.skip(j + 1));
        }
        if a >= n {
            if a - n > 0 {
                outputs.push(
                    CoinData { covhash: addr, denom: d, value: a - n, additional_data: Vec::new() },
                );
                proof {
                    assert(oviews(outputs@) =~= oviews(opre).push(
                        CoinDataV {
                            covhash: addr,
                            value: (a - n) as u128,
                            denom: d,
                            additional_data: Seq::empty(),
                        },
                    ));
                    assert(change_seq(tail, needed@, addr) == seq![
                        CoinDataV {
                            covhash: addr,
                            value: (a - n) as u128,
                            denom: d,
                            additional_data: Seq::empty(),
                        },
                    ] + change_seq(actual@.skip(j + 1), needed@, addr));
                    assert(oviews(outputs@) + change_seq(actual@.skip(j + 1), needed@, addr)
                        =~= oviews(opre) + change_seq(tail, needed@, addr));
                }
            } else {
                proof {
                    assert(change_seq(tail, needed@, addr) =~= Seq::<CoinDataV>::empty()
                        + change_seq(actual@.skip(j + 1), needed@, addr));
                    assert(Seq::<CoinDataV>::empty() + change_seq(actual@.skip(j + 1), needed@, addr)
                        =~= change_seq(actual@.skip(j + 1), needed@, addr));
                }
            }
        } else {
            if check_balanced {
                proof {
                    lemma_tget_entry(actual@, j as int);
                }
                return Err(d);
            }
            proof {
                assert(change_seq(tail, needed@, addr) =~= Seq::<CoinDataV>::empty() + change_seq(
                    actual@.skip(j + 1),
                    needed@,
                    addr,
                ));
                assert(Seq::<CoinDataV>::empty() + change_seq(actual@.skip(j + 1), needed@, addr)
                    =~= change_seq(actual@.skip(j + 1), needed@, addr));
            }
        }
        j += 1;
    }
    proof {
        assert(actual@.skip(actual@.len() as int) =~= Seq::<(Denom, u128)>::empty());
        assert(oviews(outputs@) + Seq::<CoinDataV>::empty() =~= oviews(outputs@));
    }
    if check_balanced {
        let mut m2: usize = 0;
        while m2 < needed.len()
            invariant
                m2 <= needed@.len(),
                tkeys_unique(actual@),
                tkeys_unique(needed@),
                check_balanced,
                forall|m: int|
                    0 <= m < actual@.len() ==> (#[trigger] actual@[m]).1 >= tget(
                        needed@,
                        actual@[m].0,
                    ),
                forall|x: int|
                    0 <= x < m2 ==> ((#[trigger] needed@[x]).1 == 0 || tcontains(
                        actual@,
                        needed@[x].0,
                    )),
            decreases needed@.len() - m2,
        {
            let d2 = needed[m2].0;
            let n2 = needed[m2].1;
            if n2 > 0 && !tally_contains(&actual, d2) {
                proof {
                    lemma_tget_absent(actual@, d2);
                    lemma_tget_entry(needed@, m2 as int);
                }
                return Err(d2);
            }
            m2 += 1;
        }
        proof {
            assert forall|d: Denom| true implies #[trigger] tget(actual@, d) >= tget(
                needed@,
                d,
            ) by {
                if tget(actual@, d) < tget(needed@, d) {
                    if tcontains(actual@, d) {
                        let m = choose|m: int|
                            0 <= m < actual@.len() && (#[trigger] actual@[m]).0 == d;
                        lemma_tget_entry(actual@, m);
                    } else {
                        lemma_tget_absent(actual@, d);
                        assert(tget(needed@, d) > 0);
                        assert(tcontains(needed@, d)) by {
                            if !tcontains(needed@, d) {
                                lemma_tget_absent(needed@, d);
                            }
                        }
                        let x = choose|x: int|
                            0 <= x < needed@.len() && (#[trigger] needed@[x]).0 == d;
                        lemma_tget_entry(needed@, x);
                        assert(needed@[x].1 == 0 || tcontains(actual@, d));
                    }
                }
            }
        }
    }
    Ok(outputs)
}

/// Signs every input slot in turn, handing the transaction-so-far to the
/// signer each time, starting from cleared signatures.
fn sign_all<S: Signer>(signer: &S, tx: Tx, n: usize) -> (r: Result<Tx, S::Error>)
    requires
        tx@.sigs.len() == 0,
    ensures
        r is Ok ==> crate::types::same_except_sigs(r->Ok_0@, tx@),
        r is Ok ==> r->Ok_0@.sigs.len() == n,
        r is Ok ==> forall|j: int|
            0 <= j < n ==> (#[trigger] r->Ok_0@.sigs[j]).len() <= signer.spec_sig_size(),
{
    let ghost dv = tx@;
    let mut stx = tx;
    let mut idx: usize = 0;
    while idx < n
        invariant
            idx <= n,
            crate::types::same_except_sigs(stx@, dv),
            stx@.sigs.len() == idx,
            forall|j: int|
                0 <= j < idx ==> (#[trigger] stx@.sigs[j]).len() <= signer.spec_sig_size(),
        decreases n - idx,
    {
        match signer.sign(&stx, idx) {
            Ok(t2) => {
                stx = t2;
            },
            Err(e) => {
                return Err(e);
            },
        }
        idx += 1;
    }
    Ok(stx)
}

impl Wallet {
    /// Prepares a fully signed transaction meeting the request: selects
    /// inputs greedily from the spendable coins in ascending coin-id order,
    /// computes change back to the wallet's own address, escalates the
    /// candidate fee geometrically until the externally computed requirement
    /// is covered, and signs every input.
    ///
    /// An explicitly supplied input that duplicates another input of the
    /// request is rejected with [`PrepareTxError::BadExternalInput`]: no
    /// produced transaction ever spends one coin twice.
    pub fn prepare_tx<S: Signer>(
        &self,
        args: PrepareTxArgs,
        signer: &S,
        fee_multiplier: u128,
        check_balanced: bool,
    ) -> (r: Result<Tx, PrepareTxError<S::Error>>)
        requires
            self.wf(),
            forall|d: Denom| prep_budget(*self, args, d) <= u128::MAX,
            args.inputs@.len() + self.confirmed_utxos@.len() <= usize::MAX,
        ensures
            has_dup(eids(args.inputs@)) <==> (r is Err && r->Err_0 is BadExternalInput),
            r is Err && r->Err_0 is BadExternalInput ==> exists|i: int, j: int|
                0 <= i < j < eids(args.inputs@).len() && eids(args.inputs@)[i] == eids(
                    args.inputs@,
                )[j] && eids(args.inputs@)[j] == r->Err_0->BadExternalInput_0,
            r is Err && r->Err_0 is InsufficientFunds && r->Err_0->InsufficientFunds_0
                != Denom::Mel ==> check_balanced,
            !has_dup(eids(args.inputs@)) && coins_total(self.spendable(), Denom::Mel)
                + coins_total(uviews(args.inputs@), Denom::Mel) == 0 ==> r == Err::<
                Tx,
                PrepareTxError<S::Error>,
            >(PrepareTxError::InsufficientFunds(Denom::Mel)),
            // the declared fee is the first sufficient ladder rung: every
            // rung below was viable but under-estimated by the external fee
            r is Ok ==> exists|k: nat|
                #[trigger] rung(k) == r->Ok_0@.fee && prior_rungs_fee_short(
                    *self,
                    args,
                    signer.spec_covenant(),
                    signer.spec_sig_size(),
                    fee_multiplier,
                    check_balanced,
                    k,
                ),
            // funds are reported short only when the ladder was walked
            // until a rung stopped being viable
            r is Err && r->Err_0 is InsufficientFunds && !has_dup(eids(args.inputs@))
                ==> exists|k: nat|
                prior_rungs_fee_short(
                    *self,
                    args,
                    signer.spec_covenant(),
                    signer.spec_sig_size(),
                    fee_multiplier,
                    check_balanced,
                    k,
                ) && !rung_viable(
                    *self,
                    args,
                    signer.spec_covenant(),
                    check_balanced,
                    #[trigger] rung(k),
                ),
            // a non-fee-asset denomination is reported short only on a true
            // shortfall at the rung where balance checking stopped the walk
            r is Err && r->Err_0 is InsufficientFunds && r->Err_0->InsufficientFunds_0
                != Denom::Mel && !has_dup(eids(args.inputs@)) ==> check_balanced && exists|k: nat|
                prior_rungs_fee_short(
                    *self,
                    args,
                    signer.spec_covenant(),
                    signer.spec_sig_size(),
                    fee_multiplier,
                    check_balanced,
                    k,
                ) && tget(sel_at(*self, args, #[trigger] rung(k)).1, r->Err_0->InsufficientFunds_0)
                < tget(nseq_at(args, rung(k)), r->Err_0->InsufficientFunds_0),
            // the signer is blamed only after a rung was viable and its
            // draft's external fee requirement was within the candidate fee
            r is Err && r->Err_0 is SignerRefused ==> exists|k: nat|
                prior_rungs_fee_short(
                    *self,
                    args,
                    signer.spec_covenant(),
                    signer.spec_sig_size(),
                    fee_multiplier,
                    check_balanced,
                    k,
                ) && rung_viable(
                    *self,
                    args,
                    signer.spec_covenant(),
                    check_balanced,
                    #[trigger] rung(k),
                ) && rung_fee_ok(
                    *self,
                    args,
                    signer.spec_covenant(),
                    signer.spec_sig_size(),
                    fee_multiplier,
                    rung(k),
                ),
            // success is owed whenever the first rung already suffices and
            // only the signer may still refuse
            !has_dup(eids(args.inputs@)) && rung_viable(
                *self,
                args,
                signer.spec_covenant(),
                check_balanced,
                1,
            ) && rung_fee_ok(
                *self,
                args,
                signer.spec_covenant(),
                signer.spec_sig_size(),
                fee_multiplier,
                1,
            ) ==> r is Ok || (r is Err && r->Err_0 is SignerRefused),
            r is Ok ==> prepare_ok(
                *self,
                args,
                signer.spec_covenant(),
                signer.spec_sig_size(),
                fee_multiplier,
                check_balanced,
                r->Ok_0@,
            ),
    {
        let exids: Vec<CoinID> = id_vec(&args.inputs);
        if let Some(c) = find_dup(&exids) {
            return Err(PrepareTxError::BadExternalInput(c));
        }
        let spend: Vec<(CoinID, CoinDataHeight)> = self.spendable_utxos();
        let ghost spendv = uviews(spend@);
        proof {
            assert forall|d: Denom| coins_total(uviews(args.inputs@), d) <= u128::MAX
                && coins_total(uviews(self.confirmed_utxos@), d) <= u128::MAX
                && outputs_total(oviews(args.outputs@), d) <= u128::MAX by {
                assert(prep_budget(*self, args, d) <= u128::MAX);
                lemma_coins_total_nonneg(uviews(self.confirmed_utxos@), d);
                lemma_coins_total_nonneg(uviews(args.inputs@), d);
                lemma_outputs_total_nonneg(oviews(args.outputs@), d);
            }
            lemma_spendable_len_le(uviews(self.confirmed_utxos@), self.pending_outgoing@);
        }
        let base_tally: Vec<(Denom, u128)> = tally_of_coins(&args.inputs);
        let conf_tally: Vec<(Denom, u128)> = tally_of_coins(&self.confirmed_utxos);
        let base_mel: u128 = tally_get(&base_tally, Denom::Mel);
        let conf_mel: u128 = tally_get(&conf_tally, Denom::Mel);
        proof {
            assert(prep_budget(*self, args, Denom::Mel) <= u128::MAX);
            lemma_coins_total_nonneg(uviews(args.inputs@), Denom::Mel);
            lemma_coins_total_nonneg(uviews(self.confirmed_utxos@), Denom::Mel);
            lemma_outputs_total_nonneg(oviews(args.outputs@), Denom::Mel);
        }
        let upper_mel: u128 = base_mel + conf_mel;
        let ghost smel = coins_total(self.spendable(), Denom::Mel) + coins_total(
            uviews(args.inputs@),
            Denom::Mel,
        );
        proof {
            lemma_spendable_total_le(
                uviews(self.confirmed_utxos@),
                self.pending_outgoing@,
                Denom::Mel,
            );
            lemma_coins_total_nonneg(self.spendable(), Denom::Mel);
        }
        let mut fee: u128 = 1;
        let ghost mut kk: nat = 0;
        loop
            invariant
                1 <= fee,
                fee == rung(kk),
                prior_rungs_fee_short(
                    *self,
                    args,
                    signer.spec_covenant(),
                    signer.spec_sig_size(),
                    fee_multiplier,
                    check_balanced,
                    kk,
                ),
                self.wf(),
                forall|d: Denom| prep_budget(*self, args, d) <= u128::MAX,
                forall|d: Denom| #[trigger] coins_total(uviews(args.inputs@), d) <= u128::MAX,
                forall|d: Denom|
                    #[trigger] coins_total(uviews(self.confirmed_utxos@), d) <= u128::MAX,
                forall|d: Denom| #[trigger] outputs_total(oviews(args.outputs@), d) <= u128::MAX,
                args.inputs@.len() + self.confirmed_utxos@.len() <= usize::MAX,
                exids@ == eids(args.inputs@),
                exids@.len() == args.inputs@.len(),
                !has_dup(exids@),
                spendv == uviews(spend@),
                spendv == self.spendable(),
                spendv.len() == spend@.len(),
                ukeys_unique(spend@),
                spend@.len() <= self.confirmed_utxos@.len(),
                tkeys_unique(base_tally@),
                forall|d: Denom| #[trigger] tget(base_tally@, d) == coins_total(
                    uviews(args.inputs@),
                    d,
                ),
                base_tally@ == tcoins_seq(uviews(args.inputs@)),
                upper_mel == upper_mel_of(*self, args),
                smel == coins_total(self.spendable(), Denom::Mel) + coins_total(
                    uviews(args.inputs@),
                    Denom::Mel,
                ),
                0 <= smel <= upper_mel,
            decreases u128::MAX - fee,
        {
            if fee > upper_mel {
                proof {
                    assert(!rung_viable(*self, args, signer.spec_covenant(), check_balanced, fee));
                    assert(rung(kk) == fee);
                    assert(rung(0nat) == 1);
                    if kk > 0 {
                        assert(!rung_fee_ok(
                            *self,
                            args,
                            signer.spec_covenant(),
                            signer.spec_sig_size(),
                            fee_multiplier,
                            rung(0nat),
                        ));
                    }
                }
                return Err(PrepareTxError::InsufficientFunds(Denom::Mel));
            }
            let mut needed: Vec<(Denom, u128)> = tally_of_outputs(&args.outputs);
            proof {
                assert(prep_budget(*self, args, Denom::Mel) <= u128::MAX);
                lemma_coins_total_nonneg(uviews(args.inputs@), Denom::Mel);
                lemma_coins_total_nonneg(uviews(self.confirmed_utxos@), Denom::Mel);
                lemma_outputs_total_nonneg(oviews(args.outputs@), Denom::Mel);
                assert(tget(needed@, Denom::Mel) + fee <= u128::MAX);
            }
            tally_add(&mut needed, Denom::Mel, fee);
            proof {
                assert(needed@ == nseq_at(args, fee));
                assert forall|d: Denom|
                    #[trigger] tget(base_tally@, d) + coins_total(uviews(spend@), d)
                        <= u128::MAX by {
                    assert(prep_budget(*self, args, d) <= u128::MAX);
                    lemma_spendable_total_le(
                        uviews(self.confirmed_utxos@),
                        self.pending_outgoing@,
                        d,
                    );
                    lemma_outputs_total_nonneg(oviews(args.outputs@), d);
                    lemma_coins_total_nonneg(self.spendable(), d);
                }
            }
            let (sel, actual) = select_coins(&spend, &exids, &needed, &base_tally);
            let ghost g0 = sel_at(*self, args, fee);
            proof {
                assert(uviews(sel@) == g0.0);
                assert(actual@ == g0.1);
            }
            let mel_have = tally_get(&actual, Denom::Mel);
            if mel_have < fee {
                proof {
                    assert(!rung_viable(*self, args, signer.spec_covenant(), check_balanced, fee));
                    assert(rung(kk) == fee);
                    assert(rung(0nat) == 1);
                    if kk > 0 {
                        assert(!rung_fee_ok(
                            *self,
                            args,
                            signer.spec_covenant(),
                            signer.spec_sig_size(),
                            fee_multiplier,
                            rung(0nat),
                        ));
                    }
                }
                return Err(PrepareTxError::InsufficientFunds(Denom::Mel));
            }
            proof {
                assert(tget(actual@, Denom::Mel) <= tget(base_tally@, Denom::Mel) + coins_total(
                    uviews(spend@),
                    Denom::Mel,
                ));
                assert(smel >= mel_have >= 1);
            }
            let outputs = match change_outputs(
                &actual,
                &needed,
                &args.outputs,
                self.address,
                check_balanced,
            ) {
                Ok(o) => o,
                Err(d) => {
                    proof {
                        assert(!rung_viable(
                            *self,
                            args,
                            signer.spec_covenant(),
                            check_balanced,
                            fee,
                        ));
                        assert(rung(0nat) == 1);
                        if kk > 0 {
                            assert(!rung_fee_ok(
                                *self,
                                args,
                                signer.spec_covenant(),
                                signer.spec_sig_size(),
                                fee_multiplier,
                                rung(0nat),
                            ));
                        }
                        assert(rung(kk) == fee);
                        assert(tget(sel_at(*self, args, rung(kk)).1, d) < tget(
                            nseq_at(args, rung(kk)),
                            d,
                        ));
                    }
                    return Err(PrepareTxError::InsufficientFunds(d));
                },
            };
            let n_inputs = exids.len() + sel.len();
            let mut inputs: Vec<CoinID> = copy_coinids(&exids);
            let mut si: usize = 0;
            while si < sel.len()
                invariant
                    si <= sel@.len(),
                    inputs@ == exids@ + ids_of(uviews(sel@.take(si as int))),
                decreases sel@.len() - si,
            {
                inputs.push(sel[si].0);
                si += 1;
                proof {
                    assert(inputs@ =~= exids@ + ids_of(uviews(sel@.take(si as int))));
                }
            }
            proof {
                assert(sel@.take(sel@.len() as int) =~= sel@);
                assert(inputs@ == exids@ + ids_of(uviews(sel@)));
                assert(inputs@.len() == n_inputs);
            }
            let cov = signer.covenant();
            let ssz = signer.sig_size();
            // the covenant weights must be summable before the external fee
            // function may see the draft
            let wcov = covenant_weight(&cov);
            let mut wtot: u128 = 0;
            let mut wi: usize = 0;
            while wi < n_inputs
                invariant
                    wi <= n_inputs,
                    wcov == covenant_weight_of(cov@),
                    cov@ == signer.spec_covenant(),
                    wtot == wi * covenant_weight_of(cov@),
                    n_inputs == exids@.len() + sel@.len(),
                    uviews(sel@) == sel_at(*self, args, fee).0,
                    exids@ == eids(args.inputs@),
                    fee == rung(kk),
                    prior_rungs_fee_short(
                        *self,
                        args,
                        signer.spec_covenant(),
                        signer.spec_sig_size(),
                        fee_multiplier,
                        check_balanced,
                        kk,
                    ),
                    !has_dup(exids@),
                    smel >= 1,
                    smel == coins_total(self.spendable(), Denom::Mel) + coins_total(
                        uviews(args.inputs@),
                        Denom::Mel,
                    ),
                decreases n_inputs - wi,
            {
                if wcov > u128::MAX - wtot {
                    proof {
                        let w = covenant_weight_of(cov@) as int;
                        let n = n_inputs as int;
                        let i0 = wi as int;
                        assert(wtot as int == i0 * w);
                        assert(wtot as int + w > u128::MAX as int);
                        assert(n * w >= i0 * w + w) by (nonlinear_arith)
                            requires
                                i0 < n,
                                w >= 0,
                        ;
                        assert(n * w > u128::MAX as int);
                        assert(!cov_weight_ok(cov@, n));
                        assert(uviews(sel@).len() == sel@.len());
                        assert(!rung_viable(
                            *self,
                            args,
                            signer.spec_covenant(),
                            check_balanced,
                            fee,
                        ));
                        assert(rung(0nat) == 1);
                        if kk > 0 {
                            assert(!rung_fee_ok(
                                *self,
                                args,
                                signer.spec_covenant(),
                                signer.spec_sig_size(),
                                fee_multiplier,
                                rung(0nat),
                            ));
                        }
                    }
                    return Err(PrepareTxError::InsufficientFunds(Denom::Mel));
                }
                wtot = wtot + wcov;
                wi += 1;
                proof {
                    let w = covenant_weight_of(cov@) as int;
                    let i0 = wi as int;
                    assert(i0 * w == (i0 - 1) * w + w) by (nonlinear_arith);
                }
            }
            let covenants = repeat_bytes(&cov, n_inputs);
            let z = zero_vec(ssz);
            let sigs = repeat_bytes(&z, n_inputs);
            let draft = Tx {
                kind: args.kind,
                inputs,
                outputs,
                fee,
                covenants,
                data: copy_bytes(&args.data),
                sigs,
            };
            proof {
                assert(draft@.covenants =~= Seq::new(n_inputs as nat, |i: int| cov@));
                assert(draft@.sigs =~= placeholder_sigs(n_inputs as nat, ssz as nat));
                assert(draft@.inputs == eids(args.inputs@) + ids_of(sel_at(*self, args, fee).0));
                assert(draft@.outputs =~= oviews(args.outputs@) + change_seq(
                    sel_at(*self, args, fee).1,
                    nseq_at(args, fee),
                    self.address,
                ));
                assert(draft@ =~= draft_at(
                    *self,
                    args,
                    signer.spec_covenant(),
                    signer.spec_sig_size(),
                    fee,
                ));
                lemma_cov_weight_repeat(cov@, n_inputs as nat);
            }
            let required = tx_base_fee(&draft, fee_multiplier, args.fee_ballast as u128);
            if required <= fee {
                let ghost dv = draft@;
                let mut unsigned = draft;
                unsigned.sigs = Vec::new();
                proof {
                    assert(unsigned@.sigs.len() == 0);
                }
                match sign_all(signer, unsigned, n_inputs) {
                    Ok(stx) => {
                        proof {
                            let txv = stx@;
                            assert(txv.fee == fee);
                            assert forall|i1: int, i2: int| 0 <= i1 < i2 < txv.inputs.len()
                                implies txv.inputs[i1] != txv.inputs[i2] by {
                                let exl = exids@.len() as int;
                                if i2 < exl {
                                    assert(!has_dup(exids@));
                                } else if i1 >= exl {
                                    assert(txv.inputs[i1] == ids_of(uviews(sel@))[i1 - exl]);
                                    assert(txv.inputs[i2] == ids_of(uviews(sel@))[i2 - exl]);
                                    assert(uviews(sel@)[i1 - exl].0 != uviews(sel@)[i2 - exl].0);
                                } else {
                                    assert(txv.inputs[i2] == ids_of(uviews(sel@))[i2 - exl]);
                                    assert(ids_of(uviews(sel@))[i2 - exl] == sel@[i2 - exl].0);
                                    assert(!exids@.contains(sel@[i2 - exl].0));
                                    assert(txv.inputs[i1] == exids@[i1]);
                                }
                            }
                            assert forall|jj: int|
                                eids(args.inputs@).len() <= jj < txv.inputs.len()
                                implies seq_has_id(spendv, #[trigger] txv.inputs[jj]) by {
                                let exl = exids@.len() as int;
                                assert(txv.inputs[jj] == ids_of(uviews(sel@))[jj - exl]);
                                assert(ids_of(uviews(sel@))[jj - exl] == sel@[jj - exl].0);
                                let m = choose|m: int|
                                    0 <= m < spend@.len() && spend@[m].0 == (#[trigger] sel@[jj
                                    - exl]).0;
                                assert(spendv[m].0 == txv.inputs[jj]);
                            }
                            assert(prepare_ok(
                                *self,
                                args,
                                signer.spec_covenant(),
                                signer.spec_sig_size(),
                                fee_multiplier,
                                check_balanced,
                                txv,
                            ));
                            assert(rung(kk) == txv.fee);
                        }
                        return Ok(stx);
                    },
                    Err(e) => {
                        proof {
                            assert(rung(kk) == fee);
                            assert(rung_viable(
                                *self,
                                args,
                                signer.spec_covenant(),
                                check_balanced,
                                fee,
                            ));
                            assert(rung_fee_ok(
                                *self,
                                args,
                                signer.spec_covenant(),
                                signer.spec_sig_size(),
                                fee_multiplier,
                                fee,
                            ));
                        }
                        return Err(PrepareTxError::SignerRefused(e));
                    },
                }
            }
            proof {
                assert(fee < u128::MAX);
                assert(rung_viable(*self, args, signer.spec_covenant(), check_balanced, fee));
                assert(!rung_fee_ok(
                    *self,
                    args,
                    signer.spec_covenant(),
                    signer.spec_sig_size(),
                    fee_multiplier,
                    fee,
                ));
                assert forall|k2: nat| k2 < kk + 1
                    implies rung_viable(
                        *self,
                        args,
                        signer.spec_covenant(),
                        check_balanced,
                        #[trigger] rung(k2),
                    ) && !rung_fee_ok(
                        *self,
                        args,
                        signer.spec_covenant(),
                        signer.spec_sig_size(),
                        fee_multiplier,
                        rung(k2),
                    ) by {
                    if k2 < kk {
                    } else {
                        assert(rung(k2) == fee);
                    }
                }
                kk = kk + 1;
            }
            let step: u128 = if fee >= 10 {
                fee / 10
            } else {
                1
            };
            if fee > u128::MAX - step {
                fee = u128::MAX;
            } else {
                fee = fee + step;
            }
            proof {
                assert(fee == ladder_next(rung((kk - 1) as nat)));
                assert(fee == rung(kk));
            }
        }
    }
}

} // verus!
