//! Per-denomination value tallies, held as vectors of unique
//! denomination/amount pairs, and the lemmas about per-denomination sums of
//! coin lists.

use vstd::prelude::*;
use vstd::pervasive::VecAdditionalExecFns;
use crate::types::{CoinID, Denom, CoinData, CoinDataHeight, CoinDataHeightV, CoinDataV};
use crate::wallet::{coins_total, uviews};

verus! {

/// The amount a tally holds for one denomination (0 where it has no entry).
pub open spec fn tget(s: Seq<(Denom, u128)>, d: Denom) -> u128
    decreases s.len(),
{
    if s.len() == 0 {
        0
    } else if s[0].0 == d {
        s[0].1
    } else {
        tget(s.drop_first(), d)
    }
}

pub open spec fn tkeys_unique(s: Seq<(Denom, u128)>) -> bool {
    forall|i: int, j: int| 0 <= i < j < s.len() ==> (#[trigger] s[i]).0 != (#[trigger] s[j]).0
}

/// Whether the tally has an entry for `d`.
pub open spec fn tcontains(s: Seq<(Denom, u128)>, d: Denom) -> bool {
    exists|i: int| 0 <= i < s.len() && (#[trigger] s[i]).0 == d
}

/// The tally after adding `v` to `d`'s entry: updated in place, or appended
/// at the end if absent.
pub open spec fn tadd_seq(s: Seq<(Denom, u128)>, d: Denom, v: u128) -> Seq<(Denom, u128)>
    decreases s.len(),
{
    if s.len() == 0 {
        seq![(d, v)]
    } else if s[0].0 == d {
        seq![(d, (s[0].1 + v) as u128)] + s.drop_first()
    } else {
        seq![s[0]] + tadd_seq(s.drop_first(), d, v)
    }
}

/// The tally of a list of coins, denominations in first-appearance order.
pub open spec fn tcoins_seq(s: Seq<(CoinID, CoinDataHeightV)>) -> Seq<(Denom, u128)>
    decreases s.len(),
{
    if s.len() == 0 {
        Seq::empty()
    } else {
        tadd_seq(tcoins_seq(s.drop_last()), s.last().1.coin_data.denom, s.last().1.coin_data.value)
    }
}

proof fn lemma_tadd_seq_update(s: Seq<(Denom, u128)>, i: int, v: u128)
    requires
        0 <= i < s.len(),
        forall|j: int| 0 <= j < i ==> (#[trigger] s[j]).0 != s[i].0,
    ensures
        tadd_seq(s, s[i].0, v) == s.update(i, (s[i].0, (s[i].1 + v) as u128)),
    decreases i,
{
    let d = s[i].0;
    if i == 0 {
        assert(tadd_seq(s, d, v) =~= s.update(0, (d, (s[0].1 + v) as u128)));
    } else {
        assert(s[0].0 != d);
        assert(s.drop_first()[i - 1] == s[i]);
        lemma_tadd_seq_update(s.drop_first(), i - 1, v);
        assert(tadd_seq(s, d, v) == seq![s[0]] + tadd_seq(s.drop_first(), d, v));
        assert(seq![s[0]] + s.drop_first().update(i - 1, (d, (s[i].1 + v) as u128)) =~= s.update(
            i,
            (d, (s[i].1 + v) as u128),
        ));
    }
}

proof fn lemma_tadd_seq_append(s: Seq<(Denom, u128)>, d: Denom, v: u128)
    requires
        forall|j: int| 0 <= j < s.len() ==> (#[trigger] s[j]).0 != d,
    ensures
        tadd_seq(s, d, v) == s.push((d, v)),
    decreases s.len(),
{
    if s.len() == 0 {
        assert(tadd_seq(s, d, v) =~= s.push((d, v)));
    } else {
        assert(s[0].0 != d);
        lemma_tadd_seq_append(s.drop_first(), d, v);
        assert(tadd_seq(s, d, v) == seq![s[0]] + s.drop_first().push((d, v)));
        assert(seq![s[0]] + s.drop_first().push((d, v)) =~= s.push((d, v)));
    }
}

pub proof fn lemma_tget_absent(s: Seq<(Denom, u128)>, d: Denom)
    requires
        !tcontains(s, d),
    ensures
        tget(s, d) == 0,
    decreases s.len(),
{
    if s.len() > 0 {
        assert(!tcontains(s.drop_first(), d)) by {
            if tcontains(s.drop_first(), d) {
                let i = choose|i: int|
                    0 <= i < s.drop_first().len() && (#[trigger] s.drop_first()[i]).0 == d;
                assert(s[i + 1].0 == d);
            }
        }
        assert(s[0].0 != d);
        lemma_tget_absent(s.drop_first(), d);
    }
}

/// In a unique-key tally, an entry's amount is what the tally holds for its
/// key.
pub proof fn lemma_tget_entry(s: Seq<(Denom, u128)>, i: int)
    requires
        tkeys_unique(s),
        0 <= i < s.len(),
    ensures
        tget(s, s[i].0) == s[i].1,
    decreases i,
{
    if i == 0 {
        assert(tget(s, s[0].0) == s[0].1);
    } else {
        assert(s[0].0 != s[i].0);
        assert(tkeys_unique(s.drop_first()));
        lemma_tget_entry(s.drop_first(), i - 1);
        assert(s.drop_first()[i - 1] == s[i]);
        assert(tget(s, s[i].0) == tget(s.drop_first(), s[i].0));
    }
}

proof fn lemma_tget_update(s: Seq<(Denom, u128)>, i: int, x: u128)
    requires
        tkeys_unique(s),
        0 <= i < s.len(),
    ensures
        forall|d2: Denom|
            tget(s.update(i, (s[i].0, x)), d2) == if d2 == s[i].0 {
                x
            } else {
                tget(s, d2)
            },
    decreases i,
{
    let t = s.update(i, (s[i].0, x));
    if i == 0 {
        assert(t.drop_first() =~= s.drop_first());
        assert forall|d2: Denom|
            tget(t, d2) == if d2 == s[i].0 {
                x
            } else {
                tget(s, d2)
            } by {
            assert(t[0] == (s[0].0, x));
            if d2 == s[0].0 {
                assert(tget(t, d2) == x);
            } else {
                assert(tget(t, d2) == tget(t.drop_first(), d2));
                assert(tget(s, d2) == tget(s.drop_first(), d2));
            }
        }
    } else {
        assert(s[0].0 != s[i].0);
        assert(tkeys_unique(s.drop_first()));
        assert(t.drop_first() =~= s.drop_first().update(i - 1, (s[i].0, x)));
        assert(s.drop_first()[i - 1] == s[i]);
        lemma_tget_update(s.drop_first(), i - 1, x);
        assert(t[0] == s[0]);
        assert forall|d2: Denom|
            tget(t, d2) == if d2 == s[i].0 {
                x
            } else {
                tget(s, d2)
            } by {
            if d2 == s[0].0 {
                assert(tget(t, d2) == t[0].1);
                assert(tget(s, d2) == s[0].1);
            } else {
                assert(tget(t, d2) == tget(t.drop_first(), d2));
                assert(tget(s, d2) == tget(s.drop_first(), d2));
            }
        }
    }
}

proof fn lemma_tget_push_fresh(s: Seq<(Denom, u128)>, d: Denom, v: u128)
    requires
        !tcontains(s, d),
    ensures
        forall|d2: Denom|
            tget(s.push((d, v)), d2) == if d2 == d {
                v
            } else {
                tget(s, d2)
            },
    decreases s.len(),
{
    let t = s.push((d, v));
    if s.len() == 0 {
        assert(t.drop_first() =~= Seq::<(Denom, u128)>::empty());
        assert(t[0] == (d, v));
        assert forall|d2: Denom|
            tget(t, d2) == if d2 == d {
                v
            } else {
                tget(s, d2)
            } by {
            if d2 != d {
                assert(tget(t, d2) == tget(t.drop_first(), d2));
            }
        }
    } else {
        assert(s[0].0 != d);
        assert(!tcontains(s.drop_first(), d)) by {
            if tcontains(s.drop_first(), d) {
                let i = choose|i: int|
                    0 <= i < s.drop_first().len() && (#[trigger] s.drop_first()[i]).0 == d;
                assert(s[i + 1].0 == d);
            }
        }
        lemma_tget_push_fresh(s.drop_first(), d, v);
        assert(t.drop_first() =~= s.drop_first().push((d, v)));
        assert(t[0] == s[0]);
        assert forall|d2: Denom|
            tget(t, d2) == if d2 == d {
                v
            } else {
                tget(s, d2)
            } by {
            if d2 == s[0].0 {
                assert(tget(t, d2) == t[0].1);
            } else {
                assert(tget(t, d2) == tget(t.drop_first(), d2));
                assert(tget(s, d2) == tget(s.drop_first(), d2));
            }
        }
    }
}

/// Reads the tally for one denomination.
pub fn tally_get(t: &Vec<(Denom, u128)>, d: Denom) -> (r: u128)
    ensures
        r == tget(t@, d),
{
    let mut i: usize = 0;
    proof {
        assert(t@.skip(0) =~= t@);
    }
    while i < t.len()
        invariant
            i <= t@.len(),
            tget(t@, d) == tget(t@.skip(i as int), d),
        decreases t@.len() - i,
    {
        let tail = Ghost(t@.skip(i as int));
        proof {
            assert(tail@[0] == t@[i as int]);
            assert(tail@.drop_first() =~= t@.skip(i + 1));
        }
        if t[i].0 == d {
            return t[i].1;
        }
        i += 1;
    }
    proof {
        assert(t@.skip(t@.len() as int) =~= Seq::<(Denom, u128)>::empty());
    }
    0
}

/// Whether the tally has an entry for one denomination.
pub fn tally_contains(t: &Vec<(Denom, u128)>, d: Denom) -> (r: bool)
    ensures
        r == tcontains(t@, d),
{
    let mut i: usize = 0;
    while i < t.len()
        invariant
            i <= t@.len(),
            forall|j: int| 0 <= j < i ==> (#[trigger] t@[j]).0 != d,
        decreases t@.len() - i,
    {
        if t[i].0 == d {
            return true;
        }
        i += 1;
    }
    false
}

/// Adds an amount to one denomination's entry, creating it if absent.
pub fn tally_add(t: &mut Vec<(Denom, u128)>, d: Denom, v: u128)
    requires
        tkeys_unique(old(t)@),
        tget(old(t)@, d) + v <= u128::MAX,
    ensures
        tkeys_unique(final(t)@),
        forall|d2: Denom|
            tget(final(t)@, d2) == tget(old(t)@, d2) + if d2 == d {
                v
            } else {
                0
            },
        forall|d2: Denom| tcontains(final(t)@, d2) <==> (tcontains(old(t)@, d2) || d2 == d),
        final(t)@ == tadd_seq(old(t)@, d, v),
{
    let mut i: usize = 0;
    while i < t.len()
        invariant
            i <= t@.len(),
            *t == *old(t),
            tkeys_unique(t@),
            tget(old(t)@, d) + v <= u128::MAX,
            forall|j: int| 0 <= j < i ==> (#[trigger] t@[j]).0 != d,
        decreases t@.len() - i,
    {
        if t[i].0 == d {
            proof {
                lemma_tget_entry(t@, i as int);
                lemma_tget_update(t@, i as int, (t@[i as int].1 + v) as u128);
                lemma_tadd_seq_update(t@, i as int, v);
            }
            let cur = t[i].1;
            let ghost pre = t@;
            t.set(i, (d, cur + v));
            proof {
                assert(tkeys_unique(t@)) by {
                    assert(forall|j: int|
                        0 <= j < t@.len() ==> (#[trigger] t@[j]).0 == pre[j].0);
                }
                assert forall|d2: Denom| tcontains(t@, d2) <==> (tcontains(pre, d2) || d2 == d) by {
                    if tcontains(pre, d2) {
                        let m = choose|m: int| 0 <= m < pre.len() && (#[trigger] pre[m]).0 == d2;
                        assert(t@[m].0 == d2);
                    }
                    if tcontains(t@, d2) {
                        let m = choose|m: int| 0 <= m < t@.len() && (#[trigger] t@[m]).0 == d2;
                        assert(pre[m].0 == d2);
                    }
                    assert(t@[i as int].0 == d);
                }
            }
            return ;
        }
        i += 1;
    }
    proof {
        assert(!tcontains(t@, d));
        lemma_tget_absent(t@, d);
        lemma_tget_push_fresh(t@, d, v);
        lemma_tadd_seq_append(t@, d, v);
        let s = t@.push((d, v));
        assert(tkeys_unique(s));
    }
    let ghost pre = t@;
    t.push((d, v));
    proof {
        assert forall|d2: Denom| tcontains(t@, d2) <==> (tcontains(pre, d2) || d2 == d) by {
            if tcontains(pre, d2) {
                let m = choose|m: int| 0 <= m < pre.len() && (#[trigger] pre[m]).0 == d2;
                assert(t@[m].0 == d2);
            }
            if tcontains(t@, d2) {
                let m = choose|m: int| 0 <= m < t@.len() && (#[trigger] t@[m]).0 == d2;
                if m < pre.len() {
                    assert(pre[m].0 == d2);
                } else {
                    assert(t@[m].0 == d);
                }
            }
            assert(t@[t@.len() - 1].0 == d);
        }
    }
}

// ---------------------------------------------------------------------------
// Per-denomination sums of coin lists
// ---------------------------------------------------------------------------

pub proof fn lemma_coins_total_nonneg(s: Seq<(CoinID, CoinDataHeightV)>, d: Denom)
    ensures
        coins_total(s, d) >= 0,
    decreases s.len(),
{
    if s.len() > 0 {
        lemma_coins_total_nonneg(s.drop_last(), d);
    }
}

pub proof fn lemma_coins_total_concat(a: Seq<(CoinID, CoinDataHeightV)>, b: Seq<(CoinID, CoinDataHeightV)>, d: Denom)
    ensures
        coins_total(a + b, d) == coins_total(a, d) + coins_total(b, d),
    decreases b.len(),
{
    if b.len() == 0 {
        assert(a + b =~= a);
    } else {
        assert((a + b).drop_last() =~= a + b.drop_last());
        assert((a + b).last() == b.last());
        lemma_coins_total_concat(a, b.drop_last(), d);
    }
}

/// A prefix's sum never exceeds the whole list's sum.
pub proof fn lemma_coins_total_take_le(s: Seq<(CoinID, CoinDataHeightV)>, i: int, d: Denom)
    requires
        0 <= i <= s.len(),
    ensures
        coins_total(s.take(i), d) <= coins_total(s, d),
{
    assert(s =~= s.take(i) + s.skip(i));
    lemma_coins_total_concat(s.take(i), s.skip(i), d);
    lemma_coins_total_nonneg(s.skip(i), d);
}

/// Builds the per-denomination tally of a list of coins.
pub fn tally_of_coins(v: &Vec<(CoinID, CoinDataHeight)>) -> (r: Vec<(Denom, u128)>)
    requires
        forall|d: Denom| coins_total(uviews(v@), d) <= u128::MAX,
    ensures
        tkeys_unique(r@),
        forall|d: Denom| tget(r@, d) == coins_total(uviews(v@), d),
        forall|d: Denom| tcontains(r@, d) ==> exists|m: int|
            0 <= m < v@.len() && (#[trigger] uviews(v@)[m]).1.coin_data.denom == d,
        forall|m: int|
            0 <= m < v@.len() ==> tcontains(r@, (#[trigger] uviews(v@)[m]).1.coin_data.denom),
        r@ == tcoins_seq(uviews(v@)),
{
    let mut r: Vec<(Denom, u128)> = Vec::new();
    proof {
        assert(uviews(v@).take(0) =~= Seq::<(CoinID, CoinDataHeightV)>::empty());
    }
    let mut i: usize = 0;
    while i < v.len()
        invariant
            i <= v@.len(),
            forall|d: Denom| coins_total(uviews(v@), d) <= u128::MAX,
            tkeys_unique(r@),
            forall|d: Denom| tget(r@, d) == coins_total(uviews(v@).take(i as int), d),
            forall|d: Denom| tcontains(r@, d) ==> exists|m: int|
                0 <= m < i && (#[trigger] uviews(v@)[m]).1.coin_data.denom == d,
            forall|m: int|
                0 <= m < i ==> tcontains(r@, (#[trigger] uviews(v@)[m]).1.coin_data.denom),
            r@ == tcoins_seq(uviews(v@).take(i as int)),
        decreases v@.len() - i,
    {
        let d = v[i].1.coin_data.denom;
        let val = v[i].1.coin_data.value;
        proof {
            let t1 = uviews(v@).take(i + 1);
            assert(t1.drop_last() =~= uviews(v@).take(i as int));
            assert(t1.last() == uviews(v@)[i as int]);
            lemma_coins_total_take_le(uviews(v@), i + 1, d);
            lemma_coins_total_nonneg(uviews(v@).take(i as int), d);
        }
        tally_add(&mut r, d, val);
        proof {
            assert forall|d2: Denom|
                tget(r@, d2) == coins_total(uviews(v@).take(i + 1), d2) by {
                let t1 = uviews(v@).take(i + 1);
                assert(t1.drop_last() =~= uviews(v@).take(i as int));
                assert(t1.last() == uviews(v@)[i as int]);
            }
        }
        i += 1;
    }
    proof {
        assert(uviews(v@).take(v@.len() as int) =~= uviews(v@));
    }
    r
}

} // verus!
