//! End-to-end tests of the wallet state machine and the transaction
//! preparer, with the real ledger-structures crates linked.

use melwallet::{Address, TxHash, CoinID, Denom, TxKind, CoinData, CoinDataHeight, Tx, Wallet,
    AddCoinsError, PrepareTxArgs, PrepareTxError, Signer, StdEd25519Signer};

fn addr(n: u128) -> Address {
    Address { hi: 0, lo: n }
}

fn txh(n: u128) -> TxHash {
    TxHash { hi: 0, lo: n }
}

fn cid(n: u128, index: u8) -> CoinID {
    CoinID { txhash: txh(n), index }
}

fn coin(owner: Address, denom: Denom, value: u128, height: u64) -> CoinDataHeight {
    CoinDataHeight {
        coin_data: CoinData { covhash: owner, value, denom, additional_data: vec![] },
        height,
    }
}

fn wallet_with(owner: Address, height: u64, coins: Vec<(CoinID, CoinDataHeight)>) -> Wallet {
    Wallet { netid: 1, address: owner, height, confirmed_utxos: coins, pending_outgoing: vec![] }
}

fn mel_hashval(hi: u128, lo: u128) -> tmelcrypt::HashVal {
    let mut b = [0u8; 32];
    b[..16].copy_from_slice(&hi.to_be_bytes());
    b[16..].copy_from_slice(&lo.to_be_bytes());
    tmelcrypt::HashVal(b)
}

/// Mirrors a library transaction in the external form, independently of the
/// library's own conversion.
fn to_mel(tx: &Tx) -> melstructs::Transaction {
    melstructs::Transaction {
        kind: match tx.kind {
            TxKind::Normal => melstructs::TxKind::Normal,
            TxKind::Stake => melstructs::TxKind::Stake,
            TxKind::DoscMint => melstructs::TxKind::DoscMint,
            TxKind::Swap => melstructs::TxKind::Swap,
            TxKind::LiqDeposit => melstructs::TxKind::LiqDeposit,
            TxKind::LiqWithdraw => melstructs::TxKind::LiqWithdraw,
            TxKind::Faucet => melstructs::TxKind::Faucet,
        },
        inputs: tx
            .inputs
            .iter()
            .map(|c| melstructs::CoinID {
                txhash: melstructs::TxHash(mel_hashval(c.txhash.hi, c.txhash.lo)),
                index: c.index,
            })
            .collect(),
        outputs: tx
            .outputs
            .iter()
            .map(|o| melstructs::CoinData {
                covhash: melstructs::Address(mel_hashval(o.covhash.hi, o.covhash.lo)),
                value: melstructs::CoinValue(o.value),
                denom: match &o.denom {
                    Denom::Mel => melstructs::Denom::Mel,
                    Denom::Sym => melstructs::Denom::Sym,
                    Denom::Erg => melstructs::Denom::Erg,
                    Denom::NewCustom => melstructs::Denom::NewCustom,
                    Denom::Custom(h) => {
                        melstructs::Denom::Custom(melstructs::TxHash(mel_hashval(h.hi, h.lo)))
                    }
                },
                additional_data: bytes::Bytes::copy_from_slice(&o.additional_data),
            })
            .collect(),
        fee: melstructs::CoinValue(tx.fee),
        covenants: tx.covenants.iter().map(|c| bytes::Bytes::copy_from_slice(c)).collect(),
        data: bytes::Bytes::copy_from_slice(&tx.data),
        sigs: tx.sigs.iter().map(|s| bytes::Bytes::copy_from_slice(s)).collect(),
    }
}

#[test]
fn add_coins_applies_contiguous_deltas_in_order() {
    let a = addr(7);
    let mut w = wallet_with(a, 10, vec![]);
    w.add_coins(11, vec![(cid(1, 0), coin(a, Denom::Mel, 100, 0).coin_data)], vec![]).unwrap();
    assert_eq!(w.height, 11);
    w.add_coins(12, vec![(cid(2, 0), coin(a, Denom::Mel, 50, 0).coin_data)], vec![cid(1, 0)])
        .unwrap();
    assert_eq!(w.height, 12);
    assert_eq!(w.confirmed_utxos.len(), 1);
    assert_eq!(w.confirmed_utxos[0].0, cid(2, 0));
    assert_eq!(w.confirmed_utxos[0].1.height, 12);
    assert_eq!(w.confirmed_utxos[0].1.coin_data.value, 50);
}

#[test]
fn add_coins_bad_height_changes_nothing() {
    let a = addr(7);
    let mut w = wallet_with(a, 10, vec![(cid(1, 0), coin(a, Denom::Mel, 100, 9))]);
    let before_utxos = w.confirmed_utxos.clone();
    let r = w.add_coins(10, vec![(cid(2, 0), coin(a, Denom::Mel, 5, 0).coin_data)], vec![]);
    assert_eq!(r, Err(AddCoinsError::BadHeight));
    assert_eq!(w.height, 10);
    assert_eq!(w.confirmed_utxos, before_utxos);
    assert_eq!(w.pending_outgoing.len(), 0);
}

#[test]
fn add_coins_wrong_address_changes_nothing() {
    let a = addr(7);
    let stranger = addr(8);
    let mut w = wallet_with(a, 10, vec![(cid(1, 0), coin(a, Denom::Mel, 100, 9))]);
    let before_utxos = w.confirmed_utxos.clone();
    let r = w.add_coins(
        11,
        vec![
            (cid(2, 0), coin(a, Denom::Mel, 5, 0).coin_data),
            (cid(3, 0), coin(stranger, Denom::Mel, 5, 0).coin_data),
        ],
        vec![cid(1, 0)],
    );
    assert_eq!(r, Err(AddCoinsError::WrongAddress));
    assert_eq!(w.height, 10);
    assert_eq!(w.confirmed_utxos, before_utxos);
}

#[test]
fn full_reset_replaces_everything_or_nothing() {
    let a = addr(7);
    let stranger = addr(8);
    let mut w = wallet_with(a, 10, vec![(cid(1, 0), coin(a, Denom::Mel, 100, 9))]);
    w.add_pending(Tx {
        kind: TxKind::Normal,
        inputs: vec![cid(1, 0)],
        outputs: vec![],
        fee: 1,
        covenants: vec![],
        data: vec![],
        sigs: vec![],
    });
    assert_eq!(w.pending_outgoing.len(), 1);

    let before_utxos = w.confirmed_utxos.clone();
    let r = w.full_reset(99, vec![(cid(9, 0), coin(stranger, Denom::Mel, 1, 98))]);
    assert_eq!(r, Err(AddCoinsError::WrongAddress));
    assert_eq!(w.height, 10);
    assert_eq!(w.confirmed_utxos, before_utxos);
    assert_eq!(w.pending_outgoing.len(), 1);

    let snapshot = vec![(cid(9, 0), coin(a, Denom::Sym, 42, 98))];
    w.full_reset(99, snapshot.clone()).unwrap();
    assert_eq!(w.height, 99);
    assert_eq!(w.confirmed_utxos, snapshot);
    assert_eq!(w.pending_outgoing.len(), 0);
}

#[test]
fn add_pending_hides_spent_coins_from_selector() {
    let a = addr(7);
    let mut w = wallet_with(
        a,
        10,
        vec![(cid(1, 0), coin(a, Denom::Mel, 100, 9)), (cid(2, 0), coin(a, Denom::Mel, 50, 9))],
    );
    w.add_pending(Tx {
        kind: TxKind::Normal,
        inputs: vec![cid(1, 0)],
        outputs: vec![],
        fee: 1,
        covenants: vec![],
        data: vec![],
        sigs: vec![],
    });
    let sp = w.spendable_utxos();
    assert_eq!(sp.len(), 1);
    assert_eq!(sp[0].0, cid(2, 0));
    assert_eq!(w.confirmed_utxos.len(), 2);
}

#[test]
fn confirmation_clears_matching_pending_entry() {
    let a = addr(7);
    let mut w = wallet_with(a, 10, vec![(cid(1, 0), coin(a, Denom::Mel, 100, 9))]);
    let tx = Tx {
        kind: TxKind::Normal,
        inputs: vec![cid(1, 0)],
        outputs: vec![],
        fee: 1,
        covenants: vec![],
        data: vec![],
        sigs: vec![],
    };
    w.add_pending(tx);
    assert_eq!(w.pending_outgoing.len(), 1);
    let h = w.pending_outgoing[0].0;
    // a coin whose originating hash is the pending key confirms
    let new_coin = CoinID { txhash: h, index: 0 };
    w.add_coins(11, vec![(new_coin, coin(a, Denom::Mel, 99, 0).coin_data)], vec![cid(1, 0)])
        .unwrap();
    assert_eq!(w.pending_outgoing.len(), 0);
    assert_eq!(w.confirmed_utxos.len(), 1);
    assert_eq!(w.confirmed_utxos[0].0, new_coin);
}

#[test]
fn add_pending_is_idempotent_for_identical_transactions() {
    let a = addr(7);
    let mut w = wallet_with(a, 10, vec![]);
    let tx = Tx {
        kind: TxKind::Normal,
        inputs: vec![cid(1, 0)],
        outputs: vec![],
        fee: 1,
        covenants: vec![],
        data: vec![],
        sigs: vec![],
    };
    w.add_pending(tx.clone());
    w.add_pending(tx);
    assert_eq!(w.pending_outgoing.len(), 1);
}

#[test]
fn balances_sums_by_denomination() {
    let a = addr(7);
    let w = wallet_with(
        a,
        10,
        vec![
            (cid(1, 0), coin(a, Denom::Mel, 100, 9)),
            (cid(2, 0), coin(a, Denom::Mel, 50, 9)),
            (cid(3, 0), coin(a, Denom::Sym, 7, 9)),
        ],
    );
    let b = w.balances();
    assert_eq!(b.len(), 2);
    let mel = b.iter().find(|e| e.0 == Denom::Mel).unwrap().1;
    let sym = b.iter().find(|e| e.0 == Denom::Sym).unwrap().1;
    assert_eq!(mel, 150);
    assert_eq!(sym, 7);
}

#[test]
fn prepare_tx_pays_and_returns_change() {
    let a = addr(7);
    let third_party = addr(1234);
    let w = wallet_with(a, 10, vec![(cid(1, 0), coin(a, Denom::Mel, 1000, 9))]);
    let signer = StdEd25519Signer::new(tmelcrypt::Ed25519SK::generate());
    let args = PrepareTxArgs {
        outputs: vec![CoinData {
            covhash: third_party,
            value: 100,
            denom: Denom::Mel,
            additional_data: vec![],
        }],
        ..PrepareTxArgs::default()
    };
    let tx = w.prepare_tx(args, &signer, 16, true).unwrap();
    assert!(tx.fee >= 1);
    assert_eq!(tx.inputs, vec![cid(1, 0)]);
    assert_eq!(tx.outputs.len(), 2);
    assert_eq!(tx.outputs[0].covhash, third_party);
    assert_eq!(tx.outputs[0].value, 100);
    assert_eq!(tx.outputs[1].covhash, a);
    assert_eq!(tx.outputs[1].value, 1000 - 100 - tx.fee);
    assert_eq!(tx.covenants.len(), 1);
    assert_eq!(tx.sigs.len(), 1);
    assert_eq!(tx.sigs[0].len(), 64);
    // the externally computed requirement never exceeds the declared fee
    let mel_tx = to_mel(&tx);
    let required = mel_tx.base_fee(16, 0, melvm::covenant_weight_from_bytes);
    assert!(required.0 <= tx.fee);
}

#[test]
fn prepare_tx_without_fee_asset_names_the_fee_asset() {
    let a = addr(7);
    let token = Denom::Custom(txh(77));
    let w = wallet_with(a, 10, vec![(cid(1, 0), coin(a, token, 500, 9))]);
    let signer = StdEd25519Signer::new(tmelcrypt::Ed25519SK::generate());
    let args = PrepareTxArgs {
        outputs: vec![CoinData { covhash: addr(9), value: 10, denom: token, additional_data: vec![] }],
        ..PrepareTxArgs::default()
    };
    let r = w.prepare_tx(args, &signer, 16, true);
    assert!(matches!(r, Err(PrepareTxError::InsufficientFunds(Denom::Mel))));
}

#[test]
fn prepare_tx_balanced_failure_names_short_denomination() {
    let a = addr(7);
    let token = Denom::Custom(txh(77));
    let w = wallet_with(a, 10, vec![(cid(1, 0), coin(a, Denom::Mel, 1000, 9))]);
    let signer = StdEd25519Signer::new(tmelcrypt::Ed25519SK::generate());
    let args = PrepareTxArgs {
        outputs: vec![CoinData { covhash: addr(9), value: 10, denom: token, additional_data: vec![] }],
        ..PrepareTxArgs::default()
    };
    let r = w.prepare_tx(args, &signer, 16, true);
    assert!(matches!(r, Err(PrepareTxError::InsufficientFunds(d)) if d == token));
}

#[test]
fn prepare_tx_rejects_duplicate_explicit_inputs() {
    let a = addr(7);
    let w = wallet_with(a, 10, vec![(cid(1, 0), coin(a, Denom::Mel, 1000, 9))]);
    let signer = StdEd25519Signer::new(tmelcrypt::Ed25519SK::generate());
    let external = coin(addr(42), Denom::Mel, 10, 5);
    let args = PrepareTxArgs {
        inputs: vec![(cid(5, 1), external.clone()), (cid(5, 1), external)],
        outputs: vec![],
        ..PrepareTxArgs::default()
    };
    let r = w.prepare_tx(args, &signer, 16, false);
    assert!(matches!(r, Err(PrepareTxError::BadExternalInput(c)) if c == cid(5, 1)));
}

#[test]
fn prepare_tx_never_selects_pending_spent_coins() {
    let a = addr(7);
    let mut w = wallet_with(
        a,
        10,
        vec![(cid(1, 0), coin(a, Denom::Mel, 1000, 9)), (cid(2, 0), coin(a, Denom::Mel, 800, 9))],
    );
    w.add_pending(Tx {
        kind: TxKind::Normal,
        inputs: vec![cid(1, 0)],
        outputs: vec![],
        fee: 1,
        covenants: vec![],
        data: vec![],
        sigs: vec![],
    });
    let signer = StdEd25519Signer::new(tmelcrypt::Ed25519SK::generate());
    let args = PrepareTxArgs {
        outputs: vec![CoinData { covhash: addr(9), value: 100, denom: Denom::Mel, additional_data: vec![] }],
        ..PrepareTxArgs::default()
    };
    let tx = w.prepare_tx(args, &signer, 16, true).unwrap();
    assert_eq!(tx.inputs, vec![cid(2, 0)]);
}

#[test]
fn default_args_are_empty_normal_request() {
    let args = PrepareTxArgs::default();
    assert_eq!(args.kind, TxKind::Normal);
    assert!(args.inputs.is_empty());
    assert!(args.outputs.is_empty());
    assert!(args.covenants.is_empty());
    assert!(args.data.is_empty());
    assert_eq!(args.fee_ballast, 0);
}

#[test]
fn confirmed_set_is_kept_in_ascending_coin_id_order() {
    let a = addr(7);
    let mut w = wallet_with(a, 10, vec![]);
    // confirm coins in descending id order, one block each
    w.add_coins(11, vec![(cid(9, 1), coin(a, Denom::Mel, 10, 0).coin_data)], vec![]).unwrap();
    w.add_coins(12, vec![(cid(5, 2), coin(a, Denom::Mel, 20, 0).coin_data)], vec![]).unwrap();
    w.add_coins(13, vec![(cid(5, 0), coin(a, Denom::Mel, 30, 0).coin_data)], vec![]).unwrap();
    let ids: Vec<CoinID> = w.confirmed_utxos.iter().map(|p| p.0).collect();
    assert_eq!(ids, vec![cid(5, 0), cid(5, 2), cid(9, 1)]);
    let sp = w.spendable_utxos();
    let sp_ids: Vec<CoinID> = sp.iter().map(|p| p.0).collect();
    assert_eq!(sp_ids, vec![cid(5, 0), cid(5, 2), cid(9, 1)]);
}

#[test]
fn selection_draws_in_ascending_coin_id_order() {
    let a = addr(7);
    // stored unsorted on purpose; confirm via full_reset which re-sorts
    let mut w = wallet_with(a, 10, vec![]);
    w.full_reset(
        10,
        vec![
            (cid(9, 0), coin(a, Denom::Mel, 600, 9)),
            (cid(2, 0), coin(a, Denom::Mel, 600, 9)),
        ],
    )
    .unwrap();
    let signer = StdEd25519Signer::new(tmelcrypt::Ed25519SK::generate());
    let args = PrepareTxArgs {
        outputs: vec![CoinData { covhash: addr(9), value: 100, denom: Denom::Mel, additional_data: vec![] }],
        ..PrepareTxArgs::default()
    };
    let tx = w.prepare_tx(args, &signer, 16, true).unwrap();
    // the lower coin id is drawn first and alone suffices
    assert_eq!(tx.inputs, vec![cid(2, 0)]);
}

#[test]
fn signer_populates_exactly_the_requested_slot() {
    let signer = StdEd25519Signer::new(tmelcrypt::Ed25519SK::generate());
    let tx = Tx {
        kind: TxKind::Normal,
        inputs: vec![cid(1, 0), cid(2, 0), cid(3, 0)],
        outputs: vec![],
        fee: 1,
        covenants: vec![],
        data: vec![],
        sigs: vec![],
    };
    let t2 = signer.sign(&tx, 1).unwrap();
    assert_eq!(t2.sigs.len(), 2);
    assert!(t2.sigs[0].is_empty());
    assert_eq!(t2.sigs[1].len(), 64);
    assert_eq!(t2.inputs, tx.inputs);
    let t3 = signer.sign(&t2, 0).unwrap();
    assert_eq!(t3.sigs.len(), 2);
    assert_eq!(t3.sigs[0].len(), 64);
    assert_eq!(t3.sigs[1], t2.sigs[1]);
}

#[test]
fn balances_lists_zero_valued_denominations() {
    let a = addr(7);
    let token = Denom::Custom(txh(42));
    let w = wallet_with(a, 10, vec![(cid(1, 0), coin(a, token, 0, 9))]);
    let b = w.balances();
    assert_eq!(b.len(), 1);
    assert_eq!(b[0], (token, 0));
}
