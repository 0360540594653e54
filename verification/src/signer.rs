//! The signing capability: anything able to authorize the wallet's
//! transactions. The transaction preparer is generic over it and never
//! inspects a concrete implementation.

use vstd::prelude::*;
use vstd::pervasive::VecAdditionalExecFns;
use crate::types::{Tx, same_except_sigs, copy_bytes, copy_bytes_list, copy_coinids,
    copy_coindatas};
use crate::ledger::{std_ed25519_covenant, ed25519_sign_hash, tx_hash_nosigs};

verus! {

/// How one signing call may change the signature list: it is extended with
/// empty slots up to the signed slot if needed, every other slot is kept, and
/// the signed slot holds at most `ssz` bytes.
pub open spec fn sig_slots_ok(s2: Seq<Seq<u8>>, s1: Seq<Seq<u8>>, idx: int, ssz: int) -> bool {
    &&& s2.len() == if idx < s1.len() {
        s1.len() as int
    } else {
        idx + 1
    }
    &&& forall|j: int|
        0 <= j < s2.len() && j != idx ==> #[trigger] s2[j] == if j < s1.len() {
            s1[j]
        } else {
            Seq::<u8>::empty()
        }
    &&& s2[idx].len() <= ssz
}

/// Represents something that can sign transactions.
///
/// `sign` may refuse for implementation-defined reasons; on success it must
/// return the same transaction with only its signatures changed.
pub trait Signer {
    type Error;

    /// The unlock covenant this signer authorizes, as a mathematical value.
    spec fn spec_covenant(&self) -> Seq<u8>;

    /// A conservative upper bound on one signature's serialized length.
    spec fn spec_sig_size(&self) -> usize;

    /// Whether this signer promises never to refuse a request.
    spec fn spec_infallible(&self) -> bool;

    /// Returns the raw, unhashed covenant that unlocks coins spent by this
    /// signer.
    fn covenant(&self) -> (r: Vec<u8>)
        ensures
            r@ == self.spec_covenant(),
    ;

    /// Returns a conservative estimate of the signature size.
    fn sig_size(&self) -> (r: usize)
        ensures
            r == self.spec_sig_size(),
    ;

    /// Signs a transaction for one input slot. May return an error if the
    /// signer refuses; on success everything but the signatures is kept, the
    /// signature list is extended to reach the slot, the other slots are
    /// untouched, and the slot holds at most `spec_sig_size` bytes.
    fn sign(&self, txn: &Tx, for_input: usize) -> (r: Result<Tx, Self::Error>)
        ensures
            self.spec_infallible() ==> r is Ok,
            r is Ok ==> same_except_sigs(r->Ok_0@, txn@),
            r is Ok ==> sig_slots_ok(
                r->Ok_0@.sigs,
                txn@.sigs,
                for_input as int,
                self.spec_sig_size() as int,
            ),
    ;
}

/// The error of a signer that never refuses; the library never constructs a
/// value of it, and its field is private, so no caller can either.
#[derive(Debug)]
pub struct NoSignError {
    refused: bool,
}

/// An ed25519 single-key signer: deterministic, always succeeds.
pub struct StdEd25519Signer {
    sk: tmelcrypt::Ed25519SK,
    cov: Vec<u8>,
}

impl StdEd25519Signer {
    /// Builds the signer for one secret key, fixing its unlock covenant.
    pub fn new(sk: tmelcrypt::Ed25519SK) -> Self {
        let cov = std_ed25519_covenant(&sk);
        StdEd25519Signer { sk, cov }
    }
}

impl Signer for StdEd25519Signer {
    type Error = NoSignError;

    closed spec fn spec_covenant(&self) -> Seq<u8> {
        self.cov@
    }

    open spec fn spec_sig_size(&self) -> usize {
        64
    }

    open spec fn spec_infallible(&self) -> bool {
        true
    }

    fn covenant(&self) -> (r: Vec<u8>) {
        copy_bytes(&self.cov)
    }

    fn sig_size(&self) -> (r: usize) {
        64
    }

    fn sign(&self, txn: &Tx, for_input: usize) -> (r: Result<Tx, Self::Error>) {
        let h = tx_hash_nosigs(txn);
        let sig = ed25519_sign_hash(&self.sk, &h);
        let mut sigs: Vec<Vec<u8>> = copy_bytes_list(&txn.sigs);
        while sigs.len() <= for_input
            invariant
                txn.sigs@.len() <= sigs@.len(),
                sigs@.len() <= for_input + 1 || sigs@.len() == txn.sigs@.len(),
                forall|j: int|
                    0 <= j < txn.sigs@.len() ==> (#[trigger] sigs@[j])@ == txn.sigs@[j]@,
                forall|j: int|
                    txn.sigs@.len() <= j < sigs@.len() ==> (#[trigger] sigs@[j])@ == Seq::<
                        u8,
                    >::empty(),
            decreases for_input + 1 - sigs.len(),
        {
            sigs.push(Vec::new());
        }
        sigs.set(for_input, sig);
        let r = Tx {
            kind: txn.kind,
            inputs: copy_coinids(&txn.inputs),
            outputs: copy_coindatas(&txn.outputs),
            fee: txn.fee,
            covenants: copy_bytes_list(&txn.covenants),
            data: copy_bytes(&txn.data),
            sigs,
        };
        proof {
            assert(r@.outputs =~= txn@.outputs);
            assert(r@.covenants =~= txn@.covenants);
            assert(sig_slots_ok(r@.sigs, txn@.sigs, for_input as int, 64)) by {
                assert(r@.sigs[for_input as int] == sig@);
                assert forall|j: int| 0 <= j < r@.sigs.len() && j != for_input as int
                    implies #[trigger] r@.sigs[j] == if j < txn@.sigs.len() {
                        txn@.sigs[j]
                    } else {
                        Seq::<u8>::empty()
                    } by {
                    assert(r@.sigs[j] == sigs@[j]@);
                }
            }
        }
        Ok(r)
    }
}

} // verus!
