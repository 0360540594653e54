//! Declarations of the external ledger-structures types that appear in the
//! signatures of the trusted boundary functions. They are opaque: the library
//! only carries values of them through.

use vstd::prelude::*;

verus! {

#[verifier::external_type_specification]
#[verifier::external_body]
pub struct ExMelTransaction(melstructs::Transaction);

#[verifier::external_type_specification]
#[verifier::external_body]
pub struct ExHashVal(tmelcrypt::HashVal);

#[verifier::external_type_specification]
#[verifier::external_body]
pub struct ExEd25519SK(tmelcrypt::Ed25519SK);

} // verus!
