//! The verdict over a path: the chained digest must equal the claimed proof
//! value, and the maximum step speed must stay within the ceiling. A call
//! also charges a fixed fee from the payer to the treasury before the
//! verdict is reached; the fee is kept even when validation fails, and a
//! payment failure aborts the call with no verdict.

use vstd::prelude::*;
use crate::digest::{compute_digest, digest_of, opt_bytes};
use crate::speed::{compute_max_speed, max_speed_of};

verus! {

/// The highest step speed a valid path may reach.
pub const MAX_SPEED: u8 = 1;

/// The ways a validation can fail: a digest that does not match the claimed
/// proof value, a maximum step speed over the ceiling, or both at once.
#[derive(Clone, Copy, Debug, PartialEq, Eq, Structural)]
pub enum PathValidatorError {
    IncorrectPath,
    MaxSpeedExceeded,
    IncorrectPathAndMaxSpeedExceeded,
}

/// The arguments of one validation call: the claimed proof value and the
/// path bytes it is checked against.
#[derive(Clone, Debug, PartialEq, Eq)]
pub struct ValidateU8Args {
    pub proof_value: [u8; 32],
    pub path: Vec<u8>,
}

/// A path passes the digest check when it has a digest and that digest
/// equals the claimed proof value byte for byte.
pub open spec fn path_ok(path: Seq<u8>, claim: Seq<u8>) -> bool {
    digest_of(path) == Option::Some(claim)
}

/// A path passes the speed check when its maximum step speed is within the
/// ceiling.
pub open spec fn speed_ok(path: Seq<u8>) -> bool {
    max_speed_of(path) <= MAX_SPEED
}

/// The verdict on a path and a claimed proof value: success when both
/// checks pass, otherwise the error naming exactly the checks that failed.
pub open spec fn validation_result(path: Seq<u8>, claim: Seq<u8>) -> Result<(), PathValidatorError> {
    if !path_ok(path, claim) && !speed_ok(path) {
        Result::Err(PathValidatorError::IncorrectPathAndMaxSpeedExceeded)
    } else if !path_ok(path, claim) {
        Result::Err(PathValidatorError::IncorrectPath)
    } else if !speed_ok(path) {
        Result::Err(PathValidatorError::MaxSpeedExceeded)
    } else {
        Result::Ok(())
    }
}

/// Compares a 32-byte slice with a 32-byte array.
fn bytes32_eq(a: &[u8], b: &[u8; 32]) -> (r: bool)
    requires
        a@.len() == 32,
    ensures
        r == (a@ == b@),
{
    let mut j: usize = 0;
    while j < 32
        invariant
            j <= 32,
            a@.len() == 32,
            forall|t: int| 0 <= t < j ==> a@[t] == b@[t],
        decreases 32 - j,
    {
        if a[j] != b[j] {
            return false;
        }
        j += 1;
    }
    proof {
        assert(a@ =~= b@);
    }
    true
}

/// Checks a path against a claimed proof value: recomputes the chained
/// digest and the maximum step speed, and returns the verdict. The digest
/// check fails on an empty path, which has no digest to match the claim.
pub fn validate(path: &[u8], proof_value: &[u8; 32]) -> (r: Result<(), PathValidatorError>)
    ensures
        r == validation_result(path@, proof_value@),
        r is Ok <==> path_ok(path@, proof_value@) && speed_ok(path@),
{
    let computed = compute_digest(path);
    let max_speed = compute_max_speed(path);
    let p_ok = match &computed {
        Option::None => false,
        Option::Some(d) => bytes32_eq(d.as_slice(), proof_value),
    };
    proof {
        assert(p_ok == path_ok(path@, proof_value@));
    }
    let s_ok = max_speed <= MAX_SPEED;
    if !p_ok && !s_ok {
        Result::Err(PathValidatorError::IncorrectPathAndMaxSpeedExceeded)
    } else if !p_ok {
        Result::Err(PathValidatorError::IncorrectPath)
    } else if !s_ok {
        Result::Err(PathValidatorError::MaxSpeedExceeded)
    } else {
        Result::Ok(())
    }
}

/// The balances the fee transfer touches, in the smallest integer subunit
/// of the native token.
#[derive(Clone, Copy, Debug, PartialEq, Eq, Structural)]
pub struct Ledger {
    pub payer: u64,
    pub treasury: u64,
}

/// The fee can move when the payer holds it and the treasury balance does
/// not overflow on receiving it.
pub open spec fn can_pay(ledger: Ledger, fee: u64) -> bool {
    fee <= ledger.payer && ledger.treasury + fee <= u64::MAX
}

/// The ledger after the fee moved from the payer to the treasury.
pub open spec fn charged(ledger: Ledger, fee: u64) -> Ledger {
    Ledger { payer: (ledger.payer - fee) as u64, treasury: (ledger.treasury + fee) as u64 }
}

/// What one validation call comes to: either the payment fails and the
/// whole call aborts with no verdict, or the fee is charged and a verdict
/// is reached.
#[derive(Clone, Copy, Debug, PartialEq, Eq)]
pub enum CallOutcome {
    PaymentFailed,
    Completed(Result<(), PathValidatorError>),
}

/// One full validation call against a ledger. The fee moves first,
/// unconditionally: a completed call charges it exactly once, whatever the
/// verdict, and no failed verdict refunds it. A payment failure aborts the
/// call before any validation: the ledger is unchanged and no verdict is
/// produced.
pub fn process_call(ledger: Ledger, fee: u64, path: &[u8], proof_value: &[u8; 32]) -> (r: (
    Ledger,
    CallOutcome,
))
    ensures
        can_pay(ledger, fee) ==> r == ((
            charged(ledger, fee),
            CallOutcome::Completed(validation_result(path@, proof_value@)),
        )),
        !can_pay(ledger, fee) ==> r == ((ledger, CallOutcome::PaymentFailed)),
{
    if fee > ledger.payer || ledger.treasury > u64::MAX - fee {
        return (ledger, CallOutcome::PaymentFailed);
    }
    let paid = Ledger { payer: ledger.payer - fee, treasury: ledger.treasury + fee };
    let verdict = validate(path, proof_value);
    (paid, CallOutcome::Completed(verdict))
}

/// A completed call moves the fee exactly once: the payer's balance drops
/// by the fee and the treasury's rises by it, whatever the verdict was.
pub proof fn lemma_fee_charged_once(ledger: Ledger, fee: u64)
    requires
        can_pay(ledger, fee),
    ensures
        charged(ledger, fee).payer + fee == ledger.payer,
        charged(ledger, fee).treasury == ledger.treasury + fee,
{
}

} // verus!
