use bgl_path_validator::digest::compute_digest;
use bgl_path_validator::speed::{compute_max_speed, isqrt};
use bgl_path_validator::validator::{
    process_call, validate, CallOutcome, Ledger, PathValidatorError, ValidateU8Args,
};

fn keccak(parts: &[&[u8]]) -> Vec<u8> {
    solana_program::keccak::hashv(parts).to_bytes().to_vec()
}

fn digest_as_proof(path: &[u8]) -> [u8; 32] {
    let d = compute_digest(path).expect("non-empty path has a digest");
    let mut arr = [0u8; 32];
    arr.copy_from_slice(&d);
    arr
}

#[test]
fn digest_of_empty_path_is_absent() {
    assert_eq!(compute_digest(&[]), None);
}

#[test]
fn digest_is_deterministic() {
    let p: Vec<u8> = (0u8..=80).collect();
    let d1 = compute_digest(&p);
    let d2 = compute_digest(&p);
    assert!(d1.is_some());
    assert_eq!(d1, d2);
}

#[test]
fn digest_changes_when_one_byte_changes() {
    let p: Vec<u8> = (0u8..40).collect();
    let mut q = p.clone();
    q[5] ^= 0x80;
    assert_ne!(compute_digest(&p), compute_digest(&q));
}

#[test]
fn single_chunk_digest_is_tagged_hash() {
    let p = [1u8, 2, 3];
    let expected = keccak(&[&[0x01], &p]);
    assert_eq!(compute_digest(&p), Some(expected));
}

#[test]
fn full_chunk_digest_is_tagged_hash() {
    let p = [7u8; 32];
    let expected = keccak(&[&[0x01], &p]);
    assert_eq!(compute_digest(&p), Some(expected));
}

#[test]
fn two_chunk_digest_folds_as_chain() {
    let mut p = vec![7u8; 32];
    p.extend_from_slice(&[9u8; 32]);
    let h0 = keccak(&[&[0x01], &p[..32]]);
    let chained = keccak(&[&[0x01], &h0, &p[32..]]);
    let flat = keccak(&[&[0x01], &p[..32], &p[32..]]);
    let got = compute_digest(&p);
    assert_eq!(got, Some(chained));
    assert_ne!(got, Some(flat));
}

#[test]
fn short_last_chunk_is_folded_in() {
    let mut p = vec![3u8; 32];
    p.push(200);
    let h0 = keccak(&[&[0x01], &p[..32]]);
    let expected = keccak(&[&[0x01], &h0, &[200u8]]);
    assert_eq!(compute_digest(&p), Some(expected));
}

#[test]
fn isqrt_concrete_values() {
    assert_eq!(isqrt(0), 0);
    assert_eq!(isqrt(1), 1);
    assert_eq!(isqrt(2), 1);
    assert_eq!(isqrt(3), 1);
    assert_eq!(isqrt(4), 2);
    assert_eq!(isqrt(24), 4);
    assert_eq!(isqrt(25), 5);
    assert_eq!(isqrt(26), 5);
    assert_eq!(isqrt(130050), 360);
    assert_eq!(isqrt(u32::MAX), 65535);
}

#[test]
fn max_speed_of_short_paths_is_zero() {
    assert_eq!(compute_max_speed(&[]), 0);
    assert_eq!(compute_max_speed(&[9]), 0);
    assert_eq!(compute_max_speed(&[9, 9]), 0);
    assert_eq!(compute_max_speed(&[9, 9, 9]), 0);
}

#[test]
fn max_speed_of_three_four_step_is_five() {
    assert_eq!(compute_max_speed(&[0, 0, 3, 4]), 5);
}

#[test]
fn max_speed_of_coinciding_points_is_zero() {
    assert_eq!(compute_max_speed(&[0, 0, 0, 0, 0, 0]), 0);
}

#[test]
fn max_speed_ignores_trailing_odd_byte() {
    assert_eq!(compute_max_speed(&[0, 0, 3, 4, 9]), 5);
}

#[test]
fn max_speed_takes_the_largest_step() {
    assert_eq!(compute_max_speed(&[0, 0, 0, 1, 3, 5]), 5);
}

#[test]
fn long_distance_truncates_to_eight_bits() {
    assert_eq!(compute_max_speed(&[0, 255, 255, 0]), 104);
}

#[test]
fn validate_reports_incorrect_path() {
    let path = [0u8, 0, 0, 0, 0, 0];
    let wrong = [0u8; 32];
    assert_eq!(validate(&path, &wrong), Err(PathValidatorError::IncorrectPath));
}

#[test]
fn validate_reports_incorrect_path_for_empty_path() {
    assert_eq!(validate(&[], &[0u8; 32]), Err(PathValidatorError::IncorrectPath));
}

#[test]
fn validate_reports_max_speed_exceeded() {
    let path = [0u8, 0, 3, 4];
    let claim = digest_as_proof(&path);
    assert_eq!(validate(&path, &claim), Err(PathValidatorError::MaxSpeedExceeded));
}

#[test]
fn validate_reports_both_failures() {
    let path = [0u8, 0, 3, 4];
    let wrong = [0u8; 32];
    assert_eq!(
        validate(&path, &wrong),
        Err(PathValidatorError::IncorrectPathAndMaxSpeedExceeded)
    );
}

#[test]
fn validate_accepts_matching_digest_and_slow_path() {
    let path = [0u8, 0, 0, 1];
    let claim = digest_as_proof(&path);
    assert_eq!(validate(&path, &claim), Ok(()));
}

#[test]
fn validate_args_carry_the_call() {
    let path = vec![0u8, 0, 0, 0, 0, 0];
    let args = ValidateU8Args { proof_value: digest_as_proof(&path), path };
    assert_eq!(validate(&args.path, &args.proof_value), Ok(()));
}

#[test]
fn fee_is_charged_once_on_success() {
    let path = [0u8, 0, 0, 1];
    let claim = digest_as_proof(&path);
    let ledger = Ledger { payer: 100, treasury: 5 };
    let (after, outcome) = process_call(ledger, 10, &path, &claim);
    assert_eq!(after, Ledger { payer: 90, treasury: 15 });
    assert_eq!(outcome, CallOutcome::Completed(Ok(())));
}

#[test]
fn fee_is_charged_once_even_when_validation_fails() {
    let path = [0u8, 0, 3, 4];
    let wrong = [0u8; 32];
    let ledger = Ledger { payer: 100, treasury: 5 };
    let (after, outcome) = process_call(ledger, 10, &path, &wrong);
    assert_eq!(after, Ledger { payer: 90, treasury: 15 });
    assert_eq!(
        outcome,
        CallOutcome::Completed(Err(PathValidatorError::IncorrectPathAndMaxSpeedExceeded))
    );
}

#[test]
fn payment_failure_aborts_before_validation() {
    let path = [0u8, 0, 0, 1];
    let claim = digest_as_proof(&path);
    let ledger = Ledger { payer: 5, treasury: 5 };
    let (after, outcome) = process_call(ledger, 10, &path, &claim);
    assert_eq!(after, ledger);
    assert_eq!(outcome, CallOutcome::PaymentFailed);
}

#[test]
fn overflowing_treasury_fails_the_payment() {
    let ledger = Ledger { payer: 10, treasury: u64::MAX };
    let (after, outcome) = process_call(ledger, 1, &[0u8, 0, 0, 0], &[0u8; 32]);
    assert_eq!(after, ledger);
    assert_eq!(outcome, CallOutcome::PaymentFailed);
}
