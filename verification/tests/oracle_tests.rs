use alkahest_py::oracle::{
    should_consider, validate_arbitration_request, ArbitrationSession, PyArbitrateOptions,
    PyOracleAttestation, SessionStatus,
};
use alkahest_py::CodecError;

fn att(uid: &str, time: u64) -> PyOracleAttestation {
    PyOracleAttestation {
        uid: uid.to_string(),
        schema: "0x0101010101010101010101010101010101010101010101010101010101010101"
            .to_string(),
        ref_uid: "0x0000000000000000000000000000000000000000000000000000000000000000"
            .to_string(),
        time,
        expiration_time: 0,
        revocation_time: 0,
        recipient: "0x2222222222222222222222222222222222222222".to_string(),
        attester: "0x3333333333333333333333333333333333333333".to_string(),
        revocable: true,
        data: "0x".to_string(),
    }
}

fn default_options() -> PyArbitrateOptions {
    PyArbitrateOptions {
        skip_arbitrated: false,
        only_new: false,
    }
}

#[test]
fn historical_backfill_three_decisions() {
    let mut session = ArbitrationSession::new(default_options(), 0, "0xsub1".to_string());

    // First attestation: affirmative decision, submission confirms.
    assert!(session.deliver(att("0xa1", 10), false));
    let submit = session.record_verdict(Some(true));
    assert_eq!(submit.as_deref(), Some("0xa1"));
    session.record_submission("0xhash1".to_string());

    // Second attestation: explicit negative decision, no submission.
    assert!(session.deliver(att("0xa2", 11), false));
    let submit = session.record_verdict(Some(false));
    assert!(submit.is_none());

    // Third attestation: affirmative again.
    assert!(session.deliver(att("0xa3", 12), false));
    let submit = session.record_verdict(Some(true));
    assert_eq!(submit.as_deref(), Some("0xa3"));
    session.record_submission("0xhash3".to_string());

    session.complete();
    let result = session.finish();

    assert_eq!(result.decisions.len(), 3);
    assert_eq!(result.decisions[0].attestation.uid, "0xa1");
    assert!(result.decisions[0].decision);
    assert_eq!(result.decisions[0].transaction_hash, "0xhash1");
    assert_eq!(result.decisions[1].attestation.uid, "0xa2");
    assert!(!result.decisions[1].decision);
    assert_eq!(result.decisions[1].transaction_hash, "");
    assert_eq!(result.decisions[2].attestation.uid, "0xa3");
    assert!(result.decisions[2].decision);
    assert_eq!(result.decisions[2].transaction_hash, "0xhash3");
}

#[test]
fn timeout_with_unresolved_decision_returns_empty() {
    let mut session = ArbitrationSession::new(default_options(), 0, "0xsub2".to_string());

    // The decision function is invoked but never resolves; the runtime's
    // timer fires while the evaluation is still pending.
    assert!(session.deliver(att("0xa1", 10), false));
    session.timeout();

    assert_eq!(session.status(), SessionStatus::TimedOut);
    let result = session.finish();
    assert_eq!(result.decisions.len(), 0);
    assert_eq!(result.subscription_id, "0xsub2");
    assert!(!result.subscription_id.is_empty());
}

#[test]
fn skip_arbitrated_rerun_evaluates_nothing() {
    let options = PyArbitrateOptions {
        skip_arbitrated: true,
        only_new: false,
    };
    let mut session = ArbitrationSession::new(options, 0, "0xsub3".to_string());

    // Every attestation already carries an outcome: the decision function
    // must not be invoked for any of them.
    for (uid, time) in [("0xa1", 10), ("0xa2", 11), ("0xa3", 12)] {
        let evaluate = session.deliver(att(uid, time), true);
        assert!(!evaluate);
    }

    session.complete();
    let result = session.finish();
    assert_eq!(result.decisions.len(), 0);
}

#[test]
fn only_new_excludes_attestations_before_start() {
    let options = PyArbitrateOptions {
        skip_arbitrated: false,
        only_new: true,
    };
    let mut session = ArbitrationSession::new(options, 100, "0xsub4".to_string());

    assert!(!session.deliver(att("0xold", 50), false));
    assert!(session.deliver(att("0xnew", 150), false));
    session.record_verdict(Some(true));
    session.record_submission("0xhash".to_string());

    session.complete();
    let result = session.finish();
    assert_eq!(result.decisions.len(), 1);
    assert_eq!(result.decisions[0].attestation.uid, "0xnew");
}

#[test]
fn unsubscribe_is_idempotent() {
    let mut session = ArbitrationSession::new(default_options(), 0, "0xsub5".to_string());

    assert!(session.deliver(att("0xa1", 10), false));
    session.record_verdict(Some(false));

    session.unsubscribe();
    assert_eq!(session.status(), SessionStatus::Cancelled);
    let after_first = session.decision_count();

    // A second unsubscribe is a no-op, not an error, and changes nothing.
    session.unsubscribe();
    assert_eq!(session.status(), SessionStatus::Cancelled);
    assert_eq!(session.decision_count(), after_first);

    let result = session.finish();
    assert_eq!(result.decisions.len(), 1);
    assert!(!result.decisions[0].decision);
}

#[test]
fn submission_failure_aborts_only_that_item() {
    let mut session = ArbitrationSession::new(default_options(), 0, "0xsub6".to_string());

    // The ledger rejects the first submission: no decision is recorded for
    // that attestation, and processing continues.
    assert!(session.deliver(att("0xa1", 10), false));
    session.record_verdict(Some(true));
    session.record_submission_failure();

    assert!(session.deliver(att("0xa2", 11), false));
    session.record_verdict(Some(true));
    session.record_submission("0xhash2".to_string());

    session.complete();
    let result = session.finish();
    assert_eq!(result.decisions.len(), 1);
    assert_eq!(result.decisions[0].attestation.uid, "0xa2");
}

#[test]
fn abstention_records_nothing() {
    let mut session = ArbitrationSession::new(default_options(), 0, "0xsub7".to_string());

    assert!(session.deliver(att("0xa1", 10), false));
    let submit = session.record_verdict(None);
    assert!(submit.is_none());

    session.complete();
    let result = session.finish();
    assert_eq!(result.decisions.len(), 0);
}

#[test]
fn filter_rules_on_plain_values() {
    let a = att("0xa1", 50);
    let skip = PyArbitrateOptions {
        skip_arbitrated: true,
        only_new: false,
    };
    let fresh = PyArbitrateOptions {
        skip_arbitrated: false,
        only_new: true,
    };
    let none = default_options();

    assert!(!should_consider(&a, &skip, 0, true));
    assert!(should_consider(&a, &skip, 0, false));
    assert!(!should_consider(&a, &fresh, 100, false));
    assert!(should_consider(&a, &fresh, 50, false));
    assert!(should_consider(&a, &none, 100, true));
}

#[test]
fn only_new_includes_attestation_at_exact_start_point() {
    let options = PyArbitrateOptions {
        skip_arbitrated: false,
        only_new: true,
    };
    let mut session = ArbitrationSession::new(options, 100, "0xsub8".to_string());
    // Created at the start point itself: at-or-after, so it is considered.
    assert!(session.deliver(att("0xedge", 100), false));
}

#[test]
fn arbitration_request_identifiers_are_checked_first() {
    let uid = "0x0101010101010101010101010101010101010101010101010101010101010101";
    let oracle = "0x2222222222222222222222222222222222222222";
    let (uid_bytes, oracle_bytes) = validate_arbitration_request(uid, oracle).unwrap();
    assert_eq!(uid_bytes.len(), 32);
    assert_eq!(oracle_bytes, vec![0x22u8; 20]);

    assert_eq!(
        validate_arbitration_request("0x1234", oracle).unwrap_err(),
        CodecError::MalformedInput
    );
    assert_eq!(
        validate_arbitration_request(uid, "not an address").unwrap_err(),
        CodecError::MalformedInput
    );
}
