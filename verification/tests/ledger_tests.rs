use chat_bridge::ledger::{Ledger, RequestError, SubmitError};

#[test]
fn request_returns_six_alphanumeric_characters() {
    let mut ledger = Ledger::new();
    let code = ledger.request(&"p1".to_string(), false).unwrap();
    assert_eq!(code.len(), 6);
    assert!(code.chars().all(|c| c.is_ascii_alphanumeric()));
}

#[test]
fn request_twice_returns_the_same_code() {
    let mut ledger = Ledger::new();
    let first = ledger.request(&"p1".to_string(), false).unwrap();
    match ledger.request(&"p1".to_string(), false) {
        Err(RequestError::AlreadyPending(existing)) => assert_eq!(existing, first),
        other => panic!("expected the pending code again, got {:?}", other),
    }
}

#[test]
fn request_refused_when_already_linked() {
    let mut ledger = Ledger::new();
    match ledger.request(&"p1".to_string(), true) {
        Err(RequestError::AlreadyVerified) => {}
        other => panic!("expected AlreadyVerified, got {:?}", other),
    }
}

#[test]
fn submit_consumes_the_code_once() {
    let mut ledger = Ledger::new();
    let code = ledger.request(&"p1".to_string(), false).unwrap();
    assert_eq!(ledger.submit(&code).unwrap(), "p1");
    match ledger.submit(&code) {
        Err(SubmitError::NoSuchCode) => {}
        other => panic!("expected NoSuchCode on the second submission, got {:?}", other),
    }
}

#[test]
fn submit_unknown_code_fails() {
    let mut ledger = Ledger::new();
    match ledger.submit(&"zzzzzz".to_string()) {
        Err(SubmitError::NoSuchCode) => {}
        other => panic!("expected NoSuchCode, got {:?}", other),
    }
}

#[test]
fn submit_leaves_other_entries_pending() {
    let mut ledger = Ledger::new();
    let c1 = ledger.request(&"p1".to_string(), false).unwrap();
    let c2 = ledger.request(&"p2".to_string(), false).unwrap();
    if c1 == c2 {
        // A collision in the six-character space: the scenario needs two
        // distinct codes.
        return;
    }
    assert_eq!(ledger.submit(&c1).unwrap(), "p1");
    match ledger.request(&"p2".to_string(), false) {
        Err(RequestError::AlreadyPending(existing)) => assert_eq!(existing, c2),
        other => panic!("expected p2 still pending, got {:?}", other),
    }
}

#[test]
fn abandon_then_request_starts_fresh() {
    let mut ledger = Ledger::new();
    let _first = ledger.request(&"p1".to_string(), false).unwrap();
    ledger.abandon(&"p1".to_string());
    match ledger.request(&"p1".to_string(), false) {
        Ok(_fresh) => {}
        other => panic!("expected a fresh code after abandonment, got {:?}", other),
    }
}

#[test]
fn abandon_without_pending_entry_is_a_no_op() {
    let mut ledger = Ledger::new();
    ledger.abandon(&"p1".to_string());
    assert!(ledger.request(&"p1".to_string(), false).is_ok());
}

#[test]
fn abandoned_code_no_longer_submits() {
    let mut ledger = Ledger::new();
    let code = ledger.request(&"p1".to_string(), false).unwrap();
    ledger.abandon(&"p1".to_string());
    match ledger.submit(&code) {
        Err(SubmitError::NoSuchCode) => {}
        other => panic!("expected NoSuchCode after abandonment, got {:?}", other),
    }
}
