//! What is known of a pull request.
use prtop::types::{CiStatus, PrId, ReviewDecision};

#[test]
fn review_decision_none_input() {
    assert_eq!(ReviewDecision::from_str_opt(None), None);
}

#[test]
fn review_decision_known_values() {
    assert_eq!(
        ReviewDecision::from_str_opt(Some("APPROVED")),
        Some(ReviewDecision::Approved)
    );
    assert_eq!(
        ReviewDecision::from_str_opt(Some("CHANGES_REQUESTED")),
        Some(ReviewDecision::ChangesRequested)
    );
    assert_eq!(
        ReviewDecision::from_str_opt(Some("REVIEW_REQUIRED")),
        Some(ReviewDecision::ReviewRequired)
    );
}

#[test]
fn review_decision_unknown_value() {
    assert_eq!(
        ReviewDecision::from_str_opt(Some("FUTURE_DECISION")),
        Some(ReviewDecision::Unknown("FUTURE_DECISION".to_string()))
    );
    assert_eq!(
        ReviewDecision::from_str_opt(Some("")),
        Some(ReviewDecision::Unknown("".to_string()))
    );
}

#[test]
fn pr_id_display() {
    let id = PrId {
        owner: "org".to_string(),
        repo: "repo".to_string(),
        number: 42,
    };
    assert_eq!(id.to_string(), "org/repo#42");
}

// --- CiStatus ---

#[test]
fn ci_status_none_input() {
    assert_eq!(CiStatus::from_str_opt(None), None);
}

#[test]
fn ci_status_known_values() {
    assert_eq!(
        CiStatus::from_str_opt(Some("PENDING")),
        Some(CiStatus::Pending)
    );
    assert_eq!(
        CiStatus::from_str_opt(Some("SUCCESS")),
        Some(CiStatus::Success)
    );
    assert_eq!(
        CiStatus::from_str_opt(Some("FAILURE")),
        Some(CiStatus::Failure)
    );
    assert_eq!(CiStatus::from_str_opt(Some("ERROR")), Some(CiStatus::Error));
    assert_eq!(
        CiStatus::from_str_opt(Some("EXPECTED")),
        Some(CiStatus::Expected)
    );
}

#[test]
fn ci_status_unknown_defaults_to_pending() {
    assert_eq!(
        CiStatus::from_str_opt(Some("WHATEVER")),
        Some(CiStatus::Pending)
    );
}

#[test]
fn ci_status_in_progress() {
    assert!(CiStatus::Pending.is_in_progress());
    assert!(CiStatus::Expected.is_in_progress());
    assert!(!CiStatus::Success.is_in_progress());
    assert!(!CiStatus::Failure.is_in_progress());
    assert!(!CiStatus::Error.is_in_progress());
}

#[test]
fn ci_status_finished() {
    assert!(CiStatus::Success.is_finished());
    assert!(CiStatus::Failure.is_finished());
    assert!(CiStatus::Error.is_finished());
    assert!(!CiStatus::Pending.is_finished());
    assert!(!CiStatus::Expected.is_finished());
}
