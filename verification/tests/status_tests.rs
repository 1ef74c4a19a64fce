use submission::error::SubmError;
use submission::model::{derive_status, is_valid_grade, Feedback, SubmissionStatus};

fn feedback(id: i64, grade: i64) -> Feedback {
    Feedback { id, grade, message: None }
}

#[test]
fn no_feedback_is_not_accepted() {
    assert_eq!(derive_status(vec![]), SubmissionStatus { accepted: false, feedbacks: vec![] });
}

#[test]
fn reject_then_accept_is_accepted() {
    let status = derive_status(vec![feedback(1, 0), feedback(2, 1)]);
    assert!(status.accepted);
    assert_eq!(status.feedbacks, vec![feedback(1, 0), feedback(2, 1)]);
}

#[test]
fn accept_then_reject_is_not_accepted() {
    let status = derive_status(vec![feedback(1, 1), feedback(2, 0)]);
    assert!(!status.accepted);
    assert_eq!(status.feedbacks, vec![feedback(1, 1), feedback(2, 0)]);
}

#[test]
fn last_feedback_wins_over_a_majority() {
    assert!(derive_status(vec![feedback(1, 0), feedback(2, 0), feedback(3, 1)]).accepted);
    assert!(!derive_status(vec![feedback(1, 1), feedback(2, 1), feedback(3, 0)]).accepted);
}

#[test]
fn single_feedback_decides() {
    assert!(derive_status(vec![feedback(1, 1)]).accepted);
    assert!(!derive_status(vec![feedback(1, 0)]).accepted);
}

#[test]
fn only_grade_one_accepts() {
    assert!(!derive_status(vec![feedback(1, 2)]).accepted);
    assert!(!derive_status(vec![feedback(1, -1)]).accepted);
}

#[test]
fn history_is_handed_back_with_its_messages() {
    let history = vec![
        Feedback { id: 4, grade: 0, message: Some("no tests".to_string()) },
        Feedback { id: 9, grade: 1, message: None },
    ];
    let status = derive_status(vec![
        Feedback { id: 4, grade: 0, message: Some("no tests".to_string()) },
        Feedback { id: 9, grade: 1, message: None },
    ]);
    assert_eq!(status.feedbacks, history);
}

#[test]
fn valid_grades_are_zero_and_one() {
    assert!(is_valid_grade(0));
    assert!(is_valid_grade(1));
    assert!(!is_valid_grade(2));
    assert!(!is_valid_grade(-1));
    assert!(!is_valid_grade(i64::MAX));
    assert!(!is_valid_grade(i64::MIN));
}

#[test]
fn errors_are_named_by_their_variant() {
    assert_eq!(SubmError::FileNotFound.name(), "FileNotFound");
    assert_eq!(SubmError::GenericError.name(), "GenericError");
    assert_eq!(SubmError::ValidationError.name(), "ValidationError");
    assert_eq!(SubmError::PartialWrite.name(), "PartialWrite");
}
