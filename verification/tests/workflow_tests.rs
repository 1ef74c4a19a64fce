use submission::api::create_feedback;
use submission::db::{CreateFeedback, CreateProblem, CreateSubmission, SubmDb};
use submission::error::SubmError;

#[test]
fn test_full_api_workflow() {
    let mut db = SubmDb::new(":memory:", "uploads");

    let problem_id = db
        .create_problem(CreateProblem {
            name: "Hello World Problem".to_string(),
            desc: "Write a program that prints Hello World".to_string(),
        })
        .expect("Should have problem ID");

    let problems = db.get_problems().unwrap();
    assert_eq!(problems.len(), 1);

    let problem = db.get_problem_by_id(problem_id).unwrap().unwrap();
    assert_eq!(problem.name, "Hello World Problem");
    assert_eq!(problem.desc, "Write a program that prints Hello World");

    let submission = CreateSubmission { comment: "My test submission".to_string() };
    let files = vec![
        ("test.py".to_string(), b"print('Hello World')".to_vec()),
        ("readme.txt".to_string(), b"This is a test submission".to_vec()),
    ];
    let submission_id = db
        .create_submission_with_files(problem_id, submission, files)
        .expect("Should create submission");

    let submissions = db.get_submissions().unwrap();
    assert_eq!(submissions.len(), 1);

    let submission = db.get_submission_by_id(submission_id).unwrap().unwrap();
    assert_eq!(submission.comment, "My test submission");
    assert_eq!(submission.problem, problem_id);
    assert_eq!(submission.files.len(), 2);

    let feedback1_id = create_feedback(&mut db, submission_id, CreateFeedback { grade: 0, message: None })
        .unwrap()
        .expect("Should have feedback ID");
    let feedback2_id = create_feedback(&mut db, submission_id, CreateFeedback { grade: 1, message: None })
        .unwrap()
        .expect("Should have feedback ID");
    assert_eq!((feedback1_id, feedback2_id), (1, 2));

    let with_feedback = db.get_submission_by_id(submission_id).unwrap().unwrap();
    assert_eq!(with_feedback.status.accepted, true);
    assert_eq!(with_feedback.status.feedbacks.len(), 2);

    let file_hash = &with_feedback.files[0].hash;
    assert_eq!(file_hash, "58f2adabc7548a53c2e48dea2627190d847adf29d31d59d348b87f4ee0962fb3");
    let file_content = db.get_file_content(file_hash).unwrap();
    let content_str = String::from_utf8(file_content).expect("Should be valid UTF-8");
    assert_eq!(content_str, "print('Hello World')");

    let invalid = create_feedback(&mut db, submission_id, CreateFeedback { grade: 2, message: None });
    assert_eq!(invalid, Err(SubmError::ValidationError));
}

#[test]
fn test_submission_rejection() {
    let mut db = SubmDb::new(":memory:", "uploads");

    let problem_id = db
        .create_problem(CreateProblem {
            name: "Test Problem".to_string(),
            desc: "A test problem".to_string(),
        })
        .expect("Should have problem ID");

    let submission = CreateSubmission { comment: "Test submission for rejection".to_string() };
    let files = vec![("test.py".to_string(), b"print('test')".to_vec())];
    let submission_id = db
        .create_submission_with_files(problem_id, submission, files)
        .expect("Should create submission");

    let first = create_feedback(&mut db, submission_id, CreateFeedback { grade: 0, message: None });
    assert!(matches!(first, Ok(Some(_))));
    let second = create_feedback(&mut db, submission_id, CreateFeedback { grade: 0, message: None });
    assert!(matches!(second, Ok(Some(_))));

    let submission = db.get_submission_by_id(submission_id).unwrap().unwrap();
    assert_eq!(submission.status.accepted, false);
    assert_eq!(submission.status.feedbacks.len(), 2);
    for feedback in &submission.status.feedbacks {
        assert_eq!(feedback.grade, 0);
    }
}

#[test]
fn test_error_cases() {
    let mut db = SubmDb::new(":memory:", "uploads");

    assert_eq!(db.get_problem_by_id(999), Ok(None));
    assert_eq!(db.get_submission_by_id(999), Ok(None));
    assert_eq!(create_feedback(&mut db, 999, CreateFeedback { grade: 1, message: None }), Ok(None));
}
