use submission::db::{
    CreateFeedback, CreateProblem, CreateSubmission, Feedback, FileInfo, Problem, SubmDb,
};
use submission::error::SubmError;

const HASH_X: &str = "4b68ab3847feda7d6c62c1fbcbeebfa35eab7351ed5e78f4ddadea5df64b8015";
const HASH_Y: &str = "18f5384d58bcb1bba0bcd9e6a6781d1a6ac2cc280c330ecbab6cb7931b721552";

fn fresh() -> SubmDb {
    SubmDb::new(":memory:", "uploads")
}

fn problem(name: &str, desc: &str) -> CreateProblem {
    CreateProblem { name: name.to_string(), desc: desc.to_string() }
}

fn comment(text: &str) -> CreateSubmission {
    CreateSubmission { comment: text.to_string() }
}

fn grade(grade: i64) -> CreateFeedback {
    CreateFeedback { grade, message: None }
}

/// The file rows that a submission attaching `probe` sees.
fn files_seen(db: &mut SubmDb, probe: Vec<(String, Vec<u8>)>) -> Vec<FileInfo> {
    let id = db.create_submission_with_files(1, comment("probe"), probe).unwrap();
    db.get_submission_by_id(id).unwrap().unwrap().files
}

#[test]
fn new_store_is_empty_and_remembers_its_locations() {
    let db = SubmDb::new("file.sqlite", "uploads");
    assert_eq!(db.database(), "file.sqlite");
    assert_eq!(db.uploads_dir(), "uploads");
    assert_eq!(db.get_problems().unwrap(), vec![]);
    assert_eq!(db.get_submissions().unwrap(), vec![]);
}

#[test]
fn blob_path_is_directory_slash_hash() {
    let db = SubmDb::new(":memory:", "/var/uploads");
    assert_eq!(db.blob_path(HASH_X), format!("/var/uploads/{}", HASH_X));
    assert_eq!(db.blob_path(""), "/var/uploads/");
    assert_eq!(SubmDb::new(":memory:", "").blob_path("ab"), "/ab");
}

#[test]
fn create_problem_then_get_it() {
    let mut db = fresh();
    assert_eq!(db.create_problem(problem("P", "D")), Ok(1));
    assert_eq!(
        db.get_problem_by_id(1),
        Ok(Some(Problem { id: 1, name: "P".to_string(), desc: "D".to_string() }))
    );
    assert_eq!(db.get_problem_by_id(999), Ok(None));
    assert_eq!(db.get_problem_by_id(0), Ok(None));
    assert_eq!(db.get_problem_by_id(-1), Ok(None));
    assert_eq!(db.get_problem_by_id(2), Ok(None));
}

#[test]
fn problems_are_listed_in_creation_order() {
    let mut db = fresh();
    assert_eq!(db.create_problem(problem("first", "a")), Ok(1));
    assert_eq!(db.create_problem(problem("second", "b")), Ok(2));
    assert_eq!(db.create_problem(problem("first", "a")), Ok(3));
    let listed = db.get_problems().unwrap();
    let ids: Vec<i64> = listed.iter().map(|p| p.id).collect();
    let names: Vec<&str> = listed.iter().map(|p| p.name.as_str()).collect();
    assert_eq!(ids, vec![1, 2, 3]);
    assert_eq!(names, vec!["first", "second", "first"]);
}

#[test]
fn storing_equal_bytes_twice_gives_one_hash_and_one_file_row() {
    let mut db = fresh();
    let b1 = b"X".to_vec();
    let b2 = vec![b'X'];
    let h1 = db.store_file("a.txt", &b1).unwrap();
    let h2 = db.store_file("b.txt", &b2).unwrap();
    assert_eq!(h1, HASH_X);
    assert_eq!(h2, HASH_X);
    let seen = files_seen(
        &mut db,
        vec![("c.txt".to_string(), b"X".to_vec()), ("d.txt".to_string(), b"Y".to_vec())],
    );
    assert_eq!(
        seen,
        vec![
            FileInfo { id: 1, name: "a.txt".to_string(), hash: HASH_X.to_string() },
            FileInfo { id: 2, name: "d.txt".to_string(), hash: HASH_Y.to_string() },
        ]
    );
}

#[test]
fn storing_distinct_bytes_gives_two_rows_and_two_blobs() {
    let mut db = fresh();
    let hx = db.store_file("same.txt", b"X").unwrap();
    let hy = db.store_file("same.txt", b"Y").unwrap();
    assert_ne!(hx, hy);
    assert_eq!(db.get_file_content(&hx), Ok(b"X".to_vec()));
    assert_eq!(db.get_file_content(&hy), Ok(b"Y".to_vec()));
    let seen = files_seen(
        &mut db,
        vec![("p".to_string(), b"X".to_vec()), ("q".to_string(), b"Y".to_vec())],
    );
    assert_eq!(
        seen,
        vec![
            FileInfo { id: 1, name: "same.txt".to_string(), hash: HASH_X.to_string() },
            FileInfo { id: 2, name: "same.txt".to_string(), hash: HASH_Y.to_string() },
        ]
    );
}

#[test]
fn what_is_stored_is_what_is_fetched() {
    let mut db = fresh();
    let contents: Vec<Vec<u8>> =
        vec![vec![], vec![0], vec![0xff; 300], b"print('Hello World')".to_vec(), (0..=255).collect()];
    for content in &contents {
        let hash = db.store_file("f", content).unwrap();
        assert_eq!(&db.get_file_content(&hash).unwrap(), content);
    }
    for content in &contents {
        let hash = submission::hash::content_hash(content).unwrap();
        assert_eq!(&db.get_file_content(&hash).unwrap(), content);
    }
}

#[test]
fn fetching_an_unknown_hash_is_not_found() {
    let mut db = fresh();
    assert_eq!(db.get_file_content(HASH_X), Err(SubmError::FileNotFound));
    db.store_file("y", b"Y").unwrap();
    assert_eq!(db.get_file_content(HASH_X), Err(SubmError::FileNotFound));
    assert_eq!(db.get_file_content(""), Err(SubmError::FileNotFound));
    assert_eq!(db.get_file_content("../uploads"), Err(SubmError::FileNotFound));
    assert_eq!(db.get_file_content(&HASH_Y.to_uppercase()), Err(SubmError::FileNotFound));
}

#[test]
fn invalid_grade_is_a_validation_error_and_records_nothing() {
    let mut db = fresh();
    db.create_problem(problem("P", "D")).unwrap();
    let sub = db.create_submission_with_files(1, comment("c"), vec![]).unwrap();
    assert_eq!(db.create_feedback(sub, grade(0)), Ok(1));
    let before = db.get_submission_by_id(sub).unwrap().unwrap().status.feedbacks.len();
    assert_eq!(db.create_feedback(sub, grade(2)), Err(SubmError::ValidationError));
    assert_eq!(db.create_feedback(sub, grade(-1)), Err(SubmError::ValidationError));
    assert_eq!(db.create_feedback(999, grade(7)), Err(SubmError::ValidationError));
    let after = db.get_submission_by_id(sub).unwrap().unwrap().status.feedbacks.len();
    assert_eq!(before, 1);
    assert_eq!(after, before);
    assert_eq!(db.create_feedback(sub, grade(1)), Ok(2));
}

#[test]
fn two_uploads_of_the_same_bytes_share_one_file() {
    let mut db = fresh();
    assert_eq!(db.create_problem(problem("P", "D")), Ok(1));
    let id = db
        .create_submission_with_files(
            1,
            comment("hello"),
            vec![("a.txt".to_string(), b"X".to_vec()), ("b.txt".to_string(), b"X".to_vec())],
        )
        .unwrap();
    assert_eq!(id, 1);
    let submission = db.get_submission_by_id(id).unwrap().unwrap();
    assert_eq!(submission.comment, "hello");
    assert_eq!(submission.problem, 1);
    assert_eq!(
        submission.files,
        vec![
            FileInfo { id: 1, name: "a.txt".to_string(), hash: HASH_X.to_string() },
            FileInfo { id: 1, name: "a.txt".to_string(), hash: HASH_X.to_string() },
        ]
    );
    let next = files_seen(&mut db, vec![("y".to_string(), b"Y".to_vec())]);
    assert_eq!(next, vec![FileInfo { id: 2, name: "y".to_string(), hash: HASH_Y.to_string() }]);
}

#[test]
fn submissions_are_listed_newest_first() {
    let mut db = fresh();
    db.create_problem(problem("P", "D")).unwrap();
    assert_eq!(db.create_submission_with_files(1, comment("one"), vec![]), Ok(1));
    assert_eq!(db.create_submission_with_files(1, comment("two"), vec![]), Ok(2));
    assert_eq!(db.create_submission_with_files(1, comment("three"), vec![]), Ok(3));
    let listed = db.get_submissions().unwrap();
    let ids: Vec<i64> = listed.iter().map(|s| s.id).collect();
    let comments: Vec<&str> = listed.iter().map(|s| s.comment.as_str()).collect();
    assert_eq!(ids, vec![3, 2, 1]);
    assert_eq!(comments, vec!["three", "two", "one"]);
}

#[test]
fn latest_feedback_decides_acceptance() {
    let mut db = fresh();
    db.create_problem(problem("P", "D")).unwrap();
    let id = db.create_submission_with_files(1, comment("c"), vec![]).unwrap();
    assert!(!db.get_submission_by_id(id).unwrap().unwrap().status.accepted);
    assert_eq!(db.create_feedback(id, grade(0)), Ok(1));
    assert!(!db.get_submission_by_id(id).unwrap().unwrap().status.accepted);
    assert_eq!(db.create_feedback(id, grade(1)), Ok(2));
    assert!(db.get_submission_by_id(id).unwrap().unwrap().status.accepted);
    assert_eq!(db.create_feedback(id, grade(0)), Ok(3));
    let status = db.get_submission_by_id(id).unwrap().unwrap().status;
    assert!(!status.accepted);
    let grades: Vec<i64> = status.feedbacks.iter().map(|f| f.grade).collect();
    let ids: Vec<i64> = status.feedbacks.iter().map(|f| f.id).collect();
    assert_eq!(grades, vec![0, 1, 0]);
    assert_eq!(ids, vec![1, 2, 3]);
}

#[test]
fn feedback_belongs_to_its_own_submission() {
    let mut db = fresh();
    let a = db.create_submission_with_files(1, comment("a"), vec![]).unwrap();
    let b = db.create_submission_with_files(1, comment("b"), vec![]).unwrap();
    assert_eq!(db.create_feedback(a, grade(1)), Ok(1));
    assert_eq!(db.create_feedback(b, grade(0)), Ok(2));
    assert_eq!(db.create_feedback(a, grade(1)), Ok(3));
    let sa = db.get_submission_by_id(a).unwrap().unwrap().status;
    let sb = db.get_submission_by_id(b).unwrap().unwrap().status;
    assert!(sa.accepted);
    assert!(!sb.accepted);
    assert_eq!(sa.feedbacks.iter().map(|f| f.id).collect::<Vec<i64>>(), vec![1, 3]);
    assert_eq!(sb.feedbacks.iter().map(|f| f.id).collect::<Vec<i64>>(), vec![2]);
    let listed = db.get_submissions().unwrap();
    assert_eq!(listed.iter().map(|s| s.status.accepted).collect::<Vec<bool>>(), vec![false, true]);
}

#[test]
fn feedback_message_is_read_back_as_given() {
    let mut db = fresh();
    let id = db.create_submission_with_files(1, comment("c"), vec![]).unwrap();
    db.create_feedback(id, CreateFeedback { grade: 0, message: Some("try again".to_string()) })
        .unwrap();
    db.create_feedback(id, CreateFeedback { grade: 1, message: None }).unwrap();
    db.create_feedback(id, CreateFeedback { grade: 1, message: Some(String::new()) }).unwrap();
    let feedbacks = db.get_submission_by_id(id).unwrap().unwrap().status.feedbacks;
    assert_eq!(feedbacks[0].message, Some("try again".to_string()));
    assert_eq!(feedbacks[1].message, None);
    assert_eq!(feedbacks[2].message, Some(String::new()));
}

#[test]
fn a_missing_message_stays_missing() {
    let mut db = fresh();
    assert_eq!(db.create_problem(problem("P", "D")), Ok(1));
    assert_eq!(db.create_submission_with_files(1, comment("c"), vec![]), Ok(1));
    let a = db.create_feedback(1, CreateFeedback { grade: 1, message: None }).unwrap();
    let b = db
        .create_feedback(1, CreateFeedback { grade: 0, message: Some("fix".into()) })
        .unwrap();
    let feedbacks = db.get_submission_by_id(1).unwrap().unwrap().status.feedbacks;
    assert_eq!(
        feedbacks,
        vec![
            Feedback { id: a, grade: 1, message: None },
            Feedback { id: b, grade: 0, message: Some("fix".to_string()) },
        ]
    );
    let listed = db.get_submissions().unwrap();
    assert_eq!(listed[0].status.feedbacks[0].message, None);
}

#[test]
fn stored_hash_is_64_lowercase_hex_digits_and_fetches_the_content() {
    let mut db = fresh();
    let contents: Vec<Vec<u8>> = vec![vec![], vec![0xff, 0xfe, 0x00], b"plain".to_vec()];
    for content in &contents {
        let hash = db.store_file("any name.bin", content).unwrap();
        assert_eq!(hash.len(), 64);
        assert!(hash.chars().all(|c| c.is_ascii_digit() || ('a'..='f').contains(&c)));
        assert_eq!(Some(hash.clone()), submission::hash::content_hash(content));
        assert_eq!(&db.get_file_content(&hash).unwrap(), content);
    }
}

#[test]
fn a_file_keeps_the_name_it_was_first_stored_under() {
    let mut db = fresh();
    db.create_submission_with_files(1, comment("a"), vec![("first.py".to_string(), b"X".to_vec())])
        .unwrap();
    let second = db
        .create_submission_with_files(1, comment("b"), vec![("later.py".to_string(), b"X".to_vec())])
        .unwrap();
    let files = db.get_submission_by_id(second).unwrap().unwrap().files;
    assert_eq!(files, vec![FileInfo { id: 1, name: "first.py".to_string(), hash: HASH_X.to_string() }]);
}

#[test]
fn a_submission_need_not_name_an_existing_problem() {
    let mut db = fresh();
    assert_eq!(db.create_submission_with_files(42, comment("orphan"), vec![]), Ok(1));
    let submission = db.get_submission_by_id(1).unwrap().unwrap();
    assert_eq!(submission.problem, 42);
    assert_eq!(db.get_submission_by_id(2), Ok(None));
    assert_eq!(db.get_submission_by_id(0), Ok(None));
}

#[test]
fn files_come_back_in_the_order_attached() {
    let mut db = fresh();
    let id = db
        .create_submission_with_files(
            1,
            comment("c"),
            vec![
                ("y".to_string(), b"Y".to_vec()),
                ("x".to_string(), b"X".to_vec()),
                ("y2".to_string(), b"Y".to_vec()),
            ],
        )
        .unwrap();
    let files = db.get_submission_by_id(id).unwrap().unwrap().files;
    let ids: Vec<i64> = files.iter().map(|f| f.id).collect();
    let names: Vec<&str> = files.iter().map(|f| f.name.as_str()).collect();
    assert_eq!(ids, vec![1, 2, 1]);
    assert_eq!(names, vec!["y", "x", "y"]);
}

#[test]
fn a_created_submission_has_one_file_per_upload_with_its_hash() {
    let mut db = fresh();
    let uploads: Vec<(String, Vec<u8>)> = vec![
        ("y".to_string(), b"Y".to_vec()),
        ("x".to_string(), b"X".to_vec()),
        ("again".to_string(), b"Y".to_vec()),
    ];
    let id = db.create_submission_with_files(7, comment("three"), uploads).unwrap();
    let made = db.get_submission_by_id(id).unwrap().unwrap();
    assert_eq!((made.id, made.comment.as_str(), made.problem), (1, "three", 7));
    let hashes: Vec<&str> = made.files.iter().map(|f| f.hash.as_str()).collect();
    assert_eq!(hashes, vec![HASH_Y, HASH_X, HASH_Y]);
    assert_eq!(db.get_file_content(HASH_X), Ok(b"X".to_vec()));
    assert_eq!(db.get_file_content(HASH_Y), Ok(b"Y".to_vec()));
}

#[test]
fn earlier_blobs_keep_their_bytes() {
    let mut db = fresh();
    let hx = db.store_file("x", b"X").unwrap();
    db.create_submission_with_files(1, comment("later"), vec![("y".to_string(), b"Y".to_vec())])
        .unwrap();
    db.store_file("z", b"Z").unwrap();
    db.create_feedback(1, grade(1)).unwrap();
    assert_eq!(db.get_file_content(&hx), Ok(b"X".to_vec()));
}
