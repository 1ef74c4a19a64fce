use submission::api::{create_feedback, create_submission, read_form, FormField, SubmissionForm};
use submission::db::{CreateFeedback, CreateProblem, SubmDb};
use submission::error::SubmError;

fn field(name: &str, filename: Option<&str>, data: &[u8]) -> FormField {
    FormField { name: name.to_string(), filename: filename.map(|f| f.to_string()), data: data.to_vec() }
}

fn with_problem() -> SubmDb {
    let mut db = SubmDb::new(":memory:", "uploads");
    db.create_problem(CreateProblem { name: "P".to_string(), desc: "D".to_string() }).unwrap();
    db
}

#[test]
fn empty_form_has_no_comment_and_no_files() {
    assert_eq!(read_form(&vec![]), SubmissionForm { comment: String::new(), files: vec![] });
}

#[test]
fn form_gives_comment_and_files_in_order() {
    let form = read_form(&vec![
        field("file1", Some("a.txt"), b"X"),
        field("comment", None, b"hello"),
        field("file2", Some("b.txt"), b"Y"),
    ]);
    assert_eq!(
        form,
        SubmissionForm {
            comment: "hello".to_string(),
            files: vec![("a.txt".to_string(), b"X".to_vec()), ("b.txt".to_string(), b"Y".to_vec())],
        }
    );
}

#[test]
fn file_without_a_name_is_called_unknown() {
    let form = read_form(&vec![field("file", None, b"X")]);
    assert_eq!(form.files, vec![("unknown".to_string(), b"X".to_vec())]);
}

#[test]
fn file_fields_are_those_whose_name_starts_with_file() {
    let form = read_form(&vec![
        field("file", Some("1"), b"1"),
        field("files[]", Some("2"), b"2"),
        field("fil", Some("3"), b"3"),
        field("File", Some("4"), b"4"),
        field("myfile", Some("5"), b"5"),
        field("", Some("6"), b"6"),
        field("fileé", Some("7"), b"7"),
        field("filé", Some("9"), b"9"),
        field("comments", Some("8"), b"8"),
    ]);
    let names: Vec<&str> = form.files.iter().map(|f| f.0.as_str()).collect();
    assert_eq!(names, vec!["1", "2", "7"]);
    assert_eq!(form.comment, "");
}

#[test]
fn last_comment_field_counts() {
    let form = read_form(&vec![field("comment", None, b"one"), field("comment", None, b"two")]);
    assert_eq!(form.comment, "two");
}

#[test]
fn comment_that_is_not_utf8_is_empty() {
    let form = read_form(&vec![field("comment", None, b"fine"), field("comment", None, &[0xff, 0x41])]);
    assert_eq!(form.comment, "");
    let form = read_form(&vec![field("comment", None, &[0xc3])]);
    assert_eq!(form.comment, "");
}

#[test]
fn comment_is_decoded_as_utf8() {
    let form = read_form(&vec![field("comment", None, "héllo ✓".as_bytes())]);
    assert_eq!(form.comment, "héllo ✓");
    assert_eq!(form.comment.chars().count(), 7);
}

#[test]
fn comment_field_with_a_file_name_is_still_the_comment() {
    let form = read_form(&vec![field("comment", Some("c.txt"), b"text")]);
    assert_eq!(form.comment, "text");
    assert_eq!(form.files, vec![]);
}

#[test]
fn submitting_to_a_missing_problem_records_nothing() {
    let mut db = with_problem();
    let fields = vec![field("comment", None, b"hi"), field("file", Some("a"), b"X")];
    assert_eq!(create_submission(&mut db, 999, &fields), Ok(None));
    assert_eq!(db.get_submissions().unwrap(), vec![]);
    assert_eq!(
        db.get_file_content("4b68ab3847feda7d6c62c1fbcbeebfa35eab7351ed5e78f4ddadea5df64b8015"),
        Err(SubmError::FileNotFound)
    );
}

#[test]
fn submitting_to_a_problem_creates_the_submission() {
    let mut db = with_problem();
    let fields = vec![
        field("comment", None, b"hi"),
        field("file", Some("a"), b"X"),
        field("other", None, b"ignored"),
    ];
    assert_eq!(create_submission(&mut db, 1, &fields), Ok(Some(1)));
    let made = db.get_submission_by_id(1).unwrap().unwrap();
    assert_eq!(made.comment, "hi");
    assert_eq!(made.problem, 1);
    assert_eq!(made.files.len(), 1);
    assert_eq!(made.files[0].name, "a");
    assert_eq!(db.get_file_content(&made.files[0].hash), Ok(b"X".to_vec()));
}

#[test]
fn grading_a_missing_submission_records_nothing() {
    let mut db = with_problem();
    assert_eq!(create_feedback(&mut db, 999, CreateFeedback { grade: 1, message: None }), Ok(None));
    assert_eq!(create_feedback(&mut db, 999, CreateFeedback { grade: 2, message: None }), Ok(None));
    let id = db
        .create_submission_with_files(1, submission::db::CreateSubmission { comment: String::new() }, vec![])
        .unwrap();
    assert_eq!(create_feedback(&mut db, id, CreateFeedback { grade: 1, message: None }), Ok(Some(1)));
}

#[test]
fn grading_with_an_invalid_grade_is_a_validation_error() {
    let mut db = with_problem();
    assert_eq!(create_submission(&mut db, 1, &vec![]), Ok(Some(1)));
    assert_eq!(
        create_feedback(&mut db, 1, CreateFeedback { grade: 2, message: None }),
        Err(SubmError::ValidationError)
    );
    assert_eq!(db.get_submission_by_id(1).unwrap().unwrap().status.feedbacks, vec![]);
}
