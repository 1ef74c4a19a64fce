use crate::db::{upload_views, SubmDb};
use crate::error::SubmError;
use crate::ledger::{id_limit, Upload};
use crate::model::{text_of, valid_grade, CreateFeedback, CreateSubmission};
use vstd::prelude::*;
use vstd::slice::slice_to_vec;
use vstd::string::{StrSliceExecFns, StringExecFns};
use vstd::utf8::{decode_utf8, valid_utf8};

verus! {

/// One field of a submitted form, already decoded: the field's name, the
/// file name that came with it, if any, and its bytes.
#[derive(Debug, PartialEq, Eq)]
pub struct FormField {
    pub name: String,
    pub filename: Option<String>,
    pub data: Vec<u8>,
}

/// What a submission form says: the comment, and the files in the order in
/// which the form gave them.
#[derive(Debug, PartialEq, Eq)]
pub struct SubmissionForm {
    pub comment: String,
    pub files: Vec<(String, Vec<u8>)>,
}

/// A form field as the contracts see it.
pub struct FieldView {
    pub name: Seq<char>,
    pub filename: Option<Seq<char>>,
    pub data: Seq<u8>,
}

impl View for FormField {
    type V = FieldView;

    open spec fn view(&self) -> FieldView {
        FieldView { name: self.name@, filename: text_of(self.filename), data: self.data@ }
    }
}

/// The views of a list of fields, in order.
pub open spec fn field_views(fields: Seq<FormField>) -> Seq<FieldView> {
    Seq::new(fields.len(), |i: int| fields[i]@)
}

/// Whether a field carries the comment: its name is `comment`.
pub open spec fn is_comment_field(name: Seq<char>) -> bool {
    name == "comment"@
}

/// Whether a field carries a file: its name starts with `file`.
pub open spec fn is_file_field(name: Seq<char>) -> bool {
    name.len() >= 4 && name.subrange(0, 4) == "file"@
}

/// The text that bytes stand for: their UTF-8 decoding, or nothing if
/// they are not UTF-8.
pub open spec fn text_or_empty(data: Seq<u8>) -> Seq<char> {
    if valid_utf8(data) {
        decode_utf8(data)
    } else {
        Seq::empty()
    }
}

/// The text that bytes encode, if they are valid UTF-8.
pub open spec fn decoded(data: Seq<u8>) -> Option<Seq<char>> {
    if valid_utf8(data) {
        Some(decode_utf8(data))
    } else {
        None
    }
}

/// The name an upload goes by: the file name given with it, or `unknown`.
pub open spec fn upload_name(filename: Option<Seq<char>>) -> Seq<char> {
    match filename {
        Some(name) => name,
        None => "unknown"@,
    }
}

/// The upload that a file field stands for.
pub open spec fn upload_of(field: FieldView) -> Upload {
    Upload { name: upload_name(field.filename), content: field.data }
}

/// The comment of a form: the text of its last comment field, or nothing
/// if it has none.
pub open spec fn form_comment(fields: Seq<FieldView>) -> Seq<char>
    decreases fields.len(),
{
    if fields.len() == 0 {
        Seq::empty()
    } else if is_comment_field(fields.last().name) {
        text_or_empty(fields.last().data)
    } else {
        form_comment(fields.drop_last())
    }
}

/// The uploads of a form: its file fields, in order.
pub open spec fn form_uploads(fields: Seq<FieldView>) -> Seq<Upload> {
    fields.filter(|f: FieldView| is_file_field(f.name)).map_values(|f: FieldView| upload_of(f))
}

/// Calls `String::from_utf8`. Trusted: the result is the text that the
/// bytes encode when they are valid UTF-8, and nothing when they are not.
#[verifier::external_body]
fn decode_text(data: Vec<u8>) -> (text: Option<String>)
    ensures
        text_of(text) == decoded(data@),
{
    String::from_utf8(data).ok()
}

/// Whether `name` is `comment`.
fn names_comment(name: &String) -> (yes: bool)
    ensures
        yes == is_comment_field(name@),
{
    *name == String::from_str("comment")
}

/// Whether `name` starts with `file`.
fn names_file(name: &String) -> (yes: bool)
    ensures
        yes == is_file_field(name@),
{
    proof {
        reveal_strlit("file");
    }
    let text = name.as_str();
    if text.unicode_len() < 4 {
        return false;
    }
    let yes = text.get_char(0) == 'f' && text.get_char(1) == 'i' && text.get_char(2) == 'l'
        && text.get_char(3) == 'e';
    proof {
        if yes {
            assert(name@.subrange(0, 4) =~= "file"@);
        } else {
            let head = name@.subrange(0, 4);
            assert(head[0] == name@[0] && head[1] == name@[1] && head[2] == name@[2] && head[3]
                == name@[3]);
        }
    }
    yes
}

/// No field is both the comment and a file.
pub proof fn lemma_comment_is_no_file(name: Seq<char>)
    requires
        is_comment_field(name),
    ensures
        !is_file_field(name),
{
    reveal_strlit("comment");
    reveal_strlit("file");
    if is_file_field(name) {
        assert(name.subrange(0, 4)[0] == name[0]);
    }
}

/// Reading one more field adds its upload if it is a file field, and
/// nothing otherwise.
proof fn lemma_form_uploads_push(fields: Seq<FieldView>, field: FieldView)
    ensures
        form_uploads(fields.push(field)) == if is_file_field(field.name) {
            form_uploads(fields).push(upload_of(field))
        } else {
            form_uploads(fields)
        },
{
    let pred = |f: FieldView| is_file_field(f.name);
    assert(fields.push(field).drop_last() =~= fields);
    reveal_with_fuel(Seq::filter, 2);
    assert(fields.push(field).filter(pred) == if pred(field) {
        fields.filter(pred).push(field)
    } else {
        fields.filter(pred)
    });
    if is_file_field(field.name) {
        assert(form_uploads(fields.push(field)) =~= form_uploads(fields).push(upload_of(field)));
    }
}

/// A form without fields has no uploads.
proof fn lemma_form_uploads_empty()
    ensures
        form_uploads(Seq::<FieldView>::empty()) == Seq::<Upload>::empty(),
{
    assert(form_uploads(Seq::<FieldView>::empty()) =~= Seq::<Upload>::empty());
}

/// Reads a submission form. A field named `comment` gives the comment, as
/// text if its bytes are UTF-8 and as the empty text if not; of several
/// the last one counts. A field whose name starts with `file` gives a
/// file, named by the file name that came with it or `unknown`. Other
/// fields are passed over.
pub fn read_form(fields: &Vec<FormField>) -> (form: SubmissionForm)
    ensures
        form.comment@ == form_comment(field_views(fields@)),
        upload_views(form.files@) == form_uploads(field_views(fields@)),
{
    let ghost all = field_views(fields@);
    let mut comment = String::new();
    let mut files: Vec<(String, Vec<u8>)> = Vec::new();
    let mut i: usize = 0;
    proof {
        lemma_form_uploads_empty();
        assert(all.take(0) =~= Seq::<FieldView>::empty());
        assert(upload_views(files@) =~= Seq::<Upload>::empty());
    }
    while i < fields.len()
        invariant
            i <= fields@.len(),
            all == field_views(fields@),
            comment@ == form_comment(all.take(i as int)),
            upload_views(files@) == form_uploads(all.take(i as int)),
        decreases fields@.len() - i,
    {
        let field = &fields[i];
        proof {
            assert(all[i as int] == field@);
            assert(all.take(i + 1) =~= all.take(i as int).push(field@));
            assert(all.take(i + 1).drop_last() =~= all.take(i as int));
            lemma_form_uploads_push(all.take(i as int), field@);
            if is_comment_field(field@.name) {
                lemma_comment_is_no_file(field@.name);
            }
        }
        if names_comment(&field.name) {
            comment = match decode_text(slice_to_vec(field.data.as_slice())) {
                Some(text) => text,
                None => String::new(),
            };
        } else if names_file(&field.name) {
            let name = match &field.filename {
                Some(name) => name.clone(),
                None => String::from_str("unknown"),
            };
            let ghost earlier = upload_views(files@);
            files.push((name, slice_to_vec(field.data.as_slice())));
            assert(upload_views(files@) =~= earlier.push(upload_of(field@)));
        }
        i = i + 1;
    }
    assert(all.take(i as int) =~= all);
    SubmissionForm { comment, files }
}

/// What a request came to: `None` when what it was made against does not
/// exist, else the operation's outcome, with the identifier as a
/// mathematical integer.
pub open spec fn request_view(outcome: Result<Option<i64>, SubmError>) -> Option<
    Result<int, SubmError>,
> {
    match outcome {
        Ok(Some(id)) => Some(Ok(id as int)),
        Ok(None) => None,
        Err(e) => Some(Err(e)),
    }
}

/// Handles a request to submit to `problem_id`: reads the form, and if the
/// problem exists creates the submission with the form's comment and
/// files. `Ok(None)` says that there is no such problem; nothing is
/// recorded then.
pub fn create_submission(db: &mut SubmDb, problem_id: i64, fields: &Vec<FormField>) -> (outcome:
    Result<Option<i64>, SubmError>)
    requires
        old(db)@.wf(),
    ensures
        final(db)@.wf(),
        final(db).database_spec() == old(db).database_spec(),
        final(db).uploads_dir_spec() == old(db).uploads_dir_spec(),
        old(db)@.problem(problem_id as int) is None ==> {
            &&& outcome == Ok::<Option<i64>, SubmError>(None)
            &&& final(db)@ == old(db)@
        },
        old(db)@.problem(problem_id as int) is Some ==> (final(db)@, request_view(outcome)) == ({
            let (after, made) = old(db)@.create_submission_with_files(
                problem_id as int,
                form_comment(field_views(fields@)),
                form_uploads(field_views(fields@)),
            );
            (after, Some(made))
        }),
{
    let form = read_form(fields);
    match db.get_problem_by_id(problem_id) {
        Ok(Some(_)) => {},
        Ok(None) => {
            return Ok(None);
        },
        Err(e) => {
            return Err(e);
        },
    }
    let submission = CreateSubmission { comment: form.comment };
    match db.create_submission_with_files(problem_id, submission, form.files) {
        Ok(id) => Ok(Some(id)),
        Err(e) => Err(e),
    }
}

/// Handles a request to grade `submission_id`: if the submission exists,
/// records the feedback as `SubmDb::create_feedback` does. `Ok(None)` says
/// that there is no such submission; nothing is recorded then, whatever
/// the grade.
pub fn create_feedback(db: &mut SubmDb, submission_id: i64, feedback: CreateFeedback) -> (outcome:
    Result<Option<i64>, SubmError>)
    requires
        old(db)@.wf(),
    ensures
        final(db)@.wf(),
        final(db).database_spec() == old(db).database_spec(),
        final(db).uploads_dir_spec() == old(db).uploads_dir_spec(),
        old(db)@.submission(submission_id as int) is None ==> {
            &&& outcome == Ok::<Option<i64>, SubmError>(None)
            &&& final(db)@ == old(db)@
        },
        old(db)@.submission(submission_id as int) is Some && !valid_grade(feedback.grade as int)
            ==> {
            &&& outcome == Err::<Option<i64>, SubmError>(SubmError::ValidationError)
            &&& final(db)@ == old(db)@
        },
        old(db)@.submission(submission_id as int) is Some && valid_grade(feedback.grade as int)
            && old(db)@.feedbacks.len() >= id_limit() ==> {
            &&& outcome == Err::<Option<i64>, SubmError>(SubmError::GenericError)
            &&& final(db)@ == old(db)@
        },
        old(db)@.submission(submission_id as int) is Some && valid_grade(feedback.grade as int)
            && old(db)@.feedbacks.len() < id_limit() ==> {
            &&& outcome == Ok::<Option<i64>, SubmError>(
                Some((old(db)@.feedbacks.len() + 1) as i64),
            )
            &&& final(db)@ == old(db)@.add_feedback(
                submission_id as int,
                feedback.grade as int,
                text_of(feedback.message),
            )
        },
{
    match db.get_submission_by_id(submission_id) {
        Ok(Some(_)) => {},
        Ok(None) => {
            return Ok(None);
        },
        Err(e) => {
            return Err(e);
        },
    }
    match db.create_feedback(submission_id, feedback) {
        Ok(id) => Ok(Some(id)),
        Err(e) => Err(e),
    }
}

} // verus!
