use vstd::prelude::*;

verus! {

/// A problem that submissions are made against.
#[derive(Debug, PartialEq, Eq)]
pub struct Problem {
    pub id: i64,
    pub name: String,
    pub desc: String,
}

/// A stored file: the name it was first uploaded under and its content hash.
#[derive(Debug, PartialEq, Eq)]
pub struct FileInfo {
    pub id: i64,
    pub name: String,
    pub hash: String,
}

/// One grading pass on a submission: grade 1 accepts, grade 0 rejects.
#[derive(Debug, PartialEq, Eq)]
pub struct Feedback {
    pub id: i64,
    pub grade: i64,
    pub message: Option<String>,
}

/// What a submission's feedback history amounts to.
#[derive(Debug, PartialEq, Eq)]
pub struct SubmissionStatus {
    pub accepted: bool,
    pub feedbacks: Vec<Feedback>,
}

/// A submission with its attached files and its derived status.
#[derive(Debug, PartialEq, Eq)]
pub struct Submission {
    pub id: i64,
    pub comment: String,
    pub problem: i64,
    pub files: Vec<FileInfo>,
    pub status: SubmissionStatus,
}

/// The data of a problem to create.
#[derive(Debug, PartialEq, Eq)]
pub struct CreateProblem {
    pub name: String,
    pub desc: String,
}

/// The data of a submission to create, apart from its files.
#[derive(Debug, PartialEq, Eq)]
pub struct CreateSubmission {
    pub comment: String,
}

/// The data of a feedback entry to create.
#[derive(Debug, PartialEq, Eq)]
pub struct CreateFeedback {
    pub grade: i64,
    pub message: Option<String>,
}

/// A problem as the contracts see it.
pub struct ProblemView {
    pub id: int,
    pub name: Seq<char>,
    pub desc: Seq<char>,
}

/// A file row as the contracts see it.
pub struct FileView {
    pub id: int,
    pub name: Seq<char>,
    pub hash: Seq<char>,
}

/// A feedback entry as the contracts see it.
pub struct FeedbackView {
    pub id: int,
    pub grade: int,
    pub message: Option<Seq<char>>,
}

/// A derived status as the contracts see it.
pub struct StatusView {
    pub accepted: bool,
    pub feedbacks: Seq<FeedbackView>,
}

/// A submission with its files and status, as the contracts see it.
pub struct SubmissionView {
    pub id: int,
    pub comment: Seq<char>,
    pub problem: int,
    pub files: Seq<FileView>,
    pub status: StatusView,
}

/// The text of an optional string.
pub open spec fn text_of(message: Option<String>) -> Option<Seq<char>> {
    match message {
        Some(text) => Some(text@),
        None => None,
    }
}

impl View for Problem {
    type V = ProblemView;

    open spec fn view(&self) -> ProblemView {
        ProblemView { id: self.id as int, name: self.name@, desc: self.desc@ }
    }
}

impl View for FileInfo {
    type V = FileView;

    open spec fn view(&self) -> FileView {
        FileView { id: self.id as int, name: self.name@, hash: self.hash@ }
    }
}

impl View for Feedback {
    type V = FeedbackView;

    open spec fn view(&self) -> FeedbackView {
        FeedbackView { id: self.id as int, grade: self.grade as int, message: text_of(self.message) }
    }
}

/// The views of a list of files, in order.
pub open spec fn file_views(files: Seq<FileInfo>) -> Seq<FileView> {
    Seq::new(files.len(), |i: int| files[i]@)
}

/// The views of a list of feedback entries, in order.
pub open spec fn feedback_views(feedbacks: Seq<Feedback>) -> Seq<FeedbackView> {
    Seq::new(feedbacks.len(), |i: int| feedbacks[i]@)
}

/// The views of a list of problems, in order.
pub open spec fn problem_views(problems: Seq<Problem>) -> Seq<ProblemView> {
    Seq::new(problems.len(), |i: int| problems[i]@)
}

impl View for SubmissionStatus {
    type V = StatusView;

    open spec fn view(&self) -> StatusView {
        StatusView { accepted: self.accepted, feedbacks: feedback_views(self.feedbacks@) }
    }
}

impl View for Submission {
    type V = SubmissionView;

    open spec fn view(&self) -> SubmissionView {
        SubmissionView {
            id: self.id as int,
            comment: self.comment@,
            problem: self.problem as int,
            files: file_views(self.files@),
            status: self.status@,
        }
    }
}

/// The views of a list of submissions, in order.
pub open spec fn submission_views(submissions: Seq<Submission>) -> Seq<SubmissionView> {
    Seq::new(submissions.len(), |i: int| submissions[i]@)
}

/// Whether a grade is one that feedback may carry.
pub open spec fn valid_grade(grade: int) -> bool {
    grade == 0 || grade == 1
}

/// Whether a feedback history, oldest first, leaves the submission accepted:
/// there is feedback, and the most recent entry accepts.
pub open spec fn accepted_by(feedbacks: Seq<FeedbackView>) -> bool {
    feedbacks.len() > 0 && feedbacks.last().grade == 1
}

/// The status that a feedback history, oldest first, amounts to.
pub open spec fn status_of(feedbacks: Seq<FeedbackView>) -> StatusView {
    StatusView { accepted: accepted_by(feedbacks), feedbacks }
}

/// Derives a submission's status from its feedback history, oldest first.
/// The history is handed back whole and in order.
pub fn derive_status(feedbacks: Vec<Feedback>) -> (status: SubmissionStatus)
    ensures
        status.feedbacks == feedbacks,
        status@ == status_of(feedback_views(feedbacks@)),
{
    let n = feedbacks.len();
    let accepted = n > 0 && feedbacks[n - 1].grade == 1;
    SubmissionStatus { accepted, feedbacks }
}

/// Whether `grade` is one that feedback may carry.
pub fn is_valid_grade(grade: i64) -> (valid: bool)
    ensures
        valid == valid_grade(grade as int),
{
    grade == 0 || grade == 1
}

/// With no feedback a submission is not accepted.
pub proof fn lemma_no_feedback_not_accepted()
    ensures
        status_of(Seq::<FeedbackView>::empty()) == (StatusView {
            accepted: false,
            feedbacks: Seq::<FeedbackView>::empty(),
        }),
{
}

/// The most recent feedback alone decides: whatever came before it, a
/// history is accepted exactly when its last entry has grade 1.
pub proof fn lemma_last_feedback_decides(earlier: Seq<FeedbackView>, last: FeedbackView)
    ensures
        accepted_by(earlier.push(last)) == (last.grade == 1),
        status_of(earlier.push(last)).feedbacks == earlier.push(last),
{
}

} // verus!
