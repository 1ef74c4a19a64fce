pub use crate::model::{
    CreateFeedback, CreateProblem, CreateSubmission, Feedback, FileInfo, Problem, Submission,
    SubmissionStatus,
};

use crate::error::SubmError;
use crate::hash::{content_hash, content_hash_spec};
use crate::ledger::{
    feedback_of_row, feedbacks_among, id_limit, Attachment, FeedbackRow, FileRow, Ledger,
    SubmissionRow, Upload,
};
use crate::ledger_lemmas::{
    lemma_add_feedback, lemma_attach, lemma_create_problem, lemma_empty_wf,
    lemma_feedbacks_among_empty, lemma_feedbacks_among_push, lemma_files_among_empty,
    lemma_files_among_push, lemma_index_of_hash, lemma_store_file,
};
use crate::model::{
    derive_status, feedback_views, file_views, is_valid_grade, problem_views, submission_views,
    text_of, valid_grade, FeedbackView, FileView,
};
use vstd::prelude::*;
use vstd::slice::slice_to_vec;
use vstd::string::StringExecFns;

verus! {

struct StoredFile {
    info: FileInfo,
    content: Vec<u8>,
}

struct SubmissionRecord {
    id: i64,
    comment: String,
    problem: i64,
}

struct AttachmentRecord {
    submission: i64,
    file: i64,
}

struct FeedbackRecord {
    id: i64,
    submission: i64,
    grade: i64,
    message: Option<String>,
}

impl StoredFile {
    spec fn row(self) -> FileRow {
        FileRow { info: self.info@, content: self.content@ }
    }
}

impl SubmissionRecord {
    spec fn row(self) -> SubmissionRow {
        SubmissionRow { id: self.id as int, comment: self.comment@, problem: self.problem as int }
    }
}

impl AttachmentRecord {
    spec fn row(self) -> Attachment {
        Attachment { submission: self.submission as int, file: self.file as int }
    }
}

impl FeedbackRecord {
    spec fn row(self) -> FeedbackRow {
        FeedbackRow {
            id: self.id as int,
            submission: self.submission as int,
            grade: self.grade as int,
            message: text_of(self.message),
        }
    }
}

/// The ledger and its blob store, held in memory. Its view is the `Ledger`
/// that the operations' contracts speak of. `new` makes a well-formed
/// ledger and every operation keeps it so.
pub struct SubmDb {
    database: String,
    uploads_dir: String,
    problems: Vec<Problem>,
    files: Vec<StoredFile>,
    submissions: Vec<SubmissionRecord>,
    attachments: Vec<AttachmentRecord>,
    feedbacks: Vec<FeedbackRecord>,
}

impl View for SubmDb {
    type V = Ledger;

    closed spec fn view(&self) -> Ledger {
        Ledger {
            problems: Seq::new(self.problems@.len(), |i: int| self.problems@[i]@),
            files: Seq::new(self.files@.len(), |i: int| self.files@[i].row()),
            submissions: Seq::new(self.submissions@.len(), |i: int| self.submissions@[i].row()),
            attachments: Seq::new(self.attachments@.len(), |i: int| self.attachments@[i].row()),
            feedbacks: Seq::new(self.feedbacks@.len(), |i: int| self.feedbacks@[i].row()),
        }
    }
}

/// The uploads that a list of named contents stands for, in order.
pub open spec fn upload_views(files: Seq<(String, Vec<u8>)>) -> Seq<Upload> {
    Seq::new(files.len(), |i: int| Upload { name: files[i].0@, content: files[i].1@ })
}

/// An operation's outcome with the identifier as a mathematical integer.
pub open spec fn outcome_view(outcome: Result<i64, SubmError>) -> Result<int, SubmError> {
    match outcome {
        Ok(id) => Ok(id as int),
        Err(e) => Err(e),
    }
}

/// Whether a table with `len` rows can take one more.
fn has_room(len: usize) -> (room: bool)
    ensures
        room == (len < id_limit()),
{
    (len as u64) < 0x7fff_ffff_ffff_ffff
}

impl SubmDb {
    /// Where the database is kept, as given to `new`.
    pub closed spec fn database_spec(&self) -> Seq<char> {
        self.database@
    }

    /// The directory that blobs are kept in, as given to `new`.
    pub closed spec fn uploads_dir_spec(&self) -> Seq<char> {
        self.uploads_dir@
    }

    /// An empty store that remembers where its database and its blobs are
    /// kept.
    pub fn new(s: &str, uploads_dir: &str) -> (db: SubmDb)
        ensures
            db@ == Ledger::empty(),
            db@.wf(),
            db.database_spec() == s@,
            db.uploads_dir_spec() == uploads_dir@,
    {
        proof {
            lemma_empty_wf();
        }
        let db = SubmDb {
            database: s.to_owned(),
            uploads_dir: uploads_dir.to_owned(),
            problems: Vec::new(),
            files: Vec::new(),
            submissions: Vec::new(),
            attachments: Vec::new(),
            feedbacks: Vec::new(),
        };
        assert(db@ =~= Ledger::empty());
        db
    }

    /// Records a problem and returns its identifier, the next in line.
    /// Fails with `GenericError`, recording nothing, only when no
    /// identifier is left.
    pub fn create_problem(&mut self, problem: CreateProblem) -> (outcome: Result<i64, SubmError>)
        requires
            old(self)@.wf(),
        ensures
            final(self)@.wf(),
            final(self).database_spec() == old(self).database_spec(),
            final(self).uploads_dir_spec() == old(self).uploads_dir_spec(),
            old(self)@.problems.len() < id_limit() ==> {
                &&& outcome == Ok::<i64, SubmError>((old(self)@.problems.len() + 1) as i64)
                &&& final(self)@ == old(self)@.create_problem(problem.name@, problem.desc@)
            },
            old(self)@.problems.len() >= id_limit() ==> {
                &&& outcome == Err::<i64, SubmError>(SubmError::GenericError)
                &&& final(self)@ == old(self)@
            },
    {
        if !has_room(self.problems.len()) {
            return Err(SubmError::GenericError);
        }
        let id = (self.problems.len() as u64 + 1) as i64;
        proof {
            lemma_create_problem(self@, problem.name@, problem.desc@);
        }
        self.problems.push(Problem { id, name: problem.name, desc: problem.desc });
        assert(self@ =~= old(self)@.create_problem(problem.name@, problem.desc@));
        Ok(id)
    }

    /// All problems, in the order of their identifiers.
    pub fn get_problems(&self) -> (outcome: Result<Vec<Problem>, SubmError>)
        ensures
            outcome matches Ok(problems) && problem_views(problems@) == self@.problems,
    {
        let mut problems: Vec<Problem> = Vec::new();
        let mut i: usize = 0;
        while i < self.problems.len()
            invariant
                i <= self.problems@.len(),
                problems@.len() == i,
                forall|j: int| 0 <= j < i ==> (#[trigger] problems@[j])@ == self.problems@[j]@,
            decreases self.problems@.len() - i,
        {
            let p = &self.problems[i];
            problems.push(Problem { id: p.id, name: p.name.clone(), desc: p.desc.clone() });
            i = i + 1;
        }
        assert(problem_views(problems@) =~= self@.problems);
        Ok(problems)
    }

    /// The problem with identifier `id`, or `None` if there is none.
    pub fn get_problem_by_id(&self, id: i64) -> (outcome: Result<Option<Problem>, SubmError>)
        ensures
            outcome is Ok,
            self@.problem(id as int) matches Some(found) ==> outcome matches Ok(Some(p)) && p@
                == found,
            self@.problem(id as int) is None ==> outcome matches Ok(None),
    {
        if 1 <= id && (id as u64) <= (self.problems.len() as u64) {
            let p = &self.problems[(id - 1) as usize];
            Ok(Some(Problem { id: p.id, name: p.name.clone(), desc: p.desc.clone() }))
        } else {
            Ok(None)
        }
    }

    /// The position of the file with hash `hash`, if there is one.
    fn find_file(&self, hash: &String) -> (found: Option<usize>)
        ensures
            found matches Some(i) ==> self@.is_file_at(i as int, hash@),
            found is None ==> !self@.has_hash(hash@),
    {
        let mut i: usize = 0;
        while i < self.files.len()
            invariant
                i <= self.files@.len(),
                forall|j: int| 0 <= j < i ==> !self@.is_file_at(j, hash@),
            decreases self.files@.len() - i,
        {
            if self.files[i].info.hash == *hash {
                return Some(i);
            }
            i = i + 1;
        }
        None
    }

    /// Stores `content` under its hash and makes sure that one file row has
    /// that hash, adding a row named `filename` only if there is none yet.
    /// Returns the hash, 64 lowercase hex digits. Fails with `GenericError`, changing nothing, only
    /// when the content is too long to hash or no identifier is left for a
    /// new row.
    pub fn store_file(&mut self, filename: &str, content: &[u8]) -> (outcome: Result<
        String,
        SubmError,
    >)
        requires
            old(self)@.wf(),
        ensures
            final(self)@.wf(),
            final(self).database_spec() == old(self).database_spec(),
            final(self).uploads_dir_spec() == old(self).uploads_dir_spec(),
            old(self)@.can_store(content@) ==> {
                &&& outcome matches Ok(hash) && hash@ == content_hash_spec(content@) && hash@.len()
                    == 64
                &&& final(self)@ == old(self)@.store_file(filename@, content@)
                &&& final(self)@.holds_once(content_hash_spec(content@))
                &&& final(self)@.blob(content_hash_spec(content@)) == Some(content@)
            },
            !old(self)@.can_store(content@) ==> {
                &&& outcome == Err::<String, SubmError>(SubmError::GenericError)
                &&& final(self)@ == old(self)@
            },
    {
        let hash = match content_hash(content) {
            Some(hash) => hash,
            None => {
                return Err(SubmError::GenericError);
            },
        };
        match self.find_file(&hash) {
            Some(i) => {
                proof {
                    lemma_index_of_hash(self@, i as int, hash@);
                    lemma_store_file(self@, filename@, content@);
                }
                let kept = &self.files[i].info;
                let info = FileInfo { id: kept.id, name: kept.name.clone(), hash: kept.hash.clone() };
                self.files.set(i, StoredFile { info, content: slice_to_vec(content) });
                assert(self@ =~= old(self)@.store_file(filename@, content@));
            },
            None => {
                if !has_room(self.files.len()) {
                    return Err(SubmError::GenericError);
                }
                proof {
                    lemma_store_file(self@, filename@, content@);
                }
                let id = (self.files.len() as u64 + 1) as i64;
                let info = FileInfo { id, name: filename.to_owned(), hash: hash.clone() };
                self.files.push(StoredFile { info, content: slice_to_vec(content) });
                assert(self@ =~= old(self)@.store_file(filename@, content@));
            },
        }
        Ok(hash)
    }

    /// The bytes stored under `hash`. Fails with `FileNotFound` exactly when
    /// nothing is stored under it; the hash is not checked in any other way.
    pub fn get_file_content(&self, hash: &str) -> (outcome: Result<Vec<u8>, SubmError>)
        requires
            self@.wf(),
        ensures
            self@.blob(hash@) matches Some(content) ==> outcome matches Ok(bytes) && bytes@
                == content,
            self@.blob(hash@) is None ==> outcome == Err::<Vec<u8>, SubmError>(
                SubmError::FileNotFound,
            ),
    {
        let wanted = hash.to_owned();
        match self.find_file(&wanted) {
            Some(i) => {
                proof {
                    lemma_index_of_hash(self@, i as int, hash@);
                }
                Ok(slice_to_vec(self.files[i].content.as_slice()))
            },
            None => Err(SubmError::FileNotFound),
        }
    }

    /// Where the database is kept.
    pub fn database(&self) -> (location: &str)
        ensures
            location@ == self.database_spec(),
    {
        self.database.as_str()
    }

    /// The directory that blobs are kept in.
    pub fn uploads_dir(&self) -> (dir: &str)
        ensures
            dir@ == self.uploads_dir_spec(),
    {
        self.uploads_dir.as_str()
    }

    /// The path of the blob with hash `hash`: the uploads directory, a
    /// slash, and the hash, with no extension.
    pub fn blob_path(&self, hash: &str) -> (path: String)
        ensures
            path@ == self.uploads_dir_spec() + seq!['/'] + hash@,
    {
        proof {
            reveal_strlit("/");
        }
        let mut path = self.uploads_dir.clone();
        path.append("/");
        path.append(hash);
        assert("/"@ =~= seq!['/']);
        path
    }

    /// Stores one upload and links it to `submission`. Returns whether it
    /// did; if not, nothing changed.
    fn attach(&mut self, submission: i64, name: &str, content: &[u8]) -> (done: bool)
        requires
            old(self)@.wf(),
            1 <= submission <= old(self)@.submissions.len(),
        ensures
            final(self)@.wf(),
            final(self).database_spec() == old(self).database_spec(),
            final(self).uploads_dir_spec() == old(self).uploads_dir_spec(),
            done == old(self)@.can_store(content@),
            done ==> final(self)@ == old(self)@.attach(
                submission as int,
                Upload { name: name@, content: content@ },
            ),
            !done ==> final(self)@ == old(self)@,
    {
        let ghost upload = Upload { name: name@, content: content@ };
        let hash = match self.store_file(name, content) {
            Ok(hash) => hash,
            Err(_) => {
                return false;
            },
        };
        proof {
            lemma_store_file(old(self)@, name@, content@);
            lemma_attach(old(self)@, submission as int, upload);
        }
        let ghost stored = self@;
        match self.find_file(&hash) {
            Some(i) => {
                proof {
                    lemma_index_of_hash(self@, i as int, hash@);
                }
                let file = self.files[i].info.id;
                self.attachments.push(AttachmentRecord { submission, file });
                assert(self@ =~= old(self)@.attach(submission as int, upload));
                true
            },
            None => {
                proof {
                    let w = choose|w: int| #[trigger]
                        stored.is_file_at(w, hash@) && forall|j: int|
                            stored.is_file_at(j, hash@) ==> j == w;
                    assert(stored.is_file_at(w, hash@));
                }
                false
            },
        }
    }

    /// Records a submission against `problem_id`, then stores each file in
    /// order and links it to the submission. Returns the submission's
    /// identifier when every file was attached. Fails with `GenericError`,
    /// recording nothing, when no identifier is left; fails with
    /// `PartialWrite` at the first file that cannot be stored, and then the
    /// submission and the files before that one stay recorded.
    pub fn create_submission_with_files(
        &mut self,
        problem_id: i64,
        submission: CreateSubmission,
        files: Vec<(String, Vec<u8>)>,
    ) -> (outcome: Result<i64, SubmError>)
        requires
            old(self)@.wf(),
        ensures
            final(self)@.wf(),
            final(self).database_spec() == old(self).database_spec(),
            final(self).uploads_dir_spec() == old(self).uploads_dir_spec(),
            (final(self)@, outcome_view(outcome)) == old(self)@.create_submission_with_files(
                problem_id as int,
                submission.comment@,
                upload_views(files@),
            ),
    {
        if !has_room(self.submissions.len()) {
            return Err(SubmError::GenericError);
        }
        let id = (self.submissions.len() as u64 + 1) as i64;
        let ghost uploads = upload_views(files@);
        let ghost recorded = old(self)@.add_submission(problem_id as int, submission.comment@);
        self.submissions.push(
            SubmissionRecord { id, comment: submission.comment, problem: problem_id },
        );
        assert(self@ =~= recorded);
        assert(uploads.skip(0) =~= uploads);
        let mut i: usize = 0;
        while i < files.len()
            invariant
                i <= files@.len(),
                uploads == upload_views(files@),
                old(self)@.submissions.len() < id_limit(),
                id == old(self)@.submissions.len() + 1,
                recorded == old(self)@.add_submission(problem_id as int, submission.comment@),
                self@.wf(),
                1 <= id <= self@.submissions.len(),
                self.database_spec() == old(self).database_spec(),
                self.uploads_dir_spec() == old(self).uploads_dir_spec(),
                self@.attach_all(id as int, uploads.skip(i as int)) == recorded.attach_all(
                    id as int,
                    uploads,
                ),
            decreases files@.len() - i,
        {
            let ghost before = self@;
            let ghost rest = uploads.skip(i as int);
            assert(rest.len() > 0 && rest[0] == uploads[i as int]);
            assert(rest.drop_first() =~= uploads.skip(i + 1));
            let done = self.attach(id, files[i].0.as_str(), files[i].1.as_slice());
            assert(before.attach_all(id as int, rest) == if done {
                self@.attach_all(id as int, uploads.skip(i + 1))
            } else {
                (before, false)
            });
            if !done {
                return Err(SubmError::PartialWrite);
            }
            i = i + 1;
        }
        Ok(id)
    }

    /// The files attached to the submission `submission_id`, one per
    /// attachment, in the order in which they were attached.
    fn get_submission_files(&self, submission_id: i64) -> (files: Vec<FileInfo>)
        requires
            self@.wf(),
        ensures
            file_views(files@) == self@.files_of(submission_id as int),
    {
        let stored = self.files.len();
        let mut files: Vec<FileInfo> = Vec::new();
        let mut k: usize = 0;
        proof {
            lemma_files_among_empty(self@, submission_id as int);
            assert(self@.attachments.take(0) =~= Seq::<Attachment>::empty());
            assert(file_views(files@) =~= Seq::<FileView>::empty());
        }
        while k < self.attachments.len()
            invariant
                self@.wf(),
                stored == self.files@.len(),
                k <= self.attachments@.len(),
                file_views(files@) == self@.files_among(
                    self@.attachments.take(k as int),
                    submission_id as int,
                ),
            decreases self.attachments@.len() - k,
        {
            let link = &self.attachments[k];
            proof {
                assert(self@.attachments[k as int] == link.row());
                assert(self@.attachments.take(k + 1) =~= self@.attachments.take(k as int).push(
                    link.row(),
                ));
                lemma_files_among_push(
                    self@,
                    self@.attachments.take(k as int),
                    link.row(),
                    submission_id as int,
                );
            }
            if link.submission == submission_id {
                let kept = &self.files[(link.file - 1) as usize].info;
                let ghost earlier = file_views(files@);
                files.push(FileInfo { id: kept.id, name: kept.name.clone(), hash: kept.hash.clone() });
                assert(file_views(files@) =~= earlier.push(self@.files[link.file - 1].info));
            }
            k = k + 1;
        }
        assert(self@.attachments.take(k as int) =~= self@.attachments);
        files
    }

    /// The feedback history of the submission `submission_id`, oldest
    /// first.
    fn get_submission_feedbacks(&self, submission_id: i64) -> (feedbacks: Vec<Feedback>)
        requires
            self@.wf(),
        ensures
            feedback_views(feedbacks@) == self@.feedbacks_of(submission_id as int),
    {
        let mut feedbacks: Vec<Feedback> = Vec::new();
        let mut k: usize = 0;
        proof {
            lemma_feedbacks_among_empty(submission_id as int);
            assert(self@.feedbacks.take(0) =~= Seq::<FeedbackRow>::empty());
            assert(feedback_views(feedbacks@) =~= Seq::<FeedbackView>::empty());
        }
        while k < self.feedbacks.len()
            invariant
                k <= self.feedbacks@.len(),
                feedback_views(feedbacks@) == feedbacks_among(
                    self@.feedbacks.take(k as int),
                    submission_id as int,
                ),
            decreases self.feedbacks@.len() - k,
        {
            let entry = &self.feedbacks[k];
            proof {
                assert(self@.feedbacks[k as int] == entry.row());
                assert(self@.feedbacks.take(k + 1) =~= self@.feedbacks.take(k as int).push(
                    entry.row(),
                ));
                lemma_feedbacks_among_push(
                    self@.feedbacks.take(k as int),
                    entry.row(),
                    submission_id as int,
                );
            }
            if entry.submission == submission_id {
                let ghost earlier = feedback_views(feedbacks@);
                let message = match &entry.message {
                    Some(text) => Some(text.clone()),
                    None => None,
                };
                feedbacks.push(Feedback { id: entry.id, grade: entry.grade, message });
                assert(feedback_views(feedbacks@) =~= earlier.push(
                    feedback_of_row(entry.row()),
                ));
            }
            k = k + 1;
        }
        assert(self@.feedbacks.take(k as int) =~= self@.feedbacks);
        feedbacks
    }

    /// The submission at position `i` with its files and derived status.
    fn hydrate(&self, i: usize) -> (submission: Submission)
        requires
            self@.wf(),
            i < self@.submissions.len(),
        ensures
            submission@ == self@.hydrate(self@.submissions[i as int]),
    {
        let row = &self.submissions[i];
        let files = self.get_submission_files(row.id);
        let feedbacks = self.get_submission_feedbacks(row.id);
        let status = derive_status(feedbacks);
        Submission { id: row.id, comment: row.comment.clone(), problem: row.problem, files, status }
    }

    /// All submissions, the most recent first, each with its files and its
    /// derived status.
    pub fn get_submissions(&self) -> (outcome: Result<Vec<Submission>, SubmError>)
        requires
            self@.wf(),
        ensures
            outcome matches Ok(submissions) && submission_views(submissions@)
                == self@.submissions_newest_first(),
    {
        let n = self.submissions.len();
        let mut submissions: Vec<Submission> = Vec::new();
        let mut i: usize = 0;
        while i < n
            invariant
                self@.wf(),
                n == self@.submissions.len(),
                i <= n,
                submissions@.len() == i,
                forall|j: int|
                    0 <= j < i ==> (#[trigger] submissions@[j])@ == self@.hydrate(
                        self@.submissions[n - 1 - j],
                    ),
            decreases n - i,
        {
            submissions.push(self.hydrate(n - 1 - i));
            i = i + 1;
        }
        assert(submission_views(submissions@) =~= self@.submissions_newest_first());
        Ok(submissions)
    }

    /// The submission with identifier `id`, with its files and its derived
    /// status, or `None` if there is none.
    pub fn get_submission_by_id(&self, id: i64) -> (outcome: Result<Option<Submission>, SubmError>)
        requires
            self@.wf(),
        ensures
            outcome is Ok,
            self@.submission(id as int) matches Some(found) ==> outcome matches Ok(Some(s)) && s@
                == found,
            self@.submission(id as int) is None ==> outcome matches Ok(None),
    {
        if 1 <= id && (id as u64) <= (self.submissions.len() as u64) {
            Ok(Some(self.hydrate((id - 1) as usize)))
        } else {
            Ok(None)
        }
    }

    /// Records feedback for `submission_id`, with its message as given or
    /// with none, and returns the feedback's identifier. A grade other than
    /// 0 or 1 fails with `ValidationError`;
    /// with a valid grade the call fails, with `GenericError`, only when no
    /// identifier is left. A failed call records nothing. Feedback is only
    /// ever added: no earlier entry is changed.
    pub fn create_feedback(&mut self, submission_id: i64, feedback: CreateFeedback) -> (outcome:
        Result<i64, SubmError>)
        requires
            old(self)@.wf(),
        ensures
            final(self)@.wf(),
            final(self).database_spec() == old(self).database_spec(),
            final(self).uploads_dir_spec() == old(self).uploads_dir_spec(),
            !valid_grade(feedback.grade as int) ==> {
                &&& outcome == Err::<i64, SubmError>(SubmError::ValidationError)
                &&& final(self)@ == old(self)@
            },
            valid_grade(feedback.grade as int) && old(self)@.feedbacks.len() >= id_limit() ==> {
                &&& outcome == Err::<i64, SubmError>(SubmError::GenericError)
                &&& final(self)@ == old(self)@
            },
            valid_grade(feedback.grade as int) && old(self)@.feedbacks.len() < id_limit() ==> {
                &&& outcome == Ok::<i64, SubmError>((old(self)@.feedbacks.len() + 1) as i64)
                &&& final(self)@ == old(self)@.add_feedback(
                    submission_id as int,
                    feedback.grade as int,
                    text_of(feedback.message),
                )
                &&& final(self)@.feedbacks_of(submission_id as int) == old(self)@.feedbacks_of(
                    submission_id as int,
                ).push(
                    FeedbackView {
                        id: old(self)@.feedbacks.len() as int + 1,
                        grade: feedback.grade as int,
                        message: text_of(feedback.message),
                    },
                )
            },
    {
        if !is_valid_grade(feedback.grade) {
            return Err(SubmError::ValidationError);
        }
        if !has_room(self.feedbacks.len()) {
            return Err(SubmError::GenericError);
        }
        proof {
            lemma_add_feedback(
                self@,
                submission_id as int,
                feedback.grade as int,
                text_of(feedback.message),
            );
        }
        let id = (self.feedbacks.len() as u64 + 1) as i64;
        self.feedbacks.push(
            FeedbackRecord {
                id,
                submission: submission_id,
                grade: feedback.grade,
                message: feedback.message,
            },
        );
        assert(self@ =~= old(self)@.add_feedback(
            submission_id as int,
            feedback.grade as int,
            text_of(feedback.message),
        ));
        Ok(id)
    }
}

} // verus!
