use crate::error::SubmError;
use crate::hash::{content_hash_spec, hashable_len};
use crate::model::{
    status_of, valid_grade, FeedbackView, FileView, ProblemView, SubmissionView,
};
use vstd::prelude::*;

verus! {

/// A stored file: its row, and the bytes last stored under its hash.
pub struct FileRow {
    pub info: FileView,
    pub content: Seq<u8>,
}

/// A submission as recorded, before its files and status are looked up.
pub struct SubmissionRow {
    pub id: int,
    pub comment: Seq<char>,
    pub problem: int,
}

/// The link between a submission and one of its files.
pub struct Attachment {
    pub submission: int,
    pub file: int,
}

/// A feedback entry as recorded.
pub struct FeedbackRow {
    pub id: int,
    pub submission: int,
    pub grade: int,
    pub message: Option<Seq<char>>,
}

/// A file to attach: the name it is uploaded under, and its bytes.
pub struct Upload {
    pub name: Seq<char>,
    pub content: Seq<u8>,
}

/// The state of the ledger and of the blob store: five tables, each in the
/// order in which its rows were recorded.
#[verifier::ext_equal]
pub struct Ledger {
    pub problems: Seq<ProblemView>,
    pub files: Seq<FileRow>,
    pub submissions: Seq<SubmissionRow>,
    pub attachments: Seq<Attachment>,
    pub feedbacks: Seq<FeedbackRow>,
}

/// The largest identifier a row can have.
pub open spec fn id_limit() -> int {
    0x7fff_ffff_ffff_ffff
}

/// The feedback entry that a recorded row is read back as: the message is
/// handed back as it was given, a missing one as missing.
pub open spec fn feedback_of_row(row: FeedbackRow) -> FeedbackView {
    FeedbackView { id: row.id, grade: row.grade, message: row.message }
}

/// Those of `rows` that belong to `submission`, in order, as they are read
/// back.
pub open spec fn feedbacks_among(rows: Seq<FeedbackRow>, submission: int) -> Seq<FeedbackView> {
    rows.filter(|f: FeedbackRow| f.submission == submission).map_values(
        |f: FeedbackRow| feedback_of_row(f),
    )
}

impl Ledger {
    /// The ledger with no rows.
    pub open spec fn empty() -> Ledger {
        Ledger {
            problems: Seq::empty(),
            files: Seq::empty(),
            submissions: Seq::empty(),
            attachments: Seq::empty(),
            feedbacks: Seq::empty(),
        }
    }

    /// Identifiers count rows from 1 in each table; a file's hash is the hash
    /// of its content and belongs to no other file; attachments link rows
    /// that exist; grades are 0 or 1.
    pub open spec fn wf(self) -> bool {
        &&& self.problems.len() <= id_limit()
        &&& forall|i: int| 0 <= i < self.problems.len() ==> (#[trigger] self.problems[i]).id == i + 1
        &&& self.files.len() <= id_limit()
        &&& forall|i: int|
            0 <= i < self.files.len() ==> {
                &&& (#[trigger] self.files[i]).info.id == i + 1
                &&& hashable_len(self.files[i].content.len())
                &&& self.files[i].info.hash == content_hash_spec(self.files[i].content)
            }
        &&& forall|i: int, j: int|
            0 <= i < self.files.len() && 0 <= j < self.files.len() && (#[trigger] self.files[i]).info.hash
                == (#[trigger] self.files[j]).info.hash ==> i == j
        &&& self.submissions.len() <= id_limit()
        &&& forall|i: int|
            0 <= i < self.submissions.len() ==> (#[trigger] self.submissions[i]).id == i + 1
        &&& forall|k: int|
            0 <= k < self.attachments.len() ==> {
                &&& 1 <= (#[trigger] self.attachments[k]).submission <= self.submissions.len()
                &&& 1 <= self.attachments[k].file <= self.files.len()
            }
        &&& self.feedbacks.len() <= id_limit()
        &&& forall|i: int|
            0 <= i < self.feedbacks.len() ==> {
                &&& (#[trigger] self.feedbacks[i]).id == i + 1
                &&& valid_grade(self.feedbacks[i].grade)
            }
    }

    /// Whether row `i` of the file table has hash `hash`.
    pub open spec fn is_file_at(self, i: int, hash: Seq<char>) -> bool {
        0 <= i < self.files.len() && self.files[i].info.hash == hash
    }

    /// Whether some file has hash `hash`.
    pub open spec fn has_hash(self, hash: Seq<char>) -> bool {
        exists|i: int| self.is_file_at(i, hash)
    }

    /// The position of a file with hash `hash`, if there is one.
    pub open spec fn index_of_hash(self, hash: Seq<char>) -> int {
        choose|i: int| self.is_file_at(i, hash)
    }

    /// Whether exactly one file row has hash `hash`.
    pub open spec fn holds_once(self, hash: Seq<char>) -> bool {
        exists|i: int|
            #[trigger] self.is_file_at(i, hash) && forall|j: int|
                self.is_file_at(j, hash) ==> j == i
    }

    /// The file rows, in the order of their identifiers.
    pub open spec fn file_rows(self) -> Seq<FileView> {
        Seq::new(self.files.len(), |i: int| self.files[i].info)
    }

    /// The bytes stored under `hash`, if any.
    pub open spec fn blob(self, hash: Seq<char>) -> Option<Seq<u8>> {
        if self.has_hash(hash) {
            Some(self.files[self.index_of_hash(hash)].content)
        } else {
            None
        }
    }

    /// The problem with identifier `id`, if any.
    pub open spec fn problem(self, id: int) -> Option<ProblemView> {
        if 1 <= id <= self.problems.len() {
            Some(self.problems[id - 1])
        } else {
            None
        }
    }

    /// The ledger after a problem is created.
    pub open spec fn create_problem(self, name: Seq<char>, desc: Seq<char>) -> Ledger {
        Ledger {
            problems: self.problems.push(ProblemView { id: self.problems.len() as int + 1, name, desc }),
            ..self
        }
    }

    /// Whether `content` can be stored: it can be hashed, and its file row
    /// exists or can still be given an identifier.
    pub open spec fn can_store(self, content: Seq<u8>) -> bool {
        &&& hashable_len(content.len())
        &&& self.has_hash(content_hash_spec(content)) || self.files.len() < id_limit()
    }

    /// The ledger after `content` is stored under the name `name`. The bytes
    /// are written under the content's hash in every case; a file row is
    /// added only if no row has that hash yet, so a row keeps the name it was
    /// first stored under.
    pub open spec fn store_file(self, name: Seq<char>, content: Seq<u8>) -> Ledger {
        let hash = content_hash_spec(content);
        if self.has_hash(hash) {
            let i = self.index_of_hash(hash);
            Ledger {
                files: self.files.update(i, FileRow { info: self.files[i].info, content }),
                ..self
            }
        } else {
            Ledger {
                files: self.files.push(
                    FileRow { info: FileView { id: self.files.len() as int + 1, name, hash }, content },
                ),
                ..self
            }
        }
    }

    /// The identifier of the file with hash `hash`.
    pub open spec fn file_id(self, hash: Seq<char>) -> int {
        self.files[self.index_of_hash(hash)].info.id
    }

    /// The ledger after `upload` is stored and linked to `submission`.
    pub open spec fn attach(self, submission: int, upload: Upload) -> Ledger {
        let stored = self.store_file(upload.name, upload.content);
        let file = stored.file_id(content_hash_spec(upload.content));
        Ledger { attachments: stored.attachments.push(Attachment { submission, file }), ..stored }
    }

    /// The ledger after the uploads are attached to `submission` one by one
    /// in order, and whether all of them were. The first upload that cannot
    /// be stored ends the run: what was attached before it stays.
    pub open spec fn attach_all(self, submission: int, uploads: Seq<Upload>) -> (Ledger, bool)
        decreases uploads.len(),
    {
        if uploads.len() == 0 {
            (self, true)
        } else if !self.can_store(uploads[0].content) {
            (self, false)
        } else {
            self.attach(submission, uploads[0]).attach_all(submission, uploads.drop_first())
        }
    }

    /// The ledger after a submission row is recorded.
    pub open spec fn add_submission(self, problem: int, comment: Seq<char>) -> Ledger {
        Ledger {
            submissions: self.submissions.push(
                SubmissionRow { id: self.submissions.len() as int + 1, comment, problem },
            ),
            ..self
        }
    }

    /// The ledger after a submission with files is created, and the outcome:
    /// the new identifier, `GenericError` with nothing recorded when there is
    /// no identifier left, or `PartialWrite` when the submission was recorded
    /// and one of its files could not be stored.
    pub open spec fn create_submission_with_files(
        self,
        problem: int,
        comment: Seq<char>,
        uploads: Seq<Upload>,
    ) -> (Ledger, Result<int, SubmError>) {
        if self.submissions.len() >= id_limit() {
            (self, Err(SubmError::GenericError))
        } else {
            let id = self.submissions.len() as int + 1;
            let (after, complete) = self.add_submission(problem, comment).attach_all(id, uploads);
            (
                after,
                if complete {
                    Ok(id)
                } else {
                    Err(SubmError::PartialWrite)
                },
            )
        }
    }

    /// The ledger after feedback is recorded for `submission`, with the
    /// message as given, if any.
    pub open spec fn add_feedback(
        self,
        submission: int,
        grade: int,
        message: Option<Seq<char>>,
    ) -> Ledger {
        Ledger {
            feedbacks: self.feedbacks.push(
                FeedbackRow { id: self.feedbacks.len() as int + 1, submission, grade, message },
            ),
            ..self
        }
    }

    /// The files that those of `attachments` that belong to `submission`
    /// link to, one per attachment, in order.
    pub open spec fn files_among(self, attachments: Seq<Attachment>, submission: int) -> Seq<
        FileView,
    > {
        attachments.filter(|a: Attachment| a.submission == submission).map_values(
            |a: Attachment| self.files[a.file - 1].info,
        )
    }

    /// The files attached to `submission`, one per attachment, in the order
    /// in which they were attached.
    pub open spec fn files_of(self, submission: int) -> Seq<FileView> {
        self.files_among(self.attachments, submission)
    }

    /// The feedback history of `submission`, oldest first.
    pub open spec fn feedbacks_of(self, submission: int) -> Seq<FeedbackView> {
        feedbacks_among(self.feedbacks, submission)
    }

    /// A submission row with its files and its derived status.
    pub open spec fn hydrate(self, row: SubmissionRow) -> SubmissionView {
        SubmissionView {
            id: row.id,
            comment: row.comment,
            problem: row.problem,
            files: self.files_of(row.id),
            status: status_of(self.feedbacks_of(row.id)),
        }
    }

    /// The submission with identifier `id`, if any.
    pub open spec fn submission(self, id: int) -> Option<SubmissionView> {
        if 1 <= id <= self.submissions.len() {
            Some(self.hydrate(self.submissions[id - 1]))
        } else {
            None
        }
    }

    /// All submissions, the most recent first.
    pub open spec fn submissions_newest_first(self) -> Seq<SubmissionView> {
        Seq::new(
            self.submissions.len(),
            |i: int| self.hydrate(self.submissions[self.submissions.len() - 1 - i]),
        )
    }
}

} // verus!
