use crate::error::SubmError;
use crate::hash::content_hash_spec;
use crate::ledger::{
    feedback_of_row, feedbacks_among, id_limit, Attachment, FeedbackRow, Ledger, Upload,
};
use crate::model::{valid_grade, FeedbackView, FileView, ProblemView};
use vstd::prelude::*;

verus! {

/// In a well-formed ledger a hash names its row: any row with the hash is
/// the one that `index_of_hash` picks.
pub proof fn lemma_index_of_hash(s: Ledger, i: int, hash: Seq<char>)
    requires
        s.wf(),
        s.is_file_at(i, hash),
    ensures
        s.has_hash(hash),
        s.index_of_hash(hash) == i,
        s.holds_once(hash),
        s.blob(hash) == Some(s.files[i].content),
        s.file_id(hash) == i + 1,
{
    let k = s.index_of_hash(hash);
    assert(s.is_file_at(k, hash));
    assert(s.files[k].info.hash == s.files[i].info.hash);
    assert forall|j: int| s.is_file_at(j, hash) implies j == i by {
        assert(s.files[j].info.hash == s.files[i].info.hash);
    }
}

/// An empty ledger is well formed and holds no blob.
pub proof fn lemma_empty_wf()
    ensures
        Ledger::empty().wf(),
        forall|hash: Seq<char>| Ledger::empty().blob(hash) is None,
{
    assert forall|hash: Seq<char>| Ledger::empty().blob(hash) is None by {
        assert(forall|i: int| !Ledger::empty().is_file_at(i, hash));
    }
}

/// A blob is stored under the hash of its own bytes and under no other:
/// what a hash fetches has that hash, and a hash that no file row has
/// fetches nothing.
pub proof fn lemma_blob_matches_hash(s: Ledger, hash: Seq<char>)
    requires
        s.wf(),
    ensures
        s.blob(hash) matches Some(content) ==> content_hash_spec(content) == hash,
        s.blob(hash) is None <==> !s.has_hash(hash),
{
    if s.has_hash(hash) {
        let i = s.index_of_hash(hash);
        assert(s.is_file_at(i, hash));
    }
}

/// Creating a problem keeps the ledger well formed, gives the problem the
/// next identifier, and leaves the earlier problems as they were.
pub proof fn lemma_create_problem(s: Ledger, name: Seq<char>, desc: Seq<char>)
    requires
        s.wf(),
        s.problems.len() < id_limit(),
    ensures
        s.create_problem(name, desc).wf(),
        s.create_problem(name, desc).problem(s.problems.len() as int + 1) == Some(
            ProblemView { id: s.problems.len() as int + 1, name, desc },
        ),
        forall|id: int|
            1 <= id <= s.problems.len() ==> s.create_problem(name, desc).problem(id) == s.problem(
                id,
            ),
{
}

/// What storing content does: the ledger stays well formed; exactly one file
/// row has the content's hash; the blob under that hash is the content; a
/// row is added only when the hash is new; every other blob stays.
pub proof fn lemma_store_file(s: Ledger, name: Seq<char>, content: Seq<u8>)
    requires
        s.wf(),
        s.can_store(content),
    ensures
        ({
            let hash = content_hash_spec(content);
            let t = s.store_file(name, content);
            &&& t.wf()
            &&& t.holds_once(hash)
            &&& t.blob(hash) == Some(content)
            &&& s.has_hash(hash) ==> t.file_rows() == s.file_rows()
            &&& !s.has_hash(hash) ==> t.file_rows() == s.file_rows().push(
                FileView { id: s.files.len() as int + 1, name, hash },
            )
            &&& s.has_hash(hash) ==> t.file_id(hash) == s.file_id(hash)
            &&& !s.has_hash(hash) ==> t.file_id(hash) == s.files.len() + 1
            &&& 1 <= t.file_id(hash) <= t.files.len()
            &&& forall|other: Seq<char>| other != hash ==> t.blob(other) == s.blob(other)
            &&& forall|i: int|
                0 <= i < s.files.len() ==> (#[trigger] t.files[i]).info == s.files[i].info
        }),
{
    let hash = content_hash_spec(content);
    let t = s.store_file(name, content);
    let at = if s.has_hash(hash) {
        s.index_of_hash(hash)
    } else {
        s.files.len() as int
    };
    if s.has_hash(hash) {
        assert(s.is_file_at(at, hash));
        lemma_index_of_hash(s, at, hash);
        assert forall|i: int| 0 <= i < t.files.len() implies (#[trigger] t.files[i]).info
            == s.files[i].info by {}
        assert(t.file_rows() =~= s.file_rows());
    } else {
        assert forall|j: int| 0 <= j < s.files.len() implies (#[trigger] s.files[j]).info.hash
            != hash by {
            assert(!s.is_file_at(j, hash));
        }
        assert(t.file_rows() =~= s.file_rows().push(
            FileView { id: s.files.len() as int + 1, name, hash },
        ));
    }
    assert(t.wf()) by {
        assert forall|i: int, j: int|
            0 <= i < t.files.len() && 0 <= j < t.files.len() && (#[trigger] t.files[i]).info.hash
                == (#[trigger] t.files[j]).info.hash implies i == j by {
            if i < s.files.len() && j < s.files.len() {
                assert(s.files[i].info.hash == s.files[j].info.hash);
            }
        }
    }
    assert(t.is_file_at(at, hash));
    lemma_index_of_hash(t, at, hash);
    assert forall|other: Seq<char>| other != hash implies t.blob(other) == s.blob(other) by {
        if s.has_hash(other) {
            let k = s.index_of_hash(other);
            assert(s.is_file_at(k, other));
            assert(t.is_file_at(k, other));
            lemma_index_of_hash(s, k, other);
            lemma_index_of_hash(t, k, other);
        } else {
            assert forall|k: int| !t.is_file_at(k, other) by {
                if t.is_file_at(k, other) {
                    assert(s.is_file_at(k, other));
                }
            }
        }
    }
}

/// Attaching an upload keeps the ledger well formed, provided the
/// submission exists and the upload can be stored.
pub proof fn lemma_attach(s: Ledger, submission: int, upload: Upload)
    requires
        s.wf(),
        1 <= submission <= s.submissions.len(),
        s.can_store(upload.content),
    ensures
        s.attach(submission, upload).wf(),
        s.attach(submission, upload).submissions == s.submissions,
        s.attach(submission, upload).problems == s.problems,
        s.attach(submission, upload).feedbacks == s.feedbacks,
        s.attach(submission, upload).attachments.len() == s.attachments.len() + 1,
        s.attach(submission, upload).files.len() >= s.files.len(),
{
    lemma_store_file(s, upload.name, upload.content);
}

/// Attaching a run of uploads keeps the ledger well formed and touches
/// neither the problems, nor the submissions, nor the feedback.
pub proof fn lemma_attach_all(s: Ledger, submission: int, uploads: Seq<Upload>)
    requires
        s.wf(),
        1 <= submission <= s.submissions.len(),
    ensures
        s.attach_all(submission, uploads).0.wf(),
        s.attach_all(submission, uploads).0.submissions == s.submissions,
        s.attach_all(submission, uploads).0.problems == s.problems,
        s.attach_all(submission, uploads).0.feedbacks == s.feedbacks,
        s.attach_all(submission, uploads).1 ==> s.attach_all(submission, uploads).0.attachments.len()
            == s.attachments.len() + uploads.len(),
    decreases uploads.len(),
{
    if uploads.len() > 0 && s.can_store(uploads[0].content) {
        lemma_attach(s, submission, uploads[0]);
        lemma_attach_all(s.attach(submission, uploads[0]), submission, uploads.drop_first());
    }
}

/// Creating a submission with files keeps the ledger well formed. On
/// success the submission has the next identifier and one attachment per
/// upload; when nothing could be recorded the ledger is unchanged.
pub proof fn lemma_create_submission_with_files(
    s: Ledger,
    problem: int,
    comment: Seq<char>,
    uploads: Seq<Upload>,
)
    requires
        s.wf(),
    ensures
        ({
            let (t, outcome) = s.create_submission_with_files(problem, comment, uploads);
            &&& t.wf()
            &&& t.problems == s.problems
            &&& t.feedbacks == s.feedbacks
            &&& outcome == Err::<int, SubmError>(SubmError::GenericError)
                ==> t == s
            &&& outcome is Ok ==> {
                &&& outcome->Ok_0 == s.submissions.len() + 1
                &&& t.submissions == s.add_submission(problem, comment).submissions
                &&& t.attachments.len() == s.attachments.len() + uploads.len()
            }
        }),
{
    if s.submissions.len() < id_limit() {
        let id = s.submissions.len() as int + 1;
        lemma_attach_all(s.add_submission(problem, comment), id, uploads);
    }
}

/// Reading one more feedback row adds it to the history of its own
/// submission and to no other.
pub proof fn lemma_feedbacks_among_push(rows: Seq<FeedbackRow>, row: FeedbackRow, submission: int)
    ensures
        feedbacks_among(rows.push(row), submission) == if row.submission == submission {
            feedbacks_among(rows, submission).push(feedback_of_row(row))
        } else {
            feedbacks_among(rows, submission)
        },
{
    let pred = |f: FeedbackRow| f.submission == submission;
    assert(rows.push(row).drop_last() =~= rows);
    reveal_with_fuel(Seq::filter, 2);
    assert(rows.push(row).filter(pred) == if pred(row) {
        rows.filter(pred).push(row)
    } else {
        rows.filter(pred)
    });
    if row.submission == submission {
        assert(feedbacks_among(rows.push(row), submission) =~= feedbacks_among(
            rows,
            submission,
        ).push(feedback_of_row(row)));
    }
}

/// No rows hold no feedback.
pub proof fn lemma_feedbacks_among_empty(submission: int)
    ensures
        feedbacks_among(Seq::<FeedbackRow>::empty(), submission) == Seq::<FeedbackView>::empty(),
{
    assert(feedbacks_among(Seq::<FeedbackRow>::empty(), submission) =~= Seq::<
        FeedbackView,
    >::empty());
}

/// Reading one more attachment adds its file to the files of its own
/// submission and to those of no other.
pub proof fn lemma_files_among_push(
    s: Ledger,
    attachments: Seq<Attachment>,
    a: Attachment,
    submission: int,
)
    ensures
        s.files_among(attachments.push(a), submission) == if a.submission == submission {
            s.files_among(attachments, submission).push(s.files[a.file - 1].info)
        } else {
            s.files_among(attachments, submission)
        },
{
    let pred = |a: Attachment| a.submission == submission;
    assert(attachments.push(a).drop_last() =~= attachments);
    reveal_with_fuel(Seq::filter, 2);
    assert(attachments.push(a).filter(pred) == if pred(a) {
        attachments.filter(pred).push(a)
    } else {
        attachments.filter(pred)
    });
    if a.submission == submission {
        assert(s.files_among(attachments.push(a), submission) =~= s.files_among(
            attachments,
            submission,
        ).push(s.files[a.file - 1].info));
    }
}

/// No attachments link to no files.
pub proof fn lemma_files_among_empty(s: Ledger, submission: int)
    ensures
        s.files_among(Seq::<Attachment>::empty(), submission) == Seq::<FileView>::empty(),
{
    assert(s.files_among(Seq::<Attachment>::empty(), submission) =~= Seq::<FileView>::empty());
}

/// Recording feedback keeps the ledger well formed, appends to the history
/// of the submission it is for, and leaves every other history as it was.
pub proof fn lemma_add_feedback(s: Ledger, submission: int, grade: int, message: Option<Seq<char>>)
    requires
        s.wf(),
        s.feedbacks.len() < id_limit(),
        valid_grade(grade),
    ensures
        s.add_feedback(submission, grade, message).wf(),
        s.add_feedback(submission, grade, message).feedbacks_of(submission) == s.feedbacks_of(
            submission,
        ).push(
            FeedbackView {
                id: s.feedbacks.len() as int + 1,
                grade,
                message,
            },
        ),
        forall|other: int|
            other != submission ==> s.add_feedback(submission, grade, message).feedbacks_of(other)
                == s.feedbacks_of(other),
        forall|any: int|
            s.add_feedback(submission, grade, message).files_of(any) == s.files_of(any),
{
    let t = s.add_feedback(submission, grade, message);
    let row = t.feedbacks.last();
    assert forall|other: int| other != submission implies t.feedbacks_of(other) == s.feedbacks_of(
        other,
    ) by {
        lemma_feedbacks_among_push(s.feedbacks, row, other);
    }
    lemma_feedbacks_among_push(s.feedbacks, row, submission);
    assert forall|any: int| t.files_of(any) == s.files_of(any) by {
        assert(t.files_of(any) =~= s.files_of(any));
    }
}

/// The most recent feedback decides: right after feedback with grade
/// `grade` is recorded for an existing submission, that submission is
/// accepted exactly when `grade` is 1, whatever its earlier feedback was.
pub proof fn lemma_latest_feedback_decides(
    s: Ledger,
    submission: int,
    grade: int,
    message: Option<Seq<char>>,
)
    requires
        s.wf(),
        s.feedbacks.len() < id_limit(),
        valid_grade(grade),
        1 <= submission <= s.submissions.len(),
    ensures
        s.add_feedback(submission, grade, message).submission(submission) is Some,
        s.add_feedback(submission, grade, message).submission(submission)->0.status.accepted == (grade
            == 1),
        s.add_feedback(submission, grade, message).submission(submission)->0.status.feedbacks.len()
            == s.submission(submission)->0.status.feedbacks.len() + 1,
{
    lemma_add_feedback(s, submission, grade, message);
}

/// Listings follow the identifiers: problems come with identifiers 1, 2, 3
/// and so on, and submissions, the most recent first, with the largest
/// identifier first and each next one smaller by one.
pub proof fn lemma_listing_order(s: Ledger)
    requires
        s.wf(),
    ensures
        forall|i: int| 0 <= i < s.problems.len() ==> (#[trigger] s.problems[i]).id == i + 1,
        s.submissions_newest_first().len() == s.submissions.len(),
        forall|i: int|
            0 <= i < s.submissions.len() ==> (#[trigger] s.submissions_newest_first()[i]).id
                == s.submissions.len() - i,
{
    assert forall|i: int| 0 <= i < s.submissions.len() implies (
    #[trigger] s.submissions_newest_first()[i]).id == s.submissions.len() - i by {
        let row = s.submissions[s.submissions.len() - 1 - i];
        assert(row.id == s.submissions.len() - i);
    }
}

/// Storing the same bytes twice, under any two names, gives the same hash
/// both times and leaves exactly one file row with that hash; the second
/// store adds no row, so the row keeps the first name.
pub proof fn lemma_same_content_stored_once(
    s: Ledger,
    name1: Seq<char>,
    b1: Seq<u8>,
    name2: Seq<char>,
    b2: Seq<u8>,
)
    requires
        s.wf(),
        s.can_store(b1),
        b1 == b2,
    ensures
        content_hash_spec(b1) == content_hash_spec(b2),
        s.store_file(name1, b1).can_store(b2),
        s.store_file(name1, b1).store_file(name2, b2).wf(),
        s.store_file(name1, b1).store_file(name2, b2).holds_once(content_hash_spec(b1)),
        s.store_file(name1, b1).store_file(name2, b2).file_rows() == s.store_file(
            name1,
            b1,
        ).file_rows(),
{
    let hash = content_hash_spec(b1);
    let t = s.store_file(name1, b1);
    lemma_store_file(s, name1, b1);
    assert(t.has_hash(hash)) by {
        let i = choose|i: int| #[trigger]
            t.is_file_at(i, hash) && forall|j: int| t.is_file_at(j, hash) ==> j == i;
        assert(t.is_file_at(i, hash));
    }
    lemma_store_file(t, name2, b2);
}

/// Storing two contents whose hashes differ leaves two file rows, one for
/// each hash, and two blobs, each holding its own content.
pub proof fn lemma_distinct_content_stored_apart(
    s: Ledger,
    name1: Seq<char>,
    b1: Seq<u8>,
    name2: Seq<char>,
    b2: Seq<u8>,
)
    requires
        s.wf(),
        s.can_store(b1),
        s.store_file(name1, b1).can_store(b2),
        content_hash_spec(b1) != content_hash_spec(b2),
    ensures
        ({
            let u = s.store_file(name1, b1).store_file(name2, b2);
            &&& u.wf()
            &&& u.holds_once(content_hash_spec(b1))
            &&& u.holds_once(content_hash_spec(b2))
            &&& u.index_of_hash(content_hash_spec(b1)) != u.index_of_hash(content_hash_spec(b2))
            &&& u.blob(content_hash_spec(b1)) == Some(b1)
            &&& u.blob(content_hash_spec(b2)) == Some(b2)
            &&& u.blob(content_hash_spec(b1)) != u.blob(content_hash_spec(b2))
        }),
{
    let h1 = content_hash_spec(b1);
    let h2 = content_hash_spec(b2);
    let t = s.store_file(name1, b1);
    let u = t.store_file(name2, b2);
    lemma_store_file(s, name1, b1);
    lemma_store_file(t, name2, b2);
    let i = choose|i: int| #[trigger]
        t.is_file_at(i, h1) && forall|j: int| t.is_file_at(j, h1) ==> j == i;
    assert(t.is_file_at(i, h1));
    assert(u.files[i].info == t.files[i].info);
    assert(u.is_file_at(i, h1));
    lemma_index_of_hash(u, i, h1);
    let k = choose|k: int| #[trigger]
        u.is_file_at(k, h2) && forall|j: int| u.is_file_at(j, h2) ==> j == k;
    assert(u.is_file_at(k, h2));
    lemma_index_of_hash(u, k, h2);
}

/// What was stored is what is fetched: after content is stored, the blob
/// under its hash is that content, byte for byte.
pub proof fn lemma_fetch_after_store(s: Ledger, name: Seq<char>, content: Seq<u8>)
    requires
        s.wf(),
        s.can_store(content),
    ensures
        s.store_file(name, content).blob(content_hash_spec(content)) == Some(content),
{
    lemma_store_file(s, name, content);
}

/// What is stored under a hash depends on the file table alone.
pub proof fn lemma_same_files_same_blobs(a: Ledger, b: Ledger, hash: Seq<char>)
    requires
        a.wf(),
        b.wf(),
        a.files == b.files,
    ensures
        a.has_hash(hash) == b.has_hash(hash),
        a.blob(hash) == b.blob(hash),
        a.has_hash(hash) ==> a.file_id(hash) == b.file_id(hash),
{
    if a.has_hash(hash) {
        let i = a.index_of_hash(hash);
        assert(a.is_file_at(i, hash));
        assert(b.is_file_at(i, hash));
        lemma_index_of_hash(a, i, hash);
        lemma_index_of_hash(b, i, hash);
    } else {
        assert forall|k: int| !b.is_file_at(k, hash) by {
            if b.is_file_at(k, hash) {
                assert(a.is_file_at(k, hash));
            }
        }
    }
}

/// Attaching an upload puts its bytes under its hash and leaves every other
/// blob, and every file row that was there, as it was.
pub proof fn lemma_attach_blobs(s: Ledger, submission: int, upload: Upload)
    requires
        s.wf(),
        1 <= submission <= s.submissions.len(),
        s.can_store(upload.content),
    ensures
        ({
            let hash = content_hash_spec(upload.content);
            let t = s.attach(submission, upload);
            &&& t.blob(hash) == Some(upload.content)
            &&& forall|other: Seq<char>| other != hash ==> t.blob(other) == s.blob(other)
            &&& t.attachments == s.attachments.push(
                Attachment { submission, file: t.file_id(hash) },
            )
            &&& 1 <= t.file_id(hash) <= t.files.len()
            &&& t.files[t.file_id(hash) - 1].info.hash == hash
            &&& t.files.len() >= s.files.len()
            &&& forall|i: int|
                0 <= i < s.files.len() ==> (#[trigger] t.files[i]).info == s.files[i].info
        }),
{
    let hash = content_hash_spec(upload.content);
    let stored = s.store_file(upload.name, upload.content);
    let t = s.attach(submission, upload);
    lemma_store_file(s, upload.name, upload.content);
    lemma_attach(s, submission, upload);
    assert(t.files == stored.files);
    lemma_same_files_same_blobs(stored, t, hash);
    assert(stored.has_hash(hash)) by {
        let w = choose|w: int| #[trigger]
            stored.is_file_at(w, hash) && forall|j: int| stored.is_file_at(j, hash) ==> j == w;
        assert(stored.is_file_at(w, hash));
    }
    let at = stored.index_of_hash(hash);
    assert(stored.is_file_at(at, hash));
    lemma_index_of_hash(stored, at, hash);
    assert forall|other: Seq<char>| other != hash implies t.blob(other) == s.blob(other) by {
        lemma_same_files_same_blobs(stored, t, other);
    }
}

/// Attaching a run of uploads leaves the blob under `hash` as it was, if
/// none of the uploads has that hash.
pub proof fn lemma_attach_all_keeps_blob(
    s: Ledger,
    submission: int,
    uploads: Seq<Upload>,
    hash: Seq<char>,
)
    requires
        s.wf(),
        1 <= submission <= s.submissions.len(),
        forall|i: int|
            0 <= i < uploads.len() ==> content_hash_spec((#[trigger] uploads[i]).content) != hash,
    ensures
        s.attach_all(submission, uploads).0.blob(hash) == s.blob(hash),
    decreases uploads.len(),
{
    if uploads.len() > 0 && s.can_store(uploads[0].content) {
        let next = s.attach(submission, uploads[0]);
        let rest = uploads.drop_first();
        lemma_attach(s, submission, uploads[0]);
        lemma_attach_blobs(s, submission, uploads[0]);
        assert forall|i: int| 0 <= i < rest.len() implies content_hash_spec(
            (#[trigger] rest[i]).content,
        ) != hash by {
            assert(rest[i] == uploads[i + 1]);
        }
        lemma_attach_all_keeps_blob(next, submission, rest, hash);
    }
}

/// After a run of uploads was attached in full, the blob under the hash of
/// upload `i` is that upload's content, provided no later upload of the run
/// has the same hash.
pub proof fn lemma_attach_all_blobs(s: Ledger, submission: int, uploads: Seq<Upload>, i: int)
    requires
        s.wf(),
        1 <= submission <= s.submissions.len(),
        s.attach_all(submission, uploads).1,
        0 <= i < uploads.len(),
        forall|j: int|
            i < j < uploads.len() ==> content_hash_spec((#[trigger] uploads[j]).content)
                != content_hash_spec(uploads[i].content),
    ensures
        s.attach_all(submission, uploads).0.blob(content_hash_spec(uploads[i].content)) == Some(
            uploads[i].content,
        ),
    decreases uploads.len(),
{
    let hash = content_hash_spec(uploads[i].content);
    let next = s.attach(submission, uploads[0]);
    let rest = uploads.drop_first();
    lemma_attach(s, submission, uploads[0]);
    lemma_attach_blobs(s, submission, uploads[0]);
    if i == 0 {
        assert forall|j: int| 0 <= j < rest.len() implies content_hash_spec(
            (#[trigger] rest[j]).content,
        ) != hash by {
            assert(rest[j] == uploads[j + 1]);
        }
        lemma_attach_all_keeps_blob(next, submission, rest, hash);
    } else {
        assert(rest[i - 1] == uploads[i]);
        assert forall|j: int| i - 1 < j < rest.len() implies content_hash_spec(
            (#[trigger] rest[j]).content,
        ) != content_hash_spec(rest[i - 1].content) by {
            assert(rest[j] == uploads[j + 1]);
        }
        lemma_attach_all_blobs(next, submission, rest, i - 1);
    }
}

/// The files that attachments link to stay the same when file rows are
/// only added: rows that were there keep what they say.
pub proof fn lemma_files_among_stable(
    s: Ledger,
    t: Ledger,
    attachments: Seq<Attachment>,
    submission: int,
)
    requires
        forall|k: int|
            0 <= k < attachments.len() ==> 1 <= (#[trigger] attachments[k]).file <= s.files.len(),
        t.files.len() >= s.files.len(),
        forall|i: int| 0 <= i < s.files.len() ==> (#[trigger] t.files[i]).info == s.files[i].info,
    ensures
        t.files_among(attachments, submission) == s.files_among(attachments, submission),
    decreases attachments.len(),
{
    if attachments.len() == 0 {
        assert(attachments =~= Seq::<Attachment>::empty());
        lemma_files_among_empty(s, submission);
        lemma_files_among_empty(t, submission);
    } else {
        let earlier = attachments.drop_last();
        let a = attachments.last();
        assert(attachments =~= earlier.push(a));
        lemma_files_among_stable(s, t, earlier, submission);
        lemma_files_among_push(s, earlier, a, submission);
        lemma_files_among_push(t, earlier, a, submission);
        assert(t.files[a.file - 1].info == s.files[a.file - 1].info);
    }
}

/// A submission that no attachment names has no files.
pub proof fn lemma_files_among_none(s: Ledger, attachments: Seq<Attachment>, submission: int)
    requires
        forall|k: int|
            0 <= k < attachments.len() ==> (#[trigger] attachments[k]).submission != submission,
    ensures
        s.files_among(attachments, submission) == Seq::<FileView>::empty(),
    decreases attachments.len(),
{
    if attachments.len() == 0 {
        assert(attachments =~= Seq::<Attachment>::empty());
        lemma_files_among_empty(s, submission);
    } else {
        let earlier = attachments.drop_last();
        let a = attachments.last();
        assert(attachments =~= earlier.push(a));
        lemma_files_among_none(s, earlier, submission);
        lemma_files_among_push(s, earlier, a, submission);
    }
}

/// After a run of uploads was attached in full to a submission, the
/// submission's files are those it had, followed by one file per upload in
/// the order of the uploads, each with the hash of its upload's content.
pub proof fn lemma_attach_all_files(s: Ledger, submission: int, uploads: Seq<Upload>)
    requires
        s.wf(),
        1 <= submission <= s.submissions.len(),
        s.attach_all(submission, uploads).1,
    ensures
        ({
            let t = s.attach_all(submission, uploads).0;
            let had = s.files_of(submission);
            let has = t.files_of(submission);
            &&& has.len() == had.len() + uploads.len()
            &&& forall|k: int| 0 <= k < had.len() ==> has[k] == had[k]
            &&& forall|i: int|
                0 <= i < uploads.len() ==> has[had.len() + i].hash == content_hash_spec(
                    (#[trigger] uploads[i]).content,
                )
        }),
    decreases uploads.len(),
{
    if uploads.len() > 0 {
        let t = s.attach_all(submission, uploads).0;
        let had = s.files_of(submission);
        let has = t.files_of(submission);
        let hash = content_hash_spec(uploads[0].content);
        let next = s.attach(submission, uploads[0]);
        let rest = uploads.drop_first();
        lemma_attach(s, submission, uploads[0]);
        lemma_attach_blobs(s, submission, uploads[0]);
        let link = Attachment { submission, file: next.file_id(hash) };
        lemma_files_among_push(next, s.attachments, link, submission);
        lemma_files_among_stable(s, next, s.attachments, submission);
        assert(next.files_of(submission) == had.push(next.files[link.file - 1].info));
        lemma_attach_all_files(next, submission, rest);
        assert(has[had.len() as int] == next.files_of(submission)[had.len() as int]);
        assert forall|k: int| 0 <= k < had.len() implies has[k] == had[k] by {
            assert(has[k] == next.files_of(submission)[k]);
        }
        assert forall|i: int| 0 <= i < uploads.len() implies has[had.len() + i].hash
            == content_hash_spec((#[trigger] uploads[i]).content) by {
            if i > 0 {
                assert(rest[i - 1] == uploads[i]);
                assert(has[next.files_of(submission).len() + (i - 1)].hash == content_hash_spec(
                    rest[i - 1].content,
                ));
            }
        }
    }
}

/// What a created submission reads back as: its identifier, comment and
/// problem are as given, and it has one file per upload, in the order of
/// the uploads, each with the hash of its upload's content. The blob under
/// the hash of an upload holds that upload's content, unless a later upload
/// of the same submission has the same hash.
pub proof fn lemma_created_submission(
    s: Ledger,
    problem: int,
    comment: Seq<char>,
    uploads: Seq<Upload>,
)
    requires
        s.wf(),
        s.create_submission_with_files(problem, comment, uploads).1 is Ok,
    ensures
        ({
            let (t, outcome) = s.create_submission_with_files(problem, comment, uploads);
            let id = outcome->Ok_0;
            &&& id == s.submissions.len() + 1
            &&& t.submission(id) matches Some(made) && {
                &&& made.id == id
                &&& made.comment == comment
                &&& made.problem == problem
                &&& made.files.len() == uploads.len()
                &&& forall|i: int|
                    0 <= i < uploads.len() ==> made.files[i].hash == content_hash_spec(
                        (#[trigger] uploads[i]).content,
                    )
            }
            &&& forall|i: int|
                0 <= i < uploads.len() && (forall|j: int|
                    i < j < uploads.len() ==> content_hash_spec((#[trigger] uploads[j]).content)
                        != content_hash_spec(uploads[i].content)) ==> t.blob(
                    content_hash_spec((#[trigger] uploads[i]).content),
                ) == Some(uploads[i].content)
        }),
{
    let id = s.submissions.len() as int + 1;
    let recorded = s.add_submission(problem, comment);
    let t = recorded.attach_all(id, uploads).0;
    lemma_attach_all(recorded, id, uploads);
    lemma_files_among_none(recorded, recorded.attachments, id);
    lemma_attach_all_files(recorded, id, uploads);
    assert(t.submissions[id - 1] == recorded.submissions[id - 1]);
    assert forall|i: int|
        0 <= i < uploads.len() && (forall|j: int|
            i < j < uploads.len() ==> content_hash_spec((#[trigger] uploads[j]).content)
                != content_hash_spec(uploads[i].content)) implies t.blob(
        content_hash_spec((#[trigger] uploads[i]).content),
    ) == Some(uploads[i].content) by {
        lemma_attach_all_blobs(recorded, id, uploads, i);
    }
}

/// Creating a submission leaves the blob under `hash` as it was, if none
/// of its uploads has that hash.
pub proof fn lemma_create_submission_keeps_blob(
    s: Ledger,
    problem: int,
    comment: Seq<char>,
    uploads: Seq<Upload>,
    hash: Seq<char>,
)
    requires
        s.wf(),
        forall|i: int|
            0 <= i < uploads.len() ==> content_hash_spec((#[trigger] uploads[i]).content) != hash,
    ensures
        s.create_submission_with_files(problem, comment, uploads).0.blob(hash) == s.blob(hash),
{
    if s.submissions.len() < id_limit() {
        let id = s.submissions.len() as int + 1;
        let recorded = s.add_submission(problem, comment);
        lemma_attach_all_keeps_blob(recorded, id, uploads, hash);
        lemma_same_files_same_blobs(s, recorded, hash);
    }
}

/// Two uploads of the same bytes to one submission share one file row and
/// make two attachments.
pub proof fn lemma_attach_same_content_twice(
    s: Ledger,
    submission: int,
    first: Upload,
    second: Upload,
)
    requires
        s.wf(),
        1 <= submission <= s.submissions.len(),
        s.can_store(first.content),
        first.content == second.content,
    ensures
        ({
            let u = s.attach(submission, first).attach(submission, second);
            &&& u.wf()
            &&& u.holds_once(content_hash_spec(first.content))
            &&& u.attachments.len() == s.attachments.len() + 2
            &&& u.attachments[s.attachments.len() as int].file == u.attachments[s.attachments.len() as int
                + 1].file
            &&& u.file_rows() == s.attach(submission, first).file_rows()
        }),
{
    let hash = content_hash_spec(first.content);
    let t0 = s.store_file(first.name, first.content);
    let t = s.attach(submission, first);
    lemma_store_file(s, first.name, first.content);
    lemma_attach(s, submission, first);
    assert(t.files == t0.files);
    let i = t0.index_of_hash(hash);
    assert(t0.has_hash(hash)) by {
        let w = choose|w: int| #[trigger]
            t0.is_file_at(w, hash) && forall|j: int| t0.is_file_at(j, hash) ==> j == w;
        assert(t0.is_file_at(w, hash));
    }
    assert(t0.is_file_at(i, hash));
    assert(t.is_file_at(i, hash));
    lemma_index_of_hash(t0, i, hash);
    lemma_index_of_hash(t, i, hash);
    let t2 = t.store_file(second.name, second.content);
    let u = t.attach(submission, second);
    lemma_store_file(t, second.name, second.content);
    lemma_attach(t, submission, second);
    assert(u.files == t2.files);
    assert(t2.files[i].info == t.files[i].info);
    assert(u.is_file_at(i, hash));
    lemma_index_of_hash(u, i, hash);
    assert(u.file_rows() =~= t2.file_rows());
}

} // verus!
