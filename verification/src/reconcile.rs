//! The reconciliation engine: it records submissions the instant they are
//! accepted, renders them ahead of the latest confirmed snapshot, and
//! supersedes each one once a fresh snapshot contains its content.

use vstd::prelude::*;

use crate::repository::{tx_views, parse_rows, Create, Read, PersistError, ReadError};
use crate::transaction::{row_of, Transaction, TransactionView, RowField};

verus! {

/// The lifecycle of one submission.
#[derive(Clone, Copy, PartialEq, Eq, Structural, Debug)]
pub enum SubmissionStatus {
    /// Accepted for persistence, not yet corroborated by a snapshot.
    Pending,
    /// Seen in a later snapshot, which now carries it.
    Confirmed,
    /// Persistence reported an error; the submission is kept and reported.
    Failed,
}

/// One accepted submission and its state.
pub struct Submission {
    pub seq_no: u64,
    pub candidate: Transaction,
    pub status: SubmissionStatus,
}

/// The mathematical value of a submission.
#[verifier::ext_equal]
pub struct SubmissionView {
    pub seq_no: u64,
    pub candidate: TransactionView,
    pub status: SubmissionStatus,
}

impl View for Submission {
    type V = SubmissionView;

    open spec fn view(&self) -> SubmissionView {
        SubmissionView { seq_no: self.seq_no, candidate: self.candidate@, status: self.status }
    }
}

/// The views of a submission vector, in order.
pub open spec fn submission_views(s: Seq<Submission>) -> Seq<SubmissionView> {
    Seq::new(s.len(), |i: int| s[i]@)
}

/// Whether the snapshot contains an entry whose content matches `c`.
pub open spec fn contains_match(snap: Seq<TransactionView>, c: TransactionView) -> bool {
    exists|j: int| 0 <= j < snap.len() && #[trigger] snap[j].content_matches(c)
}

/// The candidates still pending, in submission order.
pub open spec fn pending_of(subs: Seq<SubmissionView>) -> Seq<TransactionView>
    decreases subs.len(),
{
    if subs.len() == 0 {
        Seq::<TransactionView>::empty()
    } else {
        let rest = pending_of(subs.drop_last());
        if subs.last().status == SubmissionStatus::Pending {
            rest.push(subs.last().candidate)
        } else {
            rest
        }
    }
}

/// What a failed persistence report does to one submission.
pub open spec fn failed_one(s: SubmissionView, seq_no: u64) -> SubmissionView {
    if s.seq_no == seq_no && s.status == SubmissionStatus::Pending {
        SubmissionView { seq_no: s.seq_no, candidate: s.candidate, status: SubmissionStatus::Failed }
    } else {
        s
    }
}

/// What a fresh snapshot does to one submission.
pub open spec fn confirmed_one(s: SubmissionView, snap: Seq<TransactionView>) -> SubmissionView {
    if s.status == SubmissionStatus::Pending && contains_match(snap, s.candidate) {
        SubmissionView {
            seq_no: s.seq_no,
            candidate: s.candidate,
            status: SubmissionStatus::Confirmed,
        }
    } else {
        s
    }
}

/// The mathematical state of the engine.
#[verifier::ext_equal]
pub struct ReconcilerView {
    pub submissions: Seq<SubmissionView>,
    pub version: u64,
    pub snapshot: Seq<TransactionView>,
    pub snapshot_version: u64,
    pub read_failed: bool,
}

impl ReconcilerView {
    /// Submissions carry strictly increasing sequence numbers below the
    /// version counter, and the snapshot is never newer than the counter.
    pub open spec fn wf(self) -> bool {
        &&& forall|i: int, j: int|
            0 <= i < j < self.submissions.len() ==> #[trigger] self.submissions[i].seq_no
                < #[trigger] self.submissions[j].seq_no
        &&& forall|i: int|
            0 <= i < self.submissions.len() ==> #[trigger] self.submissions[i].seq_no
                < self.version
        &&& self.snapshot_version <= self.version
    }

    /// No pending submission matches anything in the snapshot.
    pub open spec fn superseded_excluded(self) -> bool {
        forall|i: int, j: int|
            0 <= i < self.submissions.len() && 0 <= j < self.snapshot.len()
                && (#[trigger] self.submissions[i]).status == SubmissionStatus::Pending
                ==> !(#[trigger] self.snapshot[j]).content_matches(self.submissions[i].candidate)
    }
}

/// The single ordered view: pending submissions first, in submission order,
/// then the full confirmed snapshot; the two are never interleaved.
pub open spec fn merged_view_of(r: ReconcilerView) -> Seq<TransactionView> {
    pending_of(r.submissions) + r.snapshot
}

/// The reconciliation engine's state: accepted submissions, the version
/// counter stepped once per submission, the last good snapshot with the
/// version it answered, and whether the last refresh failed.
pub struct Reconciler {
    submissions: Vec<Submission>,
    version: u64,
    snapshot: Vec<Transaction>,
    snapshot_version: u64,
    read_failed: bool,
}

impl View for Reconciler {
    type V = ReconcilerView;

    closed spec fn view(&self) -> ReconcilerView {
        ReconcilerView {
            submissions: submission_views(self.submissions@),
            version: self.version,
            snapshot: tx_views(self.snapshot@),
            snapshot_version: self.snapshot_version,
            read_failed: self.read_failed,
        }
    }
}

/// Whether the content of `a` matches `b`: payee, amount and description —
/// the fields a submitter knows before the generated identifier is known.
pub fn tx_content_matches(a: &Transaction, b: &Transaction) -> (r: bool)
    ensures
        r == a@.content_matches(b@),
{
    if !(a.payee == b.payee) {
        return false;
    }
    if !(a.amount == b.amount) {
        return false;
    }
    match (&a.description, &b.description) {
        (None, None) => true,
        (Some(x), Some(y)) => *x == *y,
        _ => false,
    }
}

/// Whether the snapshot holds an entry whose content matches `c`.
fn snapshot_contains(snapshot: &Vec<Transaction>, c: &Transaction) -> (r: bool)
    ensures
        r == contains_match(tx_views(snapshot@), c@),
{
    let n = snapshot.len();
    let mut j: usize = 0;
    while j < n
        invariant
            j <= n,
            n == snapshot@.len(),
            forall|k: int|
                0 <= k < j ==> !(#[trigger] tx_views(snapshot@)[k]).content_matches(c@),
        decreases n - j,
    {
        if tx_content_matches(&snapshot[j], c) {
            proof {
                assert(tx_views(snapshot@)[j as int].content_matches(c@));
            }
            return true;
        }
        j = j + 1;
    }
    false
}

impl Reconciler {
    /// A fresh engine: nothing submitted, an empty snapshot, no error.
    pub fn new() -> (r: Reconciler)
        ensures
            r@.wf(),
            r@.superseded_excluded(),
            r@.submissions == Seq::<SubmissionView>::empty(),
            r@.version == 0,
            r@.snapshot == Seq::<TransactionView>::empty(),
            r@.snapshot_version == 0,
            !r@.read_failed,
    {
        let r = Reconciler {
            submissions: Vec::new(),
            version: 0,
            snapshot: Vec::new(),
            snapshot_version: 0,
            read_failed: false,
        };
        proof {
            assert(r@.submissions =~= Seq::<SubmissionView>::empty());
            assert(r@.snapshot =~= Seq::<TransactionView>::empty());
        }
        r
    }

    /// Accept a candidate: one new pending slot keyed by a fresh sequence
    /// number, and the version counter stepped exactly once.
    pub fn submit(&mut self, candidate: Transaction) -> (seq_no: u64)
        requires
            old(self)@.wf(),
            old(self)@.version < u64::MAX,
        ensures
            final(self)@.wf(),
            seq_no == old(self)@.version,
            final(self)@.version == old(self)@.version + 1,
            final(self)@.submissions == old(self)@.submissions.push(
                SubmissionView {
                    seq_no,
                    candidate: candidate@,
                    status: SubmissionStatus::Pending,
                },
            ),
            final(self)@.snapshot == old(self)@.snapshot,
            final(self)@.snapshot_version == old(self)@.snapshot_version,
            final(self)@.read_failed == old(self)@.read_failed,
    {
        let seq_no = self.version;
        self.submissions.push(
            Submission { seq_no, candidate, status: SubmissionStatus::Pending },
        );
        self.version = self.version + 1;
        proof {
            assert(self@.submissions =~= old(self)@.submissions.push(
                SubmissionView {
                    seq_no,
                    candidate: candidate@,
                    status: SubmissionStatus::Pending,
                },
            ));
        }
        seq_no
    }

    /// Record that persistence of the given submission failed: it becomes
    /// `Failed`, reported to the caller, never left pending forever and
    /// never silently dropped.
    pub fn mark_failed(&mut self, seq_no: u64)
        requires
            old(self)@.wf(),
        ensures
            final(self)@.wf(),
            final(self)@.submissions.len() == old(self)@.submissions.len(),
            forall|i: int|
                0 <= i < old(self)@.submissions.len() ==> final(self)@.submissions[i]
                    == failed_one(#[trigger] old(self)@.submissions[i], seq_no),
            final(self)@.version == old(self)@.version,
            final(self)@.snapshot == old(self)@.snapshot,
            final(self)@.snapshot_version == old(self)@.snapshot_version,
            final(self)@.read_failed == old(self)@.read_failed,
    {
        let n = self.submissions.len();
        let mut updated: Vec<Submission> = Vec::new();
        let mut i: usize = 0;
        while i < n
            invariant
                i <= n,
                n == self.submissions@.len(),
                updated@.len() == i,
                forall|k: int|
                    0 <= k < i ==> updated@[k]@ == failed_one(
                        #[trigger] submission_views(self.submissions@)[k],
                        seq_no,
                    ),
            decreases n - i,
        {
            let s = &self.submissions[i];
            let status = if s.seq_no == seq_no && s.status == SubmissionStatus::Pending {
                SubmissionStatus::Failed
            } else {
                s.status
            };
            updated.push(
                Submission { seq_no: s.seq_no, candidate: s.candidate.clone(), status },
            );
            i = i + 1;
        }
        self.submissions = updated;
        proof {
            assert forall|i2: int|
                0 <= i2 < old(self)@.submissions.len() implies self@.submissions[i2] == failed_one(
                #[trigger] old(self)@.submissions[i2],
                seq_no,
            ) by {}
            assert forall|i2: int| 0 <= i2 < self@.submissions.len() implies (
            #[trigger] self@.submissions[i2]).seq_no == old(self)@.submissions[i2].seq_no by {
                assert(self@.submissions[i2] == failed_one(old(self)@.submissions[i2], seq_no));
            }
        }
    }

    /// Install a fresh snapshot, answering the current version: it clears
    /// any read-error state, and every pending submission whose content the
    /// snapshot carries is superseded — excluded from the pending section,
    /// so nothing ever appears twice.
    pub fn apply_snapshot(&mut self, snapshot: Vec<Transaction>)
        requires
            old(self)@.wf(),
        ensures
            final(self)@.wf(),
            final(self)@.superseded_excluded(),
            final(self)@.snapshot == tx_views(snapshot@),
            final(self)@.snapshot_version == old(self)@.version,
            final(self)@.version == old(self)@.version,
            !final(self)@.read_failed,
            final(self)@.submissions.len() == old(self)@.submissions.len(),
            forall|i: int|
                0 <= i < old(self)@.submissions.len() ==> final(self)@.submissions[i]
                    == confirmed_one(#[trigger] old(self)@.submissions[i], tx_views(snapshot@)),
    {
        let n = self.submissions.len();
        let mut updated: Vec<Submission> = Vec::new();
        let mut i: usize = 0;
        while i < n
            invariant
                i <= n,
                n == self.submissions@.len(),
                updated@.len() == i,
                forall|k: int|
                    0 <= k < i ==> updated@[k]@ == confirmed_one(
                        #[trigger] submission_views(self.submissions@)[k],
                        tx_views(snapshot@),
                    ),
            decreases n - i,
        {
            let s = &self.submissions[i];
            let confirmed = s.status == SubmissionStatus::Pending && snapshot_contains(
                &snapshot,
                &s.candidate,
            );
            let status = if confirmed {
                SubmissionStatus::Confirmed
            } else {
                s.status
            };
            updated.push(
                Submission { seq_no: s.seq_no, candidate: s.candidate.clone(), status },
            );
            i = i + 1;
        }
        self.submissions = updated;
        self.snapshot = snapshot;
        self.snapshot_version = self.version;
        self.read_failed = false;
        proof {
            let snap = tx_views(self.snapshot@);
            assert forall|i2: int|
                0 <= i2 < old(self)@.submissions.len() implies self@.submissions[i2]
                == confirmed_one(#[trigger] old(self)@.submissions[i2], snap) by {}
            assert forall|i2: int| 0 <= i2 < self@.submissions.len() implies (
            #[trigger] self@.submissions[i2]).seq_no == old(self)@.submissions[i2].seq_no by {
                assert(self@.submissions[i2] == confirmed_one(old(self)@.submissions[i2], snap));
            }
            assert forall|i2: int, j2: int|
                0 <= i2 < self@.submissions.len() && 0 <= j2 < snap.len() && (
                #[trigger] self@.submissions[i2]).status
                    == SubmissionStatus::Pending implies !(#[trigger] snap[j2]).content_matches(
                self@.submissions[i2].candidate,
            ) by {
                let s0 = old(self)@.submissions[i2];
                assert(self@.submissions[i2] == confirmed_one(s0, snap));
                assert(!contains_match(snap, s0.candidate));
            }
        }
    }

    /// Record a failed snapshot read, answering the current version: a
    /// distinguishable error state — never treated as an empty list — while
    /// every submission and the prior snapshot stay exactly as they were.
    pub fn apply_read_error(&mut self)
        requires
            old(self)@.wf(),
        ensures
            final(self)@.wf(),
            final(self)@.submissions == old(self)@.submissions,
            final(self)@.version == old(self)@.version,
            final(self)@.snapshot == old(self)@.snapshot,
            final(self)@.snapshot_version == old(self)@.version,
            final(self)@.read_failed,
    {
        self.snapshot_version = self.version;
        self.read_failed = true;
    }

    /// Whether a snapshot refresh is due: exactly one per submission, since
    /// only `submit` moves the version counter.
    pub fn needs_refresh(&self) -> (r: bool)
        ensures
            r == (self@.snapshot_version != self@.version),
    {
        self.snapshot_version != self.version
    }

    /// The version counter: stepped exactly once per submission attempt.
    pub fn version(&self) -> (r: u64)
        ensures
            r == self@.version,
    {
        self.version
    }

    /// Whether the last snapshot refresh failed.
    pub fn last_read_failed(&self) -> (r: bool)
        ensures
            r == self@.read_failed,
    {
        self.read_failed
    }

    /// The single ordered list shown to the caller: pending submissions
    /// first, in submission order, then the confirmed snapshot.
    pub fn merged_view(&self) -> (v: Vec<Transaction>)
        ensures
            tx_views(v@) == merged_view_of(self@),
    {
        let n = self.submissions.len();
        let mut out: Vec<Transaction> = Vec::new();
        let mut i: usize = 0;
        while i < n
            invariant
                i <= n,
                n == self.submissions@.len(),
                tx_views(out@) =~= pending_of(submission_views(self.submissions@).take(i as int)),
            decreases n - i,
        {
            let s = &self.submissions[i];
            proof {
                let subs = submission_views(self.submissions@);
                assert(subs.take(i as int + 1).drop_last() =~= subs.take(i as int));
                assert(subs.take(i as int + 1).last() == subs[i as int]);
            }
            if s.status == SubmissionStatus::Pending {
                out.push(s.candidate.clone());
            }
            proof {
                assert(tx_views(out@) =~= pending_of(
                    submission_views(self.submissions@).take(i as int + 1),
                ));
            }
            i = i + 1;
        }
        proof {
            let subs = submission_views(self.submissions@);
            assert(subs.take(subs.len() as int) =~= subs);
        }
        let m = self.snapshot.len();
        let mut j: usize = 0;
        while j < m
            invariant
                j <= m,
                m == self.snapshot@.len(),
                tx_views(out@) =~= pending_of(submission_views(self.submissions@)) + tx_views(
                    self.snapshot@,
                ).take(j as int),
            decreases m - j,
        {
            out.push(self.snapshot[j].clone());
            proof {
                let pend = pending_of(submission_views(self.submissions@));
                let snap = tx_views(self.snapshot@);
                assert(tx_views(out@) =~= (pend + snap.take(j as int)).push(snap[j as int]));
                assert((pend + snap.take(j as int)).push(snap[j as int]) =~= pend + snap.take(
                    j as int + 1,
                ));
            }
            j = j + 1;
        }
        proof {
            assert(tx_views(self.snapshot@).take(m as int) =~= tx_views(self.snapshot@));
            assert(tx_views(out@) =~= merged_view_of(self@));
        }
        out
    }

    /// The state of the submission with the given sequence number.
    pub fn status_of(&self, seq_no: u64) -> (r: Option<SubmissionStatus>)
        ensures
            r == status_in(self@.submissions, seq_no),
    {
        let n = self.submissions.len();
        proof {
            assert(submission_views(self.submissions@).skip(0) =~= submission_views(
                self.submissions@,
            ));
        }
        let mut i: usize = 0;
        while i < n
            invariant
                i <= n,
                n == self.submissions@.len(),
                status_in(submission_views(self.submissions@), seq_no) == status_in(
                    submission_views(self.submissions@).skip(i as int),
                    seq_no,
                ),
            decreases n - i,
        {
            proof {
                let subs = submission_views(self.submissions@);
                assert(subs.skip(i as int)[0] == subs[i as int]);
                assert(subs.skip(i as int).skip(1) =~= subs.skip(i as int + 1));
            }
            let s = &self.submissions[i];
            if s.seq_no == seq_no {
                return Some(s.status);
            }
            i = i + 1;
        }
        proof {
            let subs = submission_views(self.submissions@);
            assert(subs.skip(n as int) =~= Seq::<SubmissionView>::empty());
        }
        None
    }
}

/// The state of the submission with the given sequence number, if any.
pub open spec fn status_in(subs: Seq<SubmissionView>, seq_no: u64) -> Option<SubmissionStatus>
    decreases subs.len(),
{
    if subs.len() == 0 {
        None
    } else if subs[0].seq_no == seq_no {
        Some(subs[0].status)
    } else {
        status_in(subs.skip(1), seq_no)
    }
}

/// Accept a candidate and persist it: it is pending — and rendered — the
/// instant it is accepted, before the store answers; a persistence failure
/// leaves the store untouched and marks the submission failed, never
/// pending forever.
pub fn submit_and_persist<R: Create>(
    rec: &mut Reconciler,
    repo: &mut R,
    candidate: Transaction,
) -> (r: Result<u64, PersistError>)
    requires
        old(rec)@.wf(),
        old(rec)@.version < u64::MAX,
        old(repo).inv(),
        candidate.wf(),
    ensures
        final(rec)@.wf(),
        final(repo).inv(),
        final(rec)@.version == old(rec)@.version + 1,
        final(rec)@.snapshot == old(rec)@.snapshot,
        match r {
            Ok(seq_no) => {
                &&& seq_no == old(rec)@.version
                &&& final(repo).rows().to_multiset() == old(repo).rows().to_multiset().insert(
                    row_of(candidate@),
                )
                &&& final(rec)@.submissions == old(rec)@.submissions.push(
                    SubmissionView {
                        seq_no,
                        candidate: candidate@,
                        status: SubmissionStatus::Pending,
                    },
                )
            },
            Err(_) => {
                &&& final(repo).rows() == old(repo).rows()
                &&& final(rec)@.submissions == old(rec)@.submissions.push(
                    SubmissionView {
                        seq_no: old(rec)@.version,
                        candidate: candidate@,
                        status: SubmissionStatus::Failed,
                    },
                )
            },
        },
{
    let seq_no = rec.submit(candidate.clone());
    match repo.create_one(candidate) {
        Ok(()) => Ok(seq_no),
        Err(e) => {
            let ghost mid = rec@.submissions;
            rec.mark_failed(seq_no);
            proof {
                let pushed = SubmissionView {
                    seq_no,
                    candidate: candidate@,
                    status: SubmissionStatus::Pending,
                };
                assert forall|i: int| 0 <= i < mid.len() implies rec@.submissions[i] == failed_one(
                    #[trigger] mid[i],
                    seq_no,
                ) by {}
                assert(rec@.submissions =~= old(rec)@.submissions.push(
                    SubmissionView {
                        seq_no: old(rec)@.version,
                        candidate: candidate@,
                        status: SubmissionStatus::Failed,
                    },
                )) by {
                    assert(mid == old(rec)@.submissions.push(pushed));
                    assert(mid[mid.len() - 1] == pushed);
                    assert(rec@.submissions[mid.len() - 1] == failed_one(pushed, seq_no));
                    assert forall|i: int| 0 <= i < mid.len() - 1 implies rec@.submissions[i] == (
                    #[trigger] old(rec)@.submissions[i]) by {
                        assert(mid[i] == old(rec)@.submissions[i]);
                        assert(old(rec)@.submissions[i].seq_no < old(rec)@.version);
                        assert(rec@.submissions[i] == failed_one(mid[i], seq_no));
                    }
                }
            }
            Err(e)
        },
    }
}

/// Refresh the snapshot from the repository: a good read supersedes every
/// pending submission whose content it carries; a failed read keeps the
/// pending entries and the prior snapshot visible behind a distinguishable
/// error state, never an empty list.
pub fn refresh_snapshot<R: Read>(rec: &mut Reconciler, repo: &R) -> (r: Result<(), ReadError>)
    requires
        old(rec)@.wf(),
        repo.inv(),
    ensures
        final(rec)@.wf(),
        final(rec)@.version == old(rec)@.version,
        final(rec)@.snapshot_version == old(rec)@.version,
        match r {
            Ok(()) => {
                &&& !final(rec)@.read_failed
                &&& parse_rows(repo.rows()) == Ok::<Seq<TransactionView>, RowField>(
                    final(rec)@.snapshot,
                )
                &&& crate::store::sorted_desc(repo.rows())
                &&& final(rec)@.superseded_excluded()
                &&& final(rec)@.submissions.len() == old(rec)@.submissions.len()
                &&& forall|i: int|
                    0 <= i < old(rec)@.submissions.len() ==> final(rec)@.submissions[i]
                        == confirmed_one(
                        #[trigger] old(rec)@.submissions[i],
                        final(rec)@.snapshot,
                    )
            },
            Err(_) => {
                &&& final(rec)@.read_failed
                &&& final(rec)@.submissions == old(rec)@.submissions
                &&& final(rec)@.snapshot == old(rec)@.snapshot
            },
        },
{
    match repo.read_many() {
        Ok(ts) => {
            rec.apply_snapshot(ts);
            Ok(())
        },
        Err(e) => {
            rec.apply_read_error();
            Err(e)
        },
    }
}

/// Every pending entry of the merged view is the candidate of some pending
/// submission.
pub proof fn lemma_pending_of_members(subs: Seq<SubmissionView>)
    ensures
        forall|i: int|
            #![trigger pending_of(subs)[i]]
            0 <= i < pending_of(subs).len() ==> exists|k: int|
                0 <= k < subs.len() && (#[trigger] subs[k]).status == SubmissionStatus::Pending
                    && subs[k].candidate == pending_of(subs)[i],
    decreases subs.len(),
{
    if subs.len() > 0 {
        lemma_pending_of_members(subs.drop_last());
        let p = pending_of(subs);
        let rest = pending_of(subs.drop_last());
        assert forall|i: int| #![trigger p[i]] 0 <= i < p.len() implies exists|k: int|
            0 <= k < subs.len() && (#[trigger] subs[k]).status == SubmissionStatus::Pending
                && subs[k].candidate == p[i] by {
            if i < rest.len() {
                let k0 = choose|k: int|
                    0 <= k < subs.drop_last().len() && (#[trigger] subs.drop_last()[k]).status
                        == SubmissionStatus::Pending && subs.drop_last()[k].candidate == rest[i];
                assert(subs[k0] == subs.drop_last()[k0]);
                assert(subs[k0].status == SubmissionStatus::Pending && subs[k0].candidate == p[i]);
            } else {
                let k0 = subs.len() - 1;
                assert(subs[k0].status == SubmissionStatus::Pending && subs[k0].candidate == p[i]);
            }
        }
    }
}

/// Reconciliation dedup: once a snapshot has been applied, the merged view
/// never shows a pending entry whose content a confirmed entry carries.
pub proof fn lemma_merged_has_no_duplicates(r: ReconcilerView)
    requires
        r.superseded_excluded(),
    ensures
        forall|i: int, j: int|
            0 <= i < pending_of(r.submissions).len() && 0 <= j < r.snapshot.len()
                ==> !(#[trigger] r.snapshot[j]).content_matches(
                #[trigger] pending_of(r.submissions)[i],
            ),
{
    lemma_pending_of_members(r.submissions);
    assert forall|i: int, j: int|
        0 <= i < pending_of(r.submissions).len() && 0 <= j < r.snapshot.len() implies !(
    #[trigger] r.snapshot[j]).content_matches(#[trigger] pending_of(r.submissions)[i]) by {
        let k = choose|k: int|
            0 <= k < r.submissions.len() && (#[trigger] r.submissions[k]).status
                == SubmissionStatus::Pending && r.submissions[k].candidate == pending_of(
                r.submissions,
            )[i];
        assert(!r.snapshot[j].content_matches(r.submissions[k].candidate));
    }
}

} // verus!
