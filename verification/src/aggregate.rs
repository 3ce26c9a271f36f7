//! Completion aggregation.
//!
//! Every dispatched mount attempt resolves exactly once, delivering an
//! [`AttemptOutcome`] to a single [`Aggregator`]. The aggregator counts the
//! attempts still outstanding and keeps the failed outcomes; once the count
//! reaches zero the run's verdict can be taken. A failure classified as
//! "already mounted" is absorbed into overall success (re-mounting an
//! attached location is not an error); any other failure makes the whole
//! run fail, reported as one generic mount error.

use vstd::prelude::*;

verus! {

/// Classification of a failed mount attempt, as reported by the backend.
#[derive(Debug, Clone, Copy, PartialEq, Eq, Structural)]
pub enum FailureKind {
    /// The location was already attached; absorbed into overall success.
    AlreadyMounted,
    /// The backend failed after a credential prompt was refused or a
    /// credential was rejected.
    CredentialDenied,
    /// Any other classified mount failure.
    OtherError,
}

/// How a single mount attempt resolved.
#[derive(Debug, Clone, Copy, PartialEq, Eq, Structural)]
pub enum AttemptResult {
    /// The location was mounted.
    Success,
    /// The attempt failed, with the backend's classification.
    Failure(FailureKind),
}

/// The resolution of one mount attempt: produced exactly once per attempt,
/// recorded exactly once by the aggregator.
#[derive(Debug, Clone, PartialEq, Eq)]
pub struct AttemptOutcome {
    /// The location the attempt tried to mount.
    pub location: String,
    /// How the attempt resolved.
    pub result: AttemptResult,
}

/// The overall result of a run, as reported to the caller of the process.
#[derive(Debug, Clone, Copy, PartialEq, Eq, Structural)]
pub enum AdsysMountError {
    /// The mount-entry list could not be read or parsed; no attempt was
    /// dispatched.
    ParseError,
    /// At least one attempt failed with a kind other than already-mounted.
    MountError,
}

/// Whether an outcome lets the run still count as a success: every success
/// does, and so does a failure classified as already-mounted.
pub open spec fn absorbable(o: AttemptOutcome) -> bool {
    match o.result {
        AttemptResult::Success => true,
        AttemptResult::Failure(kind) => kind is AlreadyMounted,
    }
}

/// Whether an outcome is a failure of any kind.
pub open spec fn is_failure(o: AttemptOutcome) -> bool {
    o.result is Failure
}

/// The run succeeds exactly when every recorded failure is absorbable.
pub open spec fn all_absorbable(failures: Seq<AttemptOutcome>) -> bool {
    forall|i: int| 0 <= i < failures.len() ==> absorbable(#[trigger] failures[i])
}

/// The recorded failures after one more outcome is recorded on top of
/// `failures`: failures are appended, successes leave the record unchanged.
pub open spec fn record_failures(
    failures: Seq<AttemptOutcome>,
    o: AttemptOutcome,
) -> Seq<AttemptOutcome> {
    if is_failure(o) {
        failures.push(o)
    } else {
        failures
    }
}

/// The recorded failures after a whole sequence of outcomes is recorded,
/// in order, starting from an empty record.
pub open spec fn failures_after(outcomes: Seq<AttemptOutcome>) -> Seq<AttemptOutcome>
    decreases outcomes.len(),
{
    if outcomes.len() == 0 {
        Seq::empty()
    } else {
        record_failures(failures_after(outcomes.drop_last()), outcomes.last())
    }
}

/// The mathematical content of an [`Aggregator`]: what a run that started
/// with some number of dispatched attempts has recorded so far.
pub ghost struct AggregateModel {
    /// Attempts dispatched but not yet recorded.
    pub outstanding: int,
    /// The failed outcomes recorded so far, in arrival order.
    pub failures: Seq<AttemptOutcome>,
}

/// The aggregator state reached when `outcomes` are recorded, in order, on
/// a fresh aggregator expecting `expected` of them.
pub open spec fn run_model(expected: int, outcomes: Seq<AttemptOutcome>) -> AggregateModel
    decreases outcomes.len(),
{
    if outcomes.len() == 0 {
        AggregateModel { outstanding: expected, failures: Seq::empty() }
    } else {
        let prev = run_model(expected, outcomes.drop_last());
        AggregateModel {
            outstanding: prev.outstanding - 1,
            failures: record_failures(prev.failures, outcomes.last()),
        }
    }
}

/// The single collector for one run: counts the attempts not yet resolved
/// and keeps the failed outcomes, in arrival order.
#[derive(Debug)]
pub struct Aggregator {
    /// Attempts dispatched but not yet recorded. Decreases by one per
    /// recorded outcome and reaches zero exactly once.
    pub outstanding: usize,
    /// The failed outcomes recorded so far.
    pub failures: Vec<AttemptOutcome>,
}

impl Aggregator {
    /// A fresh aggregator expecting one outcome per dispatched attempt.
    pub fn new(expected: usize) -> (r: Aggregator)
        ensures
            r.outstanding == expected,
            r.failures@ == Seq::<AttemptOutcome>::empty(),
    {
        Aggregator { outstanding: expected, failures: Vec::new() }
    }

    /// Record one attempt's resolution: the outstanding count drops by one
    /// and a failure is appended to the record. Returns whether any attempt
    /// is still outstanding, i.e. whether the delivery loop must keep
    /// waiting for further outcomes.
    pub fn record(&mut self, outcome: AttemptOutcome) -> (more: bool)
        requires
            old(self).outstanding > 0,
        ensures
            final(self).outstanding == old(self).outstanding - 1,
            final(self).failures@ == record_failures(old(self).failures@, outcome),
            more == (final(self).outstanding > 0),
    {
        if matches!(outcome.result, AttemptResult::Failure(_)) {
            self.failures.push(outcome);
        }
        self.outstanding = self.outstanding - 1;
        self.outstanding > 0
    }

    /// The run's verdict, valid only once every dispatched attempt has been
    /// recorded: success exactly when every recorded failure is classified
    /// already-mounted (in particular when there is no failure at all), and
    /// one generic mount error otherwise.
    pub fn finalize(&self) -> (r: Result<(), AdsysMountError>)
        requires
            self.outstanding == 0,
        ensures
            r == (if all_absorbable(self.failures@) {
                Result::<(), AdsysMountError>::Ok(())
            } else {
                Result::<(), AdsysMountError>::Err(AdsysMountError::MountError)
            }),
    {
        let mut had_error = false;
        let mut i: usize = 0;
        while i < self.failures.len()
            invariant
                0 <= i <= self.failures.len(),
                had_error == !all_absorbable(self.failures@.subrange(0, i as int)),
            decreases self.failures.len() - i,
        {
            let ghost prefix = self.failures@.subrange(0, i as int);
            let fatal = match self.failures[i].result {
                AttemptResult::Success => false,
                AttemptResult::Failure(FailureKind::AlreadyMounted) => false,
                AttemptResult::Failure(_) => true,
            };
            if fatal {
                had_error = true;
            }
            proof {
                let next = self.failures@.subrange(0, i + 1 as int);
                assert(next.drop_last() =~= prefix);
                assert(next.last() == self.failures@[i as int]);
                assert(all_absorbable(next) <==> all_absorbable(prefix)
                    && absorbable(self.failures@[i as int])) by {
                    if all_absorbable(prefix) && absorbable(self.failures@[i as int]) {
                        assert forall|k: int| 0 <= k < next.len() implies absorbable(
                            #[trigger] next[k],
                        ) by {
                            if k < i {
                                assert(next[k] == prefix[k]);
                            }
                        }
                    }
                }
            }
            i = i + 1;
        }
        proof {
            assert(self.failures@.subrange(0, self.failures@.len() as int) =~= self.failures@);
        }
        if had_error {
            Err(AdsysMountError::MountError)
        } else {
            Ok(())
        }
    }
}

impl AttemptOutcome {
    /// The outcome an attempt's resolution handler delivers to the
    /// aggregator, built from the backend's result for `location`.
    pub fn from_backend(location: String, result: Result<(), FailureKind>) -> (r: AttemptOutcome)
        ensures
            r.location == location,
            r.result == (match result {
                Result::Ok(()) => AttemptResult::Success,
                Result::Err(kind) => AttemptResult::Failure(kind),
            }),
            is_failure(r) == (result is Err),
            absorbable(r) == (result is Ok || result == Result::<(), FailureKind>::Err(
                FailureKind::AlreadyMounted,
            )),
    {
        match result {
            Ok(()) => AttemptOutcome { location, result: AttemptResult::Success },
            Err(kind) => AttemptOutcome { location, result: AttemptResult::Failure(kind) },
        }
    }
}

/// A run expecting `expected` outcomes still has `expected - k` attempts
/// outstanding after `k` recorded outcomes. The verdict — valid only once
/// nothing is outstanding — can therefore be taken exactly when all
/// `expected` outcomes have been recorded, and the failures on record then
/// are those of the whole delivered sequence.
pub proof fn lemma_finalize_only_after_all(expected: int, outcomes: Seq<AttemptOutcome>)
    ensures
        run_model(expected, outcomes).outstanding == expected - outcomes.len(),
        (run_model(expected, outcomes).outstanding == 0) <==> outcomes.len() == expected,
        run_model(expected, outcomes).failures == failures_after(outcomes),
    decreases outcomes.len(),
{
    if outcomes.len() > 0 {
        lemma_finalize_only_after_all(expected, outcomes.drop_last());
    }
}

/// Appending one outcome to a failure record keeps the verdict successful
/// exactly when the record was successful and the outcome is absorbable.
pub proof fn lemma_record_one(failures: Seq<AttemptOutcome>, o: AttemptOutcome)
    ensures
        all_absorbable(record_failures(failures, o)) <==> all_absorbable(failures)
            && absorbable(o),
{
    if is_failure(o) {
        let pushed = failures.push(o);
        assert(pushed.last() == o);
        if all_absorbable(failures) && absorbable(o) {
            assert forall|i: int| 0 <= i < pushed.len() implies absorbable(
                #[trigger] pushed[i],
            ) by {
                if i < failures.len() {
                    assert(pushed[i] == failures[i]);
                }
            }
        } else if all_absorbable(pushed) {
            assert forall|i: int| 0 <= i < failures.len() implies absorbable(
                #[trigger] failures[i],
            ) by {
                assert(failures[i] == pushed[i]);
            }
            assert(absorbable(pushed[failures.len() as int]));
        }
    } else {
        assert(absorbable(o));
    }
}

/// Recording two outcomes commutes: whichever of the two arrives first, the
/// verdict over the resulting failure record is the same. With every
/// recording decrementing the outstanding count by one, the verdict taken
/// after all outcomes is deterministic in the set of outcomes, independent
/// of delivery order.
pub proof fn lemma_record_commutes(
    failures: Seq<AttemptOutcome>,
    a: AttemptOutcome,
    b: AttemptOutcome,
)
    ensures
        all_absorbable(record_failures(record_failures(failures, a), b)) == all_absorbable(
            record_failures(record_failures(failures, b), a),
        ),
{
    lemma_record_one(failures, a);
    lemma_record_one(failures, b);
    lemma_record_one(record_failures(failures, a), b);
    lemma_record_one(record_failures(failures, b), a);
}

/// If every outcome of a run is a success, recording them all yields the
/// success verdict.
pub proof fn lemma_all_success_yields_success(outcomes: Seq<AttemptOutcome>)
    requires
        forall|i: int| 0 <= i < outcomes.len() ==> (#[trigger] outcomes[i]).result is Success,
    ensures
        all_absorbable(failures_after(outcomes)),
    decreases outcomes.len(),
{
    if outcomes.len() > 0 {
        lemma_all_success_yields_success(outcomes.drop_last());
        lemma_record_one(failures_after(outcomes.drop_last()), outcomes.last());
    }
}

/// If every failure among a run's outcomes is classified already-mounted —
/// that is, every outcome is absorbable — recording them all yields the
/// success verdict.
pub proof fn lemma_only_already_mounted_yields_success(outcomes: Seq<AttemptOutcome>)
    requires
        forall|i: int| 0 <= i < outcomes.len() ==> absorbable(#[trigger] outcomes[i]),
    ensures
        all_absorbable(failures_after(outcomes)),
    decreases outcomes.len(),
{
    if outcomes.len() > 0 {
        lemma_only_already_mounted_yields_success(outcomes.drop_last());
        lemma_record_one(failures_after(outcomes.drop_last()), outcomes.last());
    }
}

/// The verdict over a run's recorded failures is success exactly when
/// every delivered outcome was absorbable.
pub proof fn lemma_verdict_pointwise(outcomes: Seq<AttemptOutcome>)
    ensures
        all_absorbable(failures_after(outcomes)) <==> (forall|i: int|
            0 <= i < outcomes.len() ==> absorbable(#[trigger] outcomes[i])),
{
    if forall|i: int| 0 <= i < outcomes.len() ==> absorbable(#[trigger] outcomes[i]) {
        lemma_only_already_mounted_yields_success(outcomes);
    } else {
        lemma_fatal_failure_yields_failure(outcomes);
    }
}

/// Two runs that collect the same outcomes reach the same verdict, no
/// matter in which order the outcomes arrived at each.
pub proof fn lemma_verdict_order_independent(s1: Seq<AttemptOutcome>, s2: Seq<AttemptOutcome>)
    requires
        s1.to_multiset() == s2.to_multiset(),
    ensures
        all_absorbable(failures_after(s1)) == all_absorbable(failures_after(s2)),
{
    s1.to_multiset_ensures();
    s2.to_multiset_ensures();
    lemma_verdict_pointwise(s1);
    lemma_verdict_pointwise(s2);
    assert forall|o: AttemptOutcome| s1.contains(o) <==> s2.contains(o) by {
        assert(s1.to_multiset().count(o) == s2.to_multiset().count(o));
        assert(s1.contains(o) <==> s1.to_multiset().count(o) > 0);
        assert(s2.contains(o) <==> s2.to_multiset().count(o) > 0);
    }
    if forall|i: int| 0 <= i < s1.len() ==> absorbable(#[trigger] s1[i]) {
        assert forall|i: int| 0 <= i < s2.len() implies absorbable(#[trigger] s2[i]) by {
            assert(s2.contains(s2[i]));
            let k = choose|k: int| 0 <= k < s1.len() && s1[k] == s2[i];
            assert(absorbable(s1[k]));
        }
    }
    if forall|i: int| 0 <= i < s2.len() ==> absorbable(#[trigger] s2[i]) {
        assert forall|i: int| 0 <= i < s1.len() implies absorbable(#[trigger] s1[i]) by {
            assert(s1.contains(s1[i]));
            let k = choose|k: int| 0 <= k < s2.len() && s2[k] == s1[i];
            assert(absorbable(s2[k]));
        }
    }
}

/// If any outcome of a run is a failure not classified already-mounted,
/// recording them all yields the failure verdict, however many other
/// attempts succeeded.
pub proof fn lemma_fatal_failure_yields_failure(outcomes: Seq<AttemptOutcome>)
    requires
        exists|i: int| 0 <= i < outcomes.len() && !absorbable(#[trigger] outcomes[i]),
    ensures
        !all_absorbable(failures_after(outcomes)),
    decreases outcomes.len(),
{
    let i = choose|i: int| 0 <= i < outcomes.len() && !absorbable(#[trigger] outcomes[i]);
    lemma_record_one(failures_after(outcomes.drop_last()), outcomes.last());
    if i < outcomes.len() - 1 {
        assert(outcomes.drop_last()[i] == outcomes[i]);
        lemma_fatal_failure_yields_failure(outcomes.drop_last());
    }
}

} // verus!
