//! The full reconciliation run: match the local records against the roster,
//! then assign bales, and say how the run went: all matched cleanly,
//! completed with warnings to review, or aborted because a record could not
//! be keyed.

use crate::assign::AssignError;
use crate::assign::all_keyed;
use crate::assign::assign;
use crate::assign::assign_spec;
use crate::assign::first_unkeyed;
use crate::assign::has_key;
use crate::assign::spec_missing_error;
use crate::matcher::outcome_spec;
use crate::matcher::reconcile;
use crate::matcher::record_reconciled;
use crate::record::MatchKind;
use crate::record::MatchOutcome;
use crate::record::ParticipantRecord;
use crate::record::RosterEntry;
use vstd::prelude::*;

verus! {

/// How a completed run went.
#[derive(Clone, Copy, Debug, PartialEq, Eq, Structural)]
pub enum RunStatus {
    /// Every record matched exactly one roster entry with an agreeing date
    /// of birth.
    AllMatched,
    /// At least one record went unmatched, was ambiguous, or matched with a
    /// disagreeing date of birth.
    CompletedWithWarnings,
}

/// An outcome that needs no review.
pub open spec fn outcome_clean(o: MatchOutcome) -> bool {
    o.kind is Matched && !o.date_mismatch
}

pub open spec fn all_clean(os: Seq<MatchOutcome>) -> bool {
    forall|i: int| 0 <= i < os.len() ==> outcome_clean(#[trigger] os[i])
}

/// The record sequence `mid` is what reconciliation makes of `records`.
pub open spec fn reconciles(
    records: Seq<ParticipantRecord>,
    mid: Seq<ParticipantRecord>,
    roster: Seq<RosterEntry>,
) -> bool {
    &&& mid.len() == records.len()
    &&& forall|i: int|
        0 <= i < records.len() ==> record_reconciled(records[i], #[trigger] mid[i], roster)
}

/// Reconciliation leaves class and target face alone, so whether and where
/// keying fails is decided by the input records.
proof fn lemma_missing_error_carries_over(
    a: Seq<ParticipantRecord>,
    b: Seq<ParticipantRecord>,
)
    requires
        a.len() == b.len(),
        forall|i: int|
            0 <= i < a.len() ==> (#[trigger] a[i]).cls == b[i].cls && a[i].target_face
                == b[i].target_face,
    ensures
        all_keyed(a) == all_keyed(b),
        first_unkeyed(a) == first_unkeyed(b),
        !all_keyed(a) ==> spec_missing_error(a) == spec_missing_error(b),
    decreases a.len(),
{
    assert(forall|i: int| 0 <= i < a.len() ==> has_key(#[trigger] a[i]) == has_key(b[i]));
    assert(forall|i: int| 0 <= i < b.len() ==> has_key(#[trigger] b[i]) == has_key(a[i]));
    if all_keyed(a) {
        assert forall|i: int| 0 <= i < b.len() implies has_key(#[trigger] b[i]) by {
            assert(has_key(a[i]));
        }
    }
    if all_keyed(b) {
        assert forall|i: int| 0 <= i < a.len() implies has_key(#[trigger] a[i]) by {
            assert(has_key(b[i]));
        }
    }
    if a.len() > 0 && has_key(a[0]) {
        lemma_missing_error_carries_over(a.drop_first(), b.drop_first());
    }
    if !all_keyed(a) {
        lemma_first_unkeyed_in_range(a);
        lemma_first_unkeyed_in_range(b);
    }
}

/// When some record cannot be keyed, the first such position is in range
/// and indeed cannot be keyed, while everything before it can.
proof fn lemma_first_unkeyed_in_range(s: Seq<ParticipantRecord>)
    requires
        !all_keyed(s),
    ensures
        0 <= first_unkeyed(s) < s.len(),
        !has_key(s[first_unkeyed(s)]),
        forall|k: int| 0 <= k < first_unkeyed(s) ==> has_key(#[trigger] s[k]),
    decreases s.len(),
{
    if s.len() == 0 {
        assert(all_keyed(s));
    } else if has_key(s[0]) {
        assert(!all_keyed(s.drop_first())) by {
            let j = choose|j: int| 0 <= j < s.len() && !has_key(s[j]);
            assert(s.drop_first()[j - 1] == s[j]);
        }
        lemma_first_unkeyed_in_range(s.drop_first());
        let f0 = first_unkeyed(s.drop_first());
        assert(first_unkeyed(s) == 1 + f0);
        assert(s[first_unkeyed(s)] == s.drop_first()[f0]);
        assert forall|k: int| 0 <= k < first_unkeyed(s) implies has_key(#[trigger] s[k]) by {
            if k > 0 {
                assert(s.drop_first()[k - 1] == s[k]);
            }
        }
    }
}

fn compute_status(outcomes: &Vec<MatchOutcome>) -> (r: RunStatus)
    ensures
        r == RunStatus::AllMatched <==> all_clean(outcomes@),
{
    let mut i: usize = 0;
    while i < outcomes.len()
        invariant
            i <= outcomes@.len(),
            forall|k: int| 0 <= k < i ==> outcome_clean(#[trigger] outcomes@[k]),
        decreases outcomes@.len() - i,
    {
        let o = &outcomes[i];
        let clean = match o.kind {
            MatchKind::Matched(_) => !o.date_mismatch,
            MatchKind::Unmatched => false,
            MatchKind::Ambiguous(_) => false,
        };
        if !clean {
            return RunStatus::CompletedWithWarnings;
        }
        i = i + 1;
    }
    RunStatus::AllMatched
}

/// Runs reconciliation, then assignment. On success the outcomes stand in
/// input order, the records are the assignment of the reconciled set under
/// the seed, and the status says whether anything needs review. The run
/// aborts, naming the first offending record and its missing field, exactly
/// when some input record lacks a class or a target face.
pub fn run(
    records: Vec<ParticipantRecord>,
    roster: &Vec<RosterEntry>,
    seed: u64,
) -> (r: Result<(Vec<ParticipantRecord>, Vec<MatchOutcome>, RunStatus), AssignError>)
    requires
        records@.len() < 0x1000_0000_0000_0000,
    ensures
        match r {
            Ok((out, outcomes, status)) => {
                &&& all_keyed(records@)
                &&& outcomes@.len() == records@.len()
                &&& forall|i: int|
                    0 <= i < records@.len() ==> #[trigger] outcomes@[i] == outcome_spec(
                        records@[i],
                        roster@,
                    )
                &&& exists|mid: Seq<ParticipantRecord>|
                    #[trigger] reconciles(records@, mid, roster@) && out@ == assign_spec(mid, seed)
                &&& (status == RunStatus::AllMatched <==> all_clean(outcomes@))
            },
            Err(e) => !all_keyed(records@) && e == spec_missing_error(records@),
        },
{
    let ghost input = records@;
    let (mid, outcomes) = reconcile(records, roster);
    let ghost mid_seq = mid@;
    proof {
        lemma_missing_error_carries_over(mid_seq, input);
    }
    match assign(mid, seed) {
        Ok(out) => {
            let status = compute_status(&outcomes);
            proof {
                assert(reconciles(input, mid_seq, roster@));
                assert(reconciles(input, mid_seq, roster@) && out@ == assign_spec(mid_seq, seed));
            }
            Ok((out, outcomes, status))
        },
        Err(e) => Err(e),
    }
}

} // verus!
