//! Reconciliation of locally registered participants against the
//! authoritative roster: names are trimmed, candidates are selected by exact
//! name equality, and a unique candidate's identity number is adopted. Zero
//! or several candidates are reported, never resolved silently; a date of
//! birth that disagrees is reported but does not block adoption.

use crate::date::day_first_seq;
use crate::record::MatchKind;
use crate::record::MatchOutcome;
use crate::record::ParticipantRecord;
use crate::record::RosterEntry;
use vstd::prelude::*;

verus! {

/// What `str::trim` returns for the given text.
pub uninterp spec fn trimmed(s: Seq<char>) -> Seq<char>;

/// Relies on str::trim: returns the text with leading and trailing
/// whitespace removed, so it is no longer than the input and trimming it
/// again changes nothing.
#[verifier::external_body]
pub fn trim_owned(s: &String) -> (r: String)
    ensures
        r@ == trimmed(s@),
        trimmed(r@) == r@,
        r@.len() <= s@.len(),
{
    s.trim().to_string()
}

/// A roster entry carries the given first and last name, exactly and case
/// sensitively.
pub open spec fn name_matches(e: RosterEntry, first: Seq<char>, last: Seq<char>) -> bool {
    e.first_name@ == first && e.last_name@ == last
}

/// The roster entries carrying the given name, in roster order.
pub open spec fn candidates(roster: Seq<RosterEntry>, first: Seq<char>, last: Seq<char>) -> Seq<
    RosterEntry,
> {
    roster.filter(|e: RosterEntry| name_matches(e, first, last))
}

/// The candidates for a record: roster entries carrying the record's
/// trimmed name.
pub open spec fn candidates_for(r: ParticipantRecord, roster: Seq<RosterEntry>) -> Seq<
    RosterEntry,
> {
    candidates(roster, trimmed(r.first_name@), trimmed(r.last_name@))
}

/// The outcome reconciliation reports for a record: adoption of a unique
/// candidate's identity (with an advisory date check), or how many
/// candidates there were.
pub open spec fn outcome_spec(r: ParticipantRecord, roster: Seq<RosterEntry>) -> MatchOutcome {
    let cs = candidates_for(r, roster);
    if cs.len() == 1 {
        MatchOutcome {
            kind: MatchKind::Matched(cs[0].id),
            date_mismatch: day_first_seq(r.date_of_birth) != cs[0].date_of_birth@,
        }
    } else if cs.len() == 0 {
        MatchOutcome { kind: MatchKind::Unmatched, date_mismatch: false }
    } else {
        MatchOutcome { kind: MatchKind::Ambiguous(cs.len() as usize), date_mismatch: false }
    }
}

/// How a reconciled record relates to the one it came from: names trimmed,
/// the identity number adopted from a unique candidate and otherwise kept,
/// everything else unchanged.
pub open spec fn record_reconciled(
    old_r: ParticipantRecord,
    new_r: ParticipantRecord,
    roster: Seq<RosterEntry>,
) -> bool {
    let cs = candidates_for(old_r, roster);
    &&& new_r.first_name@ == trimmed(old_r.first_name@)
    &&& new_r.last_name@ == trimmed(old_r.last_name@)
    &&& trimmed(new_r.first_name@) == new_r.first_name@
    &&& trimmed(new_r.last_name@) == new_r.last_name@
    &&& new_r.bib == if cs.len() == 1 {
        cs[0].id
    } else {
        old_r.bib
    }
    &&& new_r.date_of_birth == old_r.date_of_birth
    &&& new_r.bow_type == old_r.bow_type
    &&& new_r.cls == old_r.cls
    &&& new_r.session == old_r.session
    &&& new_r.target_face == old_r.target_face
    &&& new_r.bale == old_r.bale
}

/// Counts the candidates for a name and finds where the first one stands.
fn find_candidates(first: &String, last: &String, roster: &Vec<RosterEntry>) -> (r: (usize, usize))
    ensures
        r.0 == candidates(roster@, first@, last@).len(),
        r.0 > 0 ==> r.1 < roster@.len() && candidates(roster@, first@, last@)[0] == roster@[r.1 as int],
{
    let mut count: usize = 0;
    let mut first_idx: usize = 0;
    let mut j: usize = 0;
    while j < roster.len()
        invariant
            j <= roster@.len(),
            count <= j,
            count == candidates(roster@.take(j as int), first@, last@).len(),
            count > 0 ==> first_idx < j && candidates(roster@.take(j as int), first@, last@)[0]
                == roster@[first_idx as int],
        decreases roster@.len() - j,
    {
        let e = &roster[j];
        let m = e.first_name == *first && e.last_name == *last;
        proof {
            reveal(Seq::filter);
            assert(roster@.take(j as int + 1).drop_last() =~= roster@.take(j as int));
            assert(roster@.take(j as int + 1).last() == roster@[j as int]);
        }
        if m {
            if count == 0 {
                first_idx = j;
            }
            count = count + 1;
        }
        j = j + 1;
    }
    proof {
        assert(roster@.take(roster@.len() as int) =~= roster@);
    }
    (count, first_idx)
}

/// Reconciles the local records against the roster. Returns the corrected
/// records and one outcome per record, both in input order.
pub fn reconcile(records: Vec<ParticipantRecord>, roster: &Vec<RosterEntry>) -> (r: (
    Vec<ParticipantRecord>,
    Vec<MatchOutcome>,
))
    ensures
        r.0@.len() == records@.len(),
        r.1@.len() == records@.len(),
        forall|i: int|
            0 <= i < records@.len() ==> record_reconciled(records@[i], #[trigger] r.0@[i], roster@),
        forall|i: int|
            0 <= i < records@.len() ==> #[trigger] r.1@[i] == outcome_spec(records@[i], roster@),
{
    let mut out: Vec<ParticipantRecord> = Vec::new();
    let mut outcomes: Vec<MatchOutcome> = Vec::new();
    let mut i: usize = 0;
    while i < records.len()
        invariant
            i <= records@.len(),
            out@.len() == i,
            outcomes@.len() == i,
            forall|k: int|
                0 <= k < i ==> record_reconciled(records@[k], #[trigger] out@[k], roster@),
            forall|k: int| 0 <= k < i ==> #[trigger] outcomes@[k] == outcome_spec(records@[k], roster@),
        decreases records@.len() - i,
    {
        let rec = &records[i];
        let tf = trim_owned(&rec.first_name);
        let tl = trim_owned(&rec.last_name);
        let (count, fidx) = find_candidates(&tf, &tl, roster);
        let new_bib: i64;
        let outcome: MatchOutcome;
        if count == 1 {
            let cand = &roster[fidx];
            let dob_text = rec.date_of_birth.day_first_text();
            let mismatch = !(dob_text == cand.date_of_birth);
            new_bib = cand.id;
            outcome = MatchOutcome { kind: MatchKind::Matched(cand.id), date_mismatch: mismatch };
        } else if count == 0 {
            new_bib = rec.bib;
            outcome = MatchOutcome { kind: MatchKind::Unmatched, date_mismatch: false };
        } else {
            new_bib = rec.bib;
            outcome = MatchOutcome { kind: MatchKind::Ambiguous(count), date_mismatch: false };
        }
        let new_rec = ParticipantRecord {
            bib: new_bib,
            first_name: tf,
            last_name: tl,
            date_of_birth: rec.date_of_birth,
            bow_type: rec.bow_type,
            cls: rec.cls,
            session: rec.session,
            target_face: rec.target_face,
            bale: rec.bale,
        };
        out.push(new_rec);
        outcomes.push(outcome);
        i = i + 1;
    }
    (out, outcomes)
}

/// Reconciliation is idempotent on a uniquely matched record: running it
/// again over the same roster adopts the same identity number and reports
/// the same outcome, with no new warnings.
pub proof fn lemma_reconcile_idempotent(
    r1: ParticipantRecord,
    r2: ParticipantRecord,
    r3: ParticipantRecord,
    roster: Seq<RosterEntry>,
)
    requires
        record_reconciled(r1, r2, roster),
        record_reconciled(r2, r3, roster),
        candidates_for(r1, roster).len() == 1,
    ensures
        r3.bib == r2.bib,
        outcome_spec(r2, roster) == outcome_spec(r1, roster),
{
    assert(candidates_for(r2, roster) == candidates_for(r1, roster));
}

/// A predicate that holds at one position puts at least one element in the
/// filtered sequence.
proof fn lemma_filter_at_least_one<A>(s: Seq<A>, pred: spec_fn(A) -> bool, j: int)
    requires
        0 <= j < s.len(),
        pred(s[j]),
    ensures
        s.filter(pred).len() >= 1,
{
    s.lemma_filter_contains(pred, j);
    assert(s.filter(pred).contains(s[j]));
}

/// A predicate that holds at two distinct positions puts at least two
/// elements in the filtered sequence.
proof fn lemma_filter_at_least_two<A>(s: Seq<A>, pred: spec_fn(A) -> bool, j: int, k: int)
    requires
        0 <= j < k < s.len(),
        pred(s[j]),
        pred(s[k]),
    ensures
        s.filter(pred).len() >= 2,
    decreases s.len(),
{
    reveal(Seq::filter);
    if k == s.len() - 1 {
        lemma_filter_at_least_one(s.drop_last(), pred, j);
    } else {
        lemma_filter_at_least_two(s.drop_last(), pred, j, k);
    }
}

/// A record whose trimmed name is carried by two or more roster entries is
/// reported ambiguous, with the candidate count, and keeps the identity
/// number it came with.
pub proof fn lemma_ambiguity_reported(
    old_r: ParticipantRecord,
    new_r: ParticipantRecord,
    roster: Seq<RosterEntry>,
    j: int,
    k: int,
)
    requires
        record_reconciled(old_r, new_r, roster),
        0 <= j < k < roster.len(),
        name_matches(roster[j], trimmed(old_r.first_name@), trimmed(old_r.last_name@)),
        name_matches(roster[k], trimmed(old_r.first_name@), trimmed(old_r.last_name@)),
    ensures
        new_r.bib == old_r.bib,
        outcome_spec(old_r, roster) == (MatchOutcome {
            kind: MatchKind::Ambiguous(candidates_for(old_r, roster).len() as usize),
            date_mismatch: false,
        }),
{
    let first = trimmed(old_r.first_name@);
    let last = trimmed(old_r.last_name@);
    lemma_filter_at_least_two(roster, |e: RosterEntry| name_matches(e, first, last), j, k);
}

} // verus!
