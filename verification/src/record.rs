//! The participant record moved through the pipeline, the roster it is
//! reconciled against, and the outcome reported for each record.

use crate::class::BowType;
use crate::class::Class;
use crate::date::Date;
use crate::target_face::TargetFace;
use vstd::prelude::*;

verus! {

/// Lane letter of a bale; a bale hosts up to four participants.
#[derive(Clone, Copy, Debug, PartialEq, Eq, Structural)]
pub enum Lane {
    A,
    B,
    C,
    D,
}

/// A shooting position: bale number and lane letter.
#[derive(Clone, Copy, Debug, PartialEq, Eq, Structural)]
pub struct BaleSlot {
    pub number: u64,
    pub lane: Lane,
}

pub open spec fn spec_lane_letter(l: Lane) -> char {
    match l {
        Lane::A => 'A',
        Lane::B => 'B',
        Lane::C => 'C',
        Lane::D => 'D',
    }
}

impl BaleSlot {
    /// The slot's short label: bale number followed by the lane letter.
    pub open spec fn label_seq(self) -> Seq<char> {
        crate::date::dec_seq(self.number as int).push(spec_lane_letter(self.lane))
    }

    /// Renders the slot's label, for example the first lane of the first
    /// bale as the digit one followed by the letter A.
    pub fn label(&self) -> (r: String)
        ensures
            r@ == self.label_seq(),
    {
        proof {
            reveal_strlit("A");
            reveal_strlit("B");
            reveal_strlit("C");
            reveal_strlit("D");
        }
        let mut s = crate::date::fmt_u64(self.number);
        let letter = match self.lane {
            Lane::A => "A",
            Lane::B => "B",
            Lane::C => "C",
            Lane::D => "D",
        };
        s.append(letter);
        assert(s@ =~= self.label_seq());
        s
    }
}

/// A locally registered participant.
#[derive(Debug)]
pub struct ParticipantRecord {
    /// Identity number; provisional until reconciled against the roster.
    pub bib: i64,
    pub first_name: String,
    pub last_name: String,
    pub date_of_birth: Date,
    pub bow_type: BowType,
    pub cls: Option<Class>,
    /// Time slot the participant registered for.
    pub session: u8,
    pub target_face: Option<TargetFace>,
    /// Shooting position; absent until assignment has run.
    pub bale: Option<BaleSlot>,
}

/// An entry of the authoritative external roster. Its date of birth is kept
/// as the export writes it: day first, dot separated, no leading zeros.
#[derive(Debug)]
pub struct RosterEntry {
    pub id: i64,
    pub first_name: String,
    pub last_name: String,
    pub date_of_birth: String,
}

/// How a record fared against the roster.
#[derive(Clone, Copy, Debug, PartialEq, Eq, Structural)]
pub enum MatchKind {
    /// Exactly one roster entry carried the record's name; its identity
    /// number was adopted.
    Matched(i64),
    /// No roster entry carried the record's name.
    Unmatched,
    /// This many roster entries carried the record's name; none was chosen.
    Ambiguous(usize),
}

/// Outcome reported for one record, in input order.
#[derive(Clone, Copy, Debug, PartialEq, Eq, Structural)]
pub struct MatchOutcome {
    pub kind: MatchKind,
    /// Advisory: the unique candidate's date of birth did not agree with the
    /// record's. The identity number is adopted regardless.
    pub date_mismatch: bool,
}

} // verus!
