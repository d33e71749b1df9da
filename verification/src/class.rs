//! Competition classes and the eligibility rules that admit a participant
//! into a class based on equipment and age.
//!
//! Age is counted in whole months from the date of birth to the season
//! start. Each class has its own age bracket, inclusive at both ends, and a
//! set of equipment categories it is open to. Among the classes a
//! participant is eligible for, the first in canonical order is their
//! natural class; the others are upgrades.

use crate::date::spec_months_between;
use crate::date::Date;
use crate::date::months_between;
use vstd::prelude::*;
use vstd::string::StringExecFns;

verus! {

/// Equipment category a participant registers with.
#[derive(Clone, Copy, Debug, PartialEq, Eq, Structural)]
pub enum BowType {
    Recurve,
    Barebow,
    Compound,
}

/// Competition class of the event.
#[derive(Clone, Copy, Debug, PartialEq, Eq, Structural)]
pub enum Class {
    RSU,
    RST,
    CC,
    RP,
}

/// The canonical ordering of the classes of the event.
pub open spec fn all_classes_seq() -> Seq<Class> {
    seq![Class::RSU, Class::RST, Class::CC, Class::RP]
}

impl Class {
    /// Human-readable name of the class.
    pub fn name(&self) -> (r: &'static str)
        ensures
            r@ == self.spec_name(),
    {
        match self {
            Self::RSU => "Start Up",
            Self::RST => "Shooting Star",
            Self::CC => "Compound",
            Self::RP => "Professional",
        }
    }

    pub open spec fn spec_name(self) -> Seq<char> {
        match self {
            Self::RSU => "Start Up"@,
            Self::RST => "Shooting Star"@,
            Self::CC => "Compound"@,
            Self::RP => "Professional"@,
        }
    }

    /// Explanatory comment shown beside the class name.
    pub fn comment(&self) -> (r: &'static str)
        ensures
            r@ == self.spec_comment(),
    {
        match self {
            Self::RSU => "aus den jeweiligen Einsteigerkursen / Schüler",
            Self::RST => "Jugend, Erwachsene (Recurve + Blankbogen)",
            Self::CC => "alle ab Jugend",
            Self::RP => "",
        }
    }

    pub open spec fn spec_comment(self) -> Seq<char> {
        match self {
            Self::RSU => "aus den jeweiligen Einsteigerkursen / Schüler"@,
            Self::RST => "Jugend, Erwachsene (Recurve + Blankbogen)"@,
            Self::CC => "alle ab Jugend"@,
            Self::RP => ""@,
        }
    }

    /// Every class of the event, in canonical order.
    pub fn all_classes() -> (r: Vec<Class>)
        ensures
            r@ == all_classes_seq(),
    {
        let v = vec![Class::RSU, Class::RST, Class::CC, Class::RP];
        assert(v@ =~= all_classes_seq());
        v
    }
}

/// Marks whether an allowed class is the participant's natural class or one
/// they would shoot above their natural age bracket.
#[derive(Clone, Copy, Debug, PartialEq, Eq, Structural)]
pub enum ClassUpgradeStatus {
    Natural,
    Upgrade,
}

/// First day of the season the brackets are evaluated against.
pub open spec fn season_start() -> Date {
    Date { year: 2024, month: 1, day: 1 }
}

/// Inclusive age bracket of a class, in whole months at season start.
pub open spec fn spec_age_bracket(c: Class) -> (int, int) {
    match c {
        Class::RSU => (0int, 168int),
        Class::RST => (144int, 1440int),
        Class::CC => (144int, 1440int),
        Class::RP => (216int, 1440int),
    }
}

/// Equipment categories a class is open to.
pub open spec fn spec_applies_to(c: Class, bt: BowType) -> bool {
    match c {
        Class::RSU => bt == BowType::Recurve || bt == BowType::Barebow,
        Class::RST => bt == BowType::Recurve || bt == BowType::Barebow,
        Class::CC => bt == BowType::Compound,
        Class::RP => bt == BowType::Recurve,
    }
}

/// Age at season start, in whole months; negative for dates of birth after
/// the season start.
pub open spec fn spec_age_months(dob: Date) -> int {
    spec_months_between(dob, season_start())
}

/// A class admits a date of birth when the age in months lies inside the
/// class's bracket, both ends included.
pub open spec fn spec_in_range(c: Class, dob: Date) -> bool {
    spec_age_bracket(c).0 <= spec_age_months(dob) <= spec_age_bracket(c).1
}

/// A participant is eligible for a class when the class is open to their
/// equipment category and its bracket contains their age.
pub open spec fn eligible(c: Class, bt: BowType, dob: Date) -> bool {
    spec_applies_to(c, bt) && spec_in_range(c, dob)
}

/// The eligible classes in canonical order.
pub open spec fn eligible_seq(bt: BowType, dob: Date) -> Seq<Class> {
    all_classes_seq().filter(|c: Class| eligible(c, bt, dob))
}

/// The classes whose bracket contains the age, equipment left aside.
pub open spec fn in_range_seq(dob: Date) -> Seq<Class> {
    all_classes_seq().filter(|c: Class| spec_in_range(c, dob))
}

/// Pairs each eligible class with its upgrade mark: the first is natural,
/// every later one an upgrade.
pub open spec fn with_upgrade_flags(s: Seq<Class>) -> Seq<(Class, ClassUpgradeStatus)> {
    Seq::new(
        s.len(),
        |i: int|
            (
                s[i],
                if i == 0 {
                    ClassUpgradeStatus::Natural
                } else {
                    ClassUpgradeStatus::Upgrade
                },
            ),
    )
}

pub open spec fn allowed_classes_seq(bt: BowType, dob: Date) -> Seq<(Class, ClassUpgradeStatus)> {
    with_upgrade_flags(eligible_seq(bt, dob))
}

/// Every class value occurs in the canonical ordering.
proof fn lemma_all_classes_complete(c: Class)
    ensures
        all_classes_seq().contains(c),
{
    match c {
        Class::RSU => assert(all_classes_seq()[0] == c),
        Class::RST => assert(all_classes_seq()[1] == c),
        Class::CC => assert(all_classes_seq()[2] == c),
        Class::RP => assert(all_classes_seq()[3] == c),
    }
}

impl Class {
    /// Inclusive age bracket of this class, in whole months.
    pub fn age_bracket(&self) -> (r: (u32, u32))
        ensures
            (r.0 as int, r.1 as int) == spec_age_bracket(*self),
    {
        match self {
            Self::RSU => (0, 168),
            Self::RST => (144, 1440),
            Self::CC => (144, 1440),
            Self::RP => (216, 1440),
        }
    }

    /// Whether this class is open to the given equipment category.
    pub fn applies_to(&self, bt: BowType) -> (r: bool)
        ensures
            r == spec_applies_to(*self, bt),
    {
        match self {
            Self::RSU => bt == BowType::Recurve || bt == BowType::Barebow,
            Self::RST => bt == BowType::Recurve || bt == BowType::Barebow,
            Self::CC => bt == BowType::Compound,
            Self::RP => bt == BowType::Recurve,
        }
    }

    /// Whether this class's age bracket contains the age at season start.
    pub fn in_range(&self, dob: Date) -> (r: bool)
        requires
            dob.is_valid(),
        ensures
            r == spec_in_range(*self, dob),
    {
        let start = Date { year: 2024, month: 1, day: 1 };
        assert(start == season_start());
        let m = months_between(&dob, &start);
        let (lo, hi) = self.age_bracket();
        lo as i64 <= m && m <= hi as i64
    }

    /// The classes whose bracket contains the age, in canonical order,
    /// regardless of equipment.
    pub fn classes_for(dob: Date) -> (r: Vec<Class>)
        requires
            dob.is_valid(),
        ensures
            r@ == in_range_seq(dob),
    {
        let mut v: Vec<Class> = Vec::new();
        if Class::RSU.in_range(dob) {
            v.push(Class::RSU);
        }
        if Class::RST.in_range(dob) {
            v.push(Class::RST);
        }
        if Class::CC.in_range(dob) {
            v.push(Class::CC);
        }
        if Class::RP.in_range(dob) {
            v.push(Class::RP);
        }
        proof {
            reveal_with_fuel(Seq::filter, 5);
            assert(v@ =~= in_range_seq(dob));
        }
        v
    }

    /// The classes a participant may choose, in canonical order, each marked
    /// as their natural class or an upgrade. A class appears exactly when it
    /// is open to the equipment category and its age bracket contains the
    /// participant's age in months; the list is empty exactly when no such
    /// class exists.
    pub fn allowed_classes(bow_type: BowType, dob: Date) -> (r: Vec<(Class, ClassUpgradeStatus)>)
        requires
            dob.is_valid(),
        ensures
            r@ == allowed_classes_seq(bow_type, dob),
            forall|i: int| 0 <= i < r@.len() ==> eligible(#[trigger] r@[i].0, bow_type, dob),
            r@.len() == 0 <==> (forall|c: Class| !eligible(c, bow_type, dob)),
    {
        let mut elig: Vec<Class> = Vec::new();
        if Class::RSU.applies_to(bow_type) && Class::RSU.in_range(dob) {
            elig.push(Class::RSU);
        }
        if Class::RST.applies_to(bow_type) && Class::RST.in_range(dob) {
            elig.push(Class::RST);
        }
        if Class::CC.applies_to(bow_type) && Class::CC.in_range(dob) {
            elig.push(Class::CC);
        }
        if Class::RP.applies_to(bow_type) && Class::RP.in_range(dob) {
            elig.push(Class::RP);
        }
        proof {
            reveal_with_fuel(Seq::filter, 5);
            assert(elig@ =~= eligible_seq(bow_type, dob));
        }
        let mut r: Vec<(Class, ClassUpgradeStatus)> = Vec::new();
        let mut i: usize = 0;
        while i < elig.len()
            invariant
                elig@ == eligible_seq(bow_type, dob),
                i <= elig@.len(),
                r@ =~= with_upgrade_flags(elig@).take(i as int),
            decreases elig@.len() - i,
        {
            let status = if i == 0 {
                ClassUpgradeStatus::Natural
            } else {
                ClassUpgradeStatus::Upgrade
            };
            r.push((elig[i], status));
            i = i + 1;
        }
        proof {
            assert(r@ =~= allowed_classes_seq(bow_type, dob));
            assert forall|i: int| 0 <= i < r@.len() implies eligible(
                #[trigger] r@[i].0,
                bow_type,
                dob,
            ) by {
                assert(r@[i].0 == eligible_seq(bow_type, dob)[i]);
                all_classes_seq().lemma_filter_pred(|c: Class| eligible(c, bow_type, dob), i);
            }
            if r@.len() == 0 {
                assert forall|c: Class| !eligible(c, bow_type, dob) by {
                    if eligible(c, bow_type, dob) {
                        lemma_all_classes_complete(c);
                        let j = choose|j: int|
                            0 <= j < all_classes_seq().len() && all_classes_seq()[j] == c;
                        all_classes_seq().lemma_filter_contains(
                            |c: Class| eligible(c, bow_type, dob),
                            j,
                        );
                    }
                }
            }
        }
        r
    }
}

/// The textual code of a class, as written in registration data.
pub open spec fn spec_code(c: Class) -> Seq<char> {
    match c {
        Class::RSU => "RSU"@,
        Class::RST => "RST"@,
        Class::CC => "CC"@,
        Class::RP => "RP"@,
    }
}

/// Error for a class code that names no class of the event.
#[derive(Debug)]
pub struct UnknownClassError {
    pub class: String,
}

impl UnknownClassError {
    /// A readable description of the error.
    pub fn message(&self) -> (r: String)
        ensures
            r@ == "Unknown class: "@ + self.class@,
    {
        let mut s = "Unknown class: ".to_owned();
        s.append(self.class.as_str());
        s
    }
}

impl Class {
    /// Reads a class from its textual code. Succeeds exactly on the four
    /// codes of the event's classes.
    pub fn parse_code(s: &str) -> (r: Result<Class, UnknownClassError>)
        ensures
            match r {
                Ok(c) => s@ == spec_code(c),
                Err(e) => e.class@ == s@ && (forall|c: Class| s@ != spec_code(c)),
            },
    {
        let o = s.to_owned();
        if o == "RSU".to_owned() {
            Ok(Class::RSU)
        } else if o == "RST".to_owned() {
            Ok(Class::RST)
        } else if o == "CC".to_owned() {
            Ok(Class::CC)
        } else if o == "RP".to_owned() {
            Ok(Class::RP)
        } else {
            proof {
                assert forall|c: Class| s@ != spec_code(c) by {
                    match c {
                        Class::RSU => assert(spec_code(c) == "RSU"@),
                        Class::RST => assert(spec_code(c) == "RST"@),
                        Class::CC => assert(spec_code(c) == "CC"@),
                        Class::RP => assert(spec_code(c) == "RP"@),
                    }
                }
            }
            Err(UnknownClassError { class: o })
        }
    }
}

impl std::str::FromStr for Class {
    type Err = UnknownClassError;

    fn from_str(s: &str) -> Result<Self, Self::Err> {
        Self::parse_code(s)
    }
}

} // verus!
