//! The registration form's model of one archer and the rules that keep it
//! consistent while it is edited: the chosen class must stay among the
//! allowed ones, and the chosen target face among the faces of the chosen
//! class.

use crate::class::BowType;
use crate::class::Class;
use crate::class::ClassUpgradeStatus;
use crate::class::allowed_classes_seq;
use crate::class::eligible_seq;
use crate::date::Date;
use crate::date::iso_seq;
use crate::target_face::TargetFace;
use crate::target_face::faces_for_spec;
use vstd::prelude::*;

verus! {

/// One archer as edited in the registration form.
pub struct ArcherModel {
    pub first_name: String,
    pub last_name: String,
    pub date_of_birth: Date,
    pub bow_type: BowType,
    pub cls: Option<Class>,
    pub session: u8,
    pub possible_target_faces: Vec<TargetFace>,
    pub selected_target_face: TargetFace,
}

/// An edit of the form.
pub enum ArcherMsg {
    FirstNameChanged(String),
    LastNameChanged(String),
    DateOfBirthChanged(String),
    BowTypeChange(BowType),
    ClassChanged(Option<Class>),
    SessionChanged(u8),
    TargetFaceChanged(TargetFace),
}

/// The faces a chosen class allows; none while no class is chosen.
pub open spec fn faces_opt_seq(cls: Option<Class>) -> Seq<TargetFace> {
    match cls {
        Some(c) => faces_for_spec(c),
        None => Seq::empty(),
    }
}

/// The face that stays selected after the allowed list is recomputed: the
/// old one if still allowed, else the list's first recommendation, else,
/// with no faces to offer, the old one.
pub open spec fn updated_selected(cls: Option<Class>, sel: TargetFace) -> TargetFace {
    let faces = faces_opt_seq(cls);
    if faces.contains(sel) {
        sel
    } else if faces.len() > 0 {
        faces[0]
    } else {
        sel
    }
}

/// The date the form falls back to when a date of birth cannot be read.
pub open spec fn default_date() -> Date {
    Date { year: 1970, month: 1, day: 1 }
}

fn allowed_list_contains(v: &Vec<(Class, ClassUpgradeStatus)>, c: Class) -> (r: bool)
    ensures
        r == exists|k: int| 0 <= k < v@.len() && (#[trigger] v@[k]).0 == c,
{
    let mut i: usize = 0;
    while i < v.len()
        invariant
            i <= v@.len(),
            forall|k: int| 0 <= k < i ==> (#[trigger] v@[k]).0 != c,
        decreases v@.len() - i,
    {
        if v[i].0 == c {
            return true;
        }
        i = i + 1;
    }
    false
}

fn face_list_contains(v: &Vec<TargetFace>, f: TargetFace) -> (r: bool)
    ensures
        r == v@.contains(f),
{
    let mut i: usize = 0;
    while i < v.len()
        invariant
            i <= v@.len(),
            forall|k: int| 0 <= k < i ==> v@[k] != f,
        decreases v@.len() - i,
    {
        if v[i] == f {
            return true;
        }
        i = i + 1;
    }
    false
}

impl ArcherModel {
    /// Recomputes the allowed target faces from the chosen class and keeps
    /// the selection inside them.
    pub fn update_target_face(&mut self)
        ensures
            final(self).possible_target_faces@ == faces_opt_seq(old(self).cls),
            final(self).selected_target_face == updated_selected(
                old(self).cls,
                old(self).selected_target_face,
            ),
            final(self).first_name == old(self).first_name,
            final(self).last_name == old(self).last_name,
            final(self).date_of_birth == old(self).date_of_birth,
            final(self).bow_type == old(self).bow_type,
            final(self).cls == old(self).cls,
            final(self).session == old(self).session,
    {
        self.possible_target_faces = match self.cls {
            Some(c) => TargetFace::for_cls(c),
            None => Vec::new(),
        };
        proof {
            assert(self.possible_target_faces@ =~= faces_opt_seq(self.cls));
        }
        if !face_list_contains(&self.possible_target_faces, self.selected_target_face) {
            if self.possible_target_faces.len() > 0 {
                self.selected_target_face = self.possible_target_faces[0];
            }
        }
    }

    /// Checks the chosen class against the allowed ones. When it is still
    /// allowed, nothing changes and no edit is issued. Otherwise the allowed
    /// target faces are recomputed (still against the old class, whose
    /// change is left to the issued edit) and the edit carrying the new
    /// class is returned: the first allowed class, or none when none is
    /// allowed.
    pub fn check_and_update_cls(&mut self) -> (r: Option<Option<Class>>)
        requires
            old(self).date_of_birth.is_valid(),
        ensures
            check_and_update_ensures(*old(self), *final(self), r),
    {
        let allowed = Class::allowed_classes(self.bow_type, self.date_of_birth);
        let mut has_current = false;
        if let Some(c) = self.cls {
            has_current = allowed_list_contains(&allowed, c);
            proof {
                let avail = eligible_seq(self.bow_type, self.date_of_birth);
                assert(allowed@ == allowed_classes_seq(self.bow_type, self.date_of_birth));
                assert(forall|k: int|
                    0 <= k < avail.len() ==> (#[trigger] allowed@[k]).0 == avail[k]);
                assert(allowed@.len() == avail.len());
                if has_current {
                    let k = choose|k: int| 0 <= k < allowed@.len() && (#[trigger] allowed@[k]).0
                        == c;
                    assert(avail[k] == c);
                    assert(avail.contains(c));
                } else {
                    if avail.contains(c) {
                        let k = choose|k: int| 0 <= k < avail.len() && avail[k] == c;
                        assert(allowed@[k].0 == c);
                    }
                }
            }
        }
        if self.cls.is_some() && has_current {
            return None;
        }
        let new_cls = if allowed.len() > 0 {
            let first = allowed[0].0;
            proof {
                assert(allowed@[0].0 == eligible_seq(self.bow_type, self.date_of_birth)[0]);
            }
            Some(first)
        } else {
            None
        };
        self.update_target_face();
        Some(new_cls)
    }

    /// The form may be submitted when the first and last name are either
    /// both present or both absent, and a class is chosen.
    pub fn ready_for_submission(&self) -> (r: bool)
        ensures
            r == ((self.first_name@.len() == 0) == (self.last_name@.len() == 0) && self.cls
                is Some),
    {
        let fe = self.first_name.as_str().is_empty();
        let le = self.last_name.as_str().is_empty();
        fe == le && self.cls.is_some()
    }
}

/// The decision table of `check_and_update_cls`: either the chosen class is
/// still allowed and nothing happens, or the faces are recomputed and the
/// edit with the new class is issued.
pub open spec fn check_and_update_ensures(
    pre: ArcherModel,
    post: ArcherModel,
    r: Option<Option<Class>>,
) -> bool {
    let avail = eligible_seq(pre.bow_type, pre.date_of_birth);
    if pre.cls matches Some(c) && avail.contains(c) {
        r is None && post == pre
    } else {
        let new_cls = if avail.len() > 0 {
            Some(avail[0])
        } else {
            None
        };
        &&& r == Some(new_cls)
        &&& post.possible_target_faces@ == faces_opt_seq(pre.cls)
        &&& post.selected_target_face == updated_selected(pre.cls, pre.selected_target_face)
        &&& post.first_name == pre.first_name
        &&& post.last_name == pre.last_name
        &&& post.date_of_birth == pre.date_of_birth
        &&& post.bow_type == pre.bow_type
        &&& post.cls == pre.cls
        &&& post.session == pre.session
    }
}

impl Default for ArcherModel {
    /// A blank form: empty names, the fallback date of birth, recurve, and
    /// the natural class and recommended face for that combination.
    fn default() -> (r: Self)
        ensures
            r.first_name@ == Seq::<char>::empty(),
            r.last_name@ == Seq::<char>::empty(),
            r.date_of_birth == default_date(),
            r.bow_type == BowType::Recurve,
            r.cls == Some(Class::RST),
            r.session == 0,
            r.possible_target_faces@ == faces_for_spec(Class::RST),
            r.selected_target_face == TargetFace::M40cm122,
    {
        let date = Date { year: 1970, month: 1, day: 1 };
        let allowed = Class::allowed_classes(BowType::Recurve, date);
        proof {
            reveal_with_fuel(Seq::filter, 5);
            assert(eligible_seq(BowType::Recurve, date) =~= seq![Class::RST, Class::RP]);
            assert(allowed@[0].0 == Class::RST);
        }
        let cls = allowed[0].0;
        let faces = TargetFace::for_cls(cls);
        let selected = faces[0];
        ArcherModel {
            first_name: String::new(),
            last_name: String::new(),
            date_of_birth: date,
            bow_type: BowType::Recurve,
            cls: Some(cls),
            session: 0,
            possible_target_faces: faces,
            selected_target_face: selected,
        }
    }
}

/// Applies one edit to the model, as the form does: names, session and face
/// are set directly; a new date of birth (read from the dashed form, falling
/// back to the fallback date) or a new equipment category re-checks the
/// chosen class, and the follow-up edit carrying the class to adopt, if any,
/// is returned; adopting a class recomputes the allowed faces.
pub fn update_archer(msg: ArcherMsg, model: &mut ArcherModel) -> (r: Option<ArcherMsg>)
    requires
        old(model).date_of_birth.is_valid(),
    ensures
        match msg {
            ArcherMsg::FirstNameChanged(n) => r is None && final(model).first_name == n
                && unchanged_but_first_name(*old(model), *final(model)),
            ArcherMsg::LastNameChanged(n) => r is None && final(model).last_name == n
                && unchanged_but_last_name(*old(model), *final(model)),
            ArcherMsg::DateOfBirthChanged(s) => {
                let nd = final(model).date_of_birth;
                &&& (nd.is_valid() && s@ == iso_seq(nd)) || (nd == default_date() && (forall|
                    d: Date,
                |
                    d.is_valid() ==> s@ != iso_seq(d)))
                &&& follow_up_ensures(*old(model), nd, *final(model), r)
            },
            ArcherMsg::BowTypeChange(bt) => final(model).bow_type == bt
                && final(model).date_of_birth == old(model).date_of_birth
                && bow_follow_up_ensures(*old(model), bt, *final(model), r),
            ArcherMsg::ClassChanged(cls) => r is None && class_changed_ensures(
                *old(model),
                cls,
                *final(model),
            ),
            ArcherMsg::SessionChanged(s) => r is None && final(model).session == s
                && unchanged_but_session(*old(model), *final(model)),
            ArcherMsg::TargetFaceChanged(tf) => r is None && final(model).selected_target_face == tf
                && unchanged_but_selected(*old(model), *final(model)),
        },
{
    match msg {
        ArcherMsg::FirstNameChanged(n) => {
            model.first_name = n;
            None
        },
        ArcherMsg::LastNameChanged(n) => {
            model.last_name = n;
            None
        },
        ArcherMsg::DateOfBirthChanged(dob) => {
            model.date_of_birth = match Date::parse_iso(dob.as_str()) {
                Some(valid) => valid,
                None => Date { year: 1970, month: 1, day: 1 },
            };
            let follow = model.check_and_update_cls();
            match follow {
                Some(nc) => Some(ArcherMsg::ClassChanged(nc)),
                None => None,
            }
        },
        ArcherMsg::BowTypeChange(bt) => {
            model.bow_type = bt;
            let follow = model.check_and_update_cls();
            match follow {
                Some(nc) => Some(ArcherMsg::ClassChanged(nc)),
                None => None,
            }
        },
        ArcherMsg::ClassChanged(cls) => {
            model.cls = cls;
            model.update_target_face();
            None
        },
        ArcherMsg::TargetFaceChanged(tf) => {
            model.selected_target_face = tf;
            None
        },
        ArcherMsg::SessionChanged(session) => {
            model.session = session;
            None
        },
    }
}

/// Adopting a class recomputes the allowed faces against it and keeps the
/// selection inside them; everything else stays.
pub open spec fn class_changed_ensures(
    pre: ArcherModel,
    cls: Option<Class>,
    post: ArcherModel,
) -> bool {
    &&& post.cls == cls
    &&& post.possible_target_faces@ == faces_opt_seq(cls)
    &&& post.selected_target_face == updated_selected(cls, pre.selected_target_face)
    &&& post.first_name == pre.first_name
    &&& post.last_name == pre.last_name
    &&& post.date_of_birth == pre.date_of_birth
    &&& post.bow_type == pre.bow_type
    &&& post.session == pre.session
}

pub open spec fn unchanged_but_first_name(pre: ArcherModel, post: ArcherModel) -> bool {
    &&& post.last_name == pre.last_name
    &&& post.date_of_birth == pre.date_of_birth
    &&& post.bow_type == pre.bow_type
    &&& post.cls == pre.cls
    &&& post.session == pre.session
    &&& post.possible_target_faces == pre.possible_target_faces
    &&& post.selected_target_face == pre.selected_target_face
}

pub open spec fn unchanged_but_last_name(pre: ArcherModel, post: ArcherModel) -> bool {
    &&& post.first_name == pre.first_name
    &&& post.date_of_birth == pre.date_of_birth
    &&& post.bow_type == pre.bow_type
    &&& post.cls == pre.cls
    &&& post.session == pre.session
    &&& post.possible_target_faces == pre.possible_target_faces
    &&& post.selected_target_face == pre.selected_target_face
}

pub open spec fn unchanged_but_session(pre: ArcherModel, post: ArcherModel) -> bool {
    &&& post.first_name == pre.first_name
    &&& post.last_name == pre.last_name
    &&& post.date_of_birth == pre.date_of_birth
    &&& post.bow_type == pre.bow_type
    &&& post.cls == pre.cls
    &&& post.possible_target_faces == pre.possible_target_faces
    &&& post.selected_target_face == pre.selected_target_face
}

pub open spec fn unchanged_but_selected(pre: ArcherModel, post: ArcherModel) -> bool {
    &&& post.first_name == pre.first_name
    &&& post.last_name == pre.last_name
    &&& post.date_of_birth == pre.date_of_birth
    &&& post.bow_type == pre.bow_type
    &&& post.cls == pre.cls
    &&& post.session == pre.session
    &&& post.possible_target_faces == pre.possible_target_faces
}

/// After a date change the class check runs against the new date: either
/// the chosen class is still allowed and no edit follows, or the faces are
/// recomputed against the still-current class and the edit carrying the new
/// class follows.
pub open spec fn follow_up_ensures(
    pre: ArcherModel,
    nd: Date,
    post: ArcherModel,
    r: Option<ArcherMsg>,
) -> bool {
    let avail = eligible_seq(pre.bow_type, nd);
    if pre.cls matches Some(c) && avail.contains(c) {
        &&& r is None
        &&& post.first_name == pre.first_name
        &&& post.last_name == pre.last_name
        &&& post.bow_type == pre.bow_type
        &&& post.cls == pre.cls
        &&& post.session == pre.session
        &&& post.possible_target_faces == pre.possible_target_faces
        &&& post.selected_target_face == pre.selected_target_face
    } else {
        let new_cls = if avail.len() > 0 {
            Some(avail[0])
        } else {
            None
        };
        &&& r == Some(ArcherMsg::ClassChanged(new_cls))
        &&& post.possible_target_faces@ == faces_opt_seq(pre.cls)
        &&& post.selected_target_face == updated_selected(pre.cls, pre.selected_target_face)
        &&& post.first_name == pre.first_name
        &&& post.last_name == pre.last_name
        &&& post.bow_type == pre.bow_type
        &&& post.cls == pre.cls
        &&& post.session == pre.session
    }
}

/// After an equipment change the class check runs against the new category,
/// with the date unchanged.
pub open spec fn bow_follow_up_ensures(
    pre: ArcherModel,
    bt: BowType,
    post: ArcherModel,
    r: Option<ArcherMsg>,
) -> bool {
    let avail = eligible_seq(bt, pre.date_of_birth);
    if pre.cls matches Some(c) && avail.contains(c) {
        &&& r is None
        &&& post.first_name == pre.first_name
        &&& post.last_name == pre.last_name
        &&& post.cls == pre.cls
        &&& post.session == pre.session
        &&& post.possible_target_faces == pre.possible_target_faces
        &&& post.selected_target_face == pre.selected_target_face
    } else {
        let new_cls = if avail.len() > 0 {
            Some(avail[0])
        } else {
            None
        };
        &&& r == Some(ArcherMsg::ClassChanged(new_cls))
        &&& post.possible_target_faces@ == faces_opt_seq(pre.cls)
        &&& post.selected_target_face == updated_selected(pre.cls, pre.selected_target_face)
        &&& post.first_name == pre.first_name
        &&& post.last_name == pre.last_name
        &&& post.cls == pre.cls
        &&& post.session == pre.session
    }
}

} // verus!
