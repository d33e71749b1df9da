use bale_engine::class::{BowType, Class};
use bale_engine::date::Date;
use bale_engine::model::{update_archer, ArcherModel, ArcherMsg};
use bale_engine::target_face::TargetFace;

fn dob(y: u32, m: u32, d: u32) -> Date {
    Date::new(y, m, d).expect("valid date")
}

#[test]
fn default_form_is_adult_recurve() {
    let m = ArcherModel::default();
    assert_eq!(m.first_name, "");
    assert_eq!(m.last_name, "");
    assert_eq!(m.date_of_birth, dob(1970, 1, 1));
    assert_eq!(m.bow_type, BowType::Recurve);
    assert_eq!(m.cls, Some(Class::RST));
    assert_eq!(m.session, 0);
    assert_eq!(m.possible_target_faces, vec![TargetFace::M40cm122]);
    assert_eq!(m.selected_target_face, TargetFace::M40cm122);
}

#[test]
fn update_target_face_resets_selection_outside_class() {
    let mut m = ArcherModel::default();
    m.cls = Some(Class::CC);
    m.update_target_face();
    assert_eq!(m.possible_target_faces, vec![TargetFace::M50cm80]);
    assert_eq!(m.selected_target_face, TargetFace::M50cm80);
}

#[test]
fn update_target_face_without_class_offers_nothing() {
    let mut m = ArcherModel::default();
    m.cls = None;
    m.update_target_face();
    assert!(m.possible_target_faces.is_empty());
    // With nothing to offer the selection stays as it was.
    assert_eq!(m.selected_target_face, TargetFace::M40cm122);
}

#[test]
fn check_keeps_an_allowed_class() {
    let mut m = ArcherModel::default();
    let follow = m.check_and_update_cls();
    assert_eq!(follow, None);
    assert_eq!(m.cls, Some(Class::RST));
}

#[test]
fn check_proposes_first_allowed_class_when_current_is_not() {
    let mut m = ArcherModel::default();
    m.bow_type = BowType::Compound;
    let follow = m.check_and_update_cls();
    assert_eq!(follow, Some(Some(Class::CC)));
    // The class itself is only proposed, not yet adopted.
    assert_eq!(m.cls, Some(Class::RST));
}

#[test]
fn check_proposes_none_when_nothing_is_allowed() {
    let mut m = ArcherModel::default();
    m.date_of_birth = dob(2025, 6, 1);
    let follow = m.check_and_update_cls();
    assert_eq!(follow, Some(None));
}

#[test]
fn ready_needs_matching_names_and_class() {
    let mut m = ArcherModel::default();
    assert!(m.ready_for_submission());
    m.first_name = "Jane".to_string();
    assert!(!m.ready_for_submission());
    m.last_name = "Doe".to_string();
    assert!(m.ready_for_submission());
    m.cls = None;
    assert!(!m.ready_for_submission());
}

#[test]
fn date_edit_parses_and_rechecks_class() {
    let mut m = ArcherModel::default();
    let follow = update_archer(ArcherMsg::DateOfBirthChanged("2014-06-01".to_string()), &mut m);
    assert_eq!(m.date_of_birth, dob(2014, 6, 1));
    // A ten-year-old recurve archer is no Shooting Star; Start Up follows.
    match follow {
        Some(ArcherMsg::ClassChanged(Some(Class::RSU))) => {}
        other => panic!("unexpected follow-up: {:?}", other.is_some()),
    }
}

#[test]
fn bad_date_edit_falls_back() {
    let mut m = ArcherModel::default();
    let follow = update_archer(ArcherMsg::DateOfBirthChanged("yesterday".to_string()), &mut m);
    assert_eq!(m.date_of_birth, dob(1970, 1, 1));
    assert!(follow.is_none());
}

#[test]
fn class_edit_updates_faces() {
    let mut m = ArcherModel::default();
    let follow = update_archer(ArcherMsg::ClassChanged(Some(Class::RP)), &mut m);
    assert!(follow.is_none());
    assert_eq!(m.cls, Some(Class::RP));
    assert_eq!(m.possible_target_faces, vec![TargetFace::M60cm122]);
    assert_eq!(m.selected_target_face, TargetFace::M60cm122);
}

#[test]
fn bow_edit_rechecks_class() {
    let mut m = ArcherModel::default();
    let follow = update_archer(ArcherMsg::BowTypeChange(BowType::Compound), &mut m);
    assert_eq!(m.bow_type, BowType::Compound);
    match follow {
        Some(ArcherMsg::ClassChanged(Some(Class::CC))) => {}
        _ => panic!("expected a class change towards Compound"),
    }
}

#[test]
fn name_and_session_edits_apply_directly() {
    let mut m = ArcherModel::default();
    assert!(update_archer(ArcherMsg::FirstNameChanged("Jane".to_string()), &mut m).is_none());
    assert!(update_archer(ArcherMsg::LastNameChanged("Doe".to_string()), &mut m).is_none());
    assert!(update_archer(ArcherMsg::SessionChanged(1), &mut m).is_none());
    assert!(
        update_archer(ArcherMsg::TargetFaceChanged(TargetFace::M40cm122), &mut m).is_none()
    );
    assert_eq!(m.first_name, "Jane");
    assert_eq!(m.last_name, "Doe");
    assert_eq!(m.session, 1);
    assert_eq!(m.selected_target_face, TargetFace::M40cm122);
}
