use bale_engine::class::{BowType, Class, ClassUpgradeStatus};
use bale_engine::date::Date;
use bale_engine::target_face::TargetFace;

fn date(y: u32, m: u32, d: u32) -> Date {
    Date::new(y, m, d).expect("valid date")
}

#[test]
fn class_names() {
    assert_eq!(Class::RSU.name(), "Start Up");
    assert_eq!(Class::RST.name(), "Shooting Star");
    assert_eq!(Class::CC.name(), "Compound");
    assert_eq!(Class::RP.name(), "Professional");
}

#[test]
fn class_comments() {
    assert_eq!(Class::RSU.comment(), "aus den jeweiligen Einsteigerkursen / Schüler");
    assert_eq!(Class::RST.comment(), "Jugend, Erwachsene (Recurve + Blankbogen)");
    assert_eq!(Class::RP.comment(), "");
}

#[test]
fn all_classes_in_canonical_order() {
    let all = Class::all_classes();
    assert_eq!(all, vec![Class::RSU, Class::RST, Class::CC, Class::RP]);
}

#[test]
fn young_recurve_gets_start_up_only() {
    // Age 115 months at season start: inside RSU's bracket only.
    let allowed = Class::allowed_classes(BowType::Recurve, date(2014, 6, 1));
    assert_eq!(allowed, vec![(Class::RSU, ClassUpgradeStatus::Natural)]);
}

#[test]
fn teen_recurve_may_upgrade() {
    // Age 163 months: inside RSU's bracket and RST's; RST is the upgrade.
    let allowed = Class::allowed_classes(BowType::Recurve, date(2010, 6, 1));
    assert_eq!(
        allowed,
        vec![
            (Class::RSU, ClassUpgradeStatus::Natural),
            (Class::RST, ClassUpgradeStatus::Upgrade),
        ]
    );
}

#[test]
fn adult_recurve_gets_shooting_star_and_professional() {
    let allowed = Class::allowed_classes(BowType::Recurve, date(1990, 3, 15));
    assert_eq!(
        allowed,
        vec![
            (Class::RST, ClassUpgradeStatus::Natural),
            (Class::RP, ClassUpgradeStatus::Upgrade),
        ]
    );
}

#[test]
fn adult_compound_gets_compound_only() {
    let allowed = Class::allowed_classes(BowType::Compound, date(1990, 3, 15));
    assert_eq!(allowed, vec![(Class::CC, ClassUpgradeStatus::Natural)]);
}

#[test]
fn adult_barebow_gets_shooting_star_only() {
    let allowed = Class::allowed_classes(BowType::Barebow, date(1990, 3, 15));
    assert_eq!(allowed, vec![(Class::RST, ClassUpgradeStatus::Natural)]);
}

#[test]
fn toddler_compound_is_ineligible() {
    // Age 24 months: no compound class admits it, so the list is empty.
    let allowed = Class::allowed_classes(BowType::Compound, date(2022, 1, 1));
    assert!(allowed.is_empty());
}

#[test]
fn start_up_bracket_upper_boundary_inclusive() {
    // Exactly 168 months old at season start: still inside RSU.
    assert!(Class::RSU.in_range(date(2010, 1, 1)));
    // One month older: outside.
    assert!(!Class::RSU.in_range(date(2009, 12, 1)));
}

#[test]
fn professional_bracket_lower_boundary_inclusive() {
    // Exactly 216 months old: inside RP.
    assert!(Class::RP.in_range(date(2006, 1, 1)));
    // One day younger: 215 whole months, outside.
    assert!(!Class::RP.in_range(date(2006, 1, 2)));
}

#[test]
fn shooting_star_bracket_lower_boundary() {
    // Exactly 144 months: inside RST and CC.
    assert!(Class::RST.in_range(date(2012, 1, 1)));
    assert!(Class::CC.in_range(date(2012, 1, 1)));
    assert!(!Class::RST.in_range(date(2012, 1, 2)));
}

#[test]
fn classes_for_ignores_equipment() {
    let classes = Class::classes_for(date(1990, 3, 15));
    assert_eq!(classes, vec![Class::RST, Class::CC, Class::RP]);
}

#[test]
fn future_date_of_birth_matches_no_class() {
    let allowed = Class::allowed_classes(BowType::Recurve, date(2025, 1, 1));
    assert!(allowed.is_empty());
}

#[test]
fn target_faces_fixed_and_non_empty() {
    for cls in Class::all_classes() {
        let once = TargetFace::for_cls(cls);
        let twice = TargetFace::for_cls(cls);
        assert!(!once.is_empty());
        assert_eq!(once, twice);
    }
}

#[test]
fn target_faces_per_class() {
    assert_eq!(TargetFace::for_cls(Class::RSU), vec![TargetFace::M20cm122]);
    assert_eq!(TargetFace::for_cls(Class::RST), vec![TargetFace::M40cm122]);
    assert_eq!(TargetFace::for_cls(Class::CC), vec![TargetFace::M50cm80]);
    assert_eq!(TargetFace::for_cls(Class::RP), vec![TargetFace::M60cm122]);
}

#[test]
fn target_face_labels() {
    assert_eq!(TargetFace::M60cm122.label(), "60m / 122cm");
    assert_eq!(TargetFace::M20cm122.label(), "20m / 122cm");
}

#[test]
fn parse_code_accepts_the_four_codes() {
    assert_eq!(Class::parse_code("RSU").unwrap(), Class::RSU);
    assert_eq!(Class::parse_code("RST").unwrap(), Class::RST);
    assert_eq!(Class::parse_code("CC").unwrap(), Class::CC);
    assert_eq!(Class::parse_code("RP").unwrap(), Class::RP);
}

#[test]
fn parse_code_rejects_unknown() {
    let err = Class::parse_code("XXL").unwrap_err();
    assert_eq!(err.class, "XXL");
    assert_eq!(err.message(), "Unknown class: XXL");
}

#[test]
fn from_str_matches_parse_code() {
    let cls: Class = "CC".parse().unwrap();
    assert_eq!(cls, Class::CC);
    assert!("cc".parse::<Class>().is_err());
}
