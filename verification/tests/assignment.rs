use bale_engine::assign::{assign, AssignError};
use bale_engine::class::{BowType, Class};
use bale_engine::date::Date;
use bale_engine::pipeline::{run, RunStatus};
use bale_engine::record::{MatchKind, ParticipantRecord, RosterEntry};
use bale_engine::target_face::TargetFace;

fn participant(
    bib: i64,
    name: &str,
    cls: Option<Class>,
    face: Option<TargetFace>,
) -> ParticipantRecord {
    ParticipantRecord {
        bib,
        first_name: name.to_string(),
        last_name: "Archer".to_string(),
        date_of_birth: Date::new(2000, 1, 1).unwrap(),
        bow_type: BowType::Recurve,
        cls,
        session: 0,
        target_face: face,
        bale: None,
    }
}

fn clone_record(r: &ParticipantRecord) -> ParticipantRecord {
    ParticipantRecord {
        bib: r.bib,
        first_name: r.first_name.clone(),
        last_name: r.last_name.clone(),
        date_of_birth: r.date_of_birth,
        bow_type: r.bow_type,
        cls: r.cls,
        session: r.session,
        target_face: r.target_face,
        bale: r.bale,
    }
}

fn labels(records: &[ParticipantRecord]) -> Vec<String> {
    records.iter().map(|r| r.bale.unwrap().label()).collect()
}

#[test]
fn five_equal_records_fill_one_bale_and_start_the_next() {
    // All five share category, class and face, so they form one group: the
    // first four fill bale 1 and the fifth must open bale 2, never lane E.
    let records: Vec<_> = (1..=5)
        .map(|i| participant(i, "P", Some(Class::RST), Some(TargetFace::M40cm122)))
        .collect();
    let out = assign(records, 42).expect("all records are keyed");
    assert_eq!(labels(&out), vec!["1A", "1B", "1C", "1D", "2A"]);
}

#[test]
fn assignment_is_deterministic_for_equal_input_and_seed() {
    let records: Vec<_> = (1..=9)
        .map(|i| {
            let face = if i % 2 == 0 { TargetFace::M40cm122 } else { TargetFace::M20cm122 };
            let cls = if i % 2 == 0 { Class::RST } else { Class::RSU };
            participant(i, "P", Some(cls), Some(face))
        })
        .collect();
    let copy: Vec<_> = records.iter().map(clone_record).collect();
    let once = assign(records, 7).unwrap();
    let twice = assign(copy, 7).unwrap();
    let pairs = |v: &[ParticipantRecord]| {
        v.iter().map(|r| (r.bib, r.bale.unwrap().label())).collect::<Vec<_>>()
    };
    assert_eq!(pairs(&once), pairs(&twice));
}

#[test]
fn each_group_starts_on_lane_a_of_a_fresh_bale() {
    // Two on the far face, three on the near face: the second group may not
    // continue bale 1 even though lanes C and D are free.
    let mut records = Vec::new();
    for i in 1..=2 {
        records.push(participant(i, "Far", Some(Class::RP), Some(TargetFace::M60cm122)));
    }
    for i in 3..=5 {
        records.push(participant(i, "Near", Some(Class::RSU), Some(TargetFace::M20cm122)));
    }
    let out = assign(records, 1).unwrap();
    assert_eq!(labels(&out), vec!["1A", "1B", "2A", "2B", "2C"]);
}

#[test]
fn group_order_follows_face_then_class() {
    let records = vec![
        participant(1, "Near", Some(Class::RSU), Some(TargetFace::M20cm122)),
        participant(2, "Far", Some(Class::RP), Some(TargetFace::M60cm122)),
    ];
    let out = assign(records, 5).unwrap();
    // The far face sorts first regardless of input order.
    assert_eq!(out[0].target_face, Some(TargetFace::M60cm122));
    assert_eq!(out[1].target_face, Some(TargetFace::M20cm122));
    assert_eq!(labels(&out), vec!["1A", "2A"]);
}

#[test]
fn assignment_keeps_every_participant() {
    let records: Vec<_> = (1..=7)
        .map(|i| participant(i, "P", Some(Class::CC), Some(TargetFace::M50cm80)))
        .collect();
    let out = assign(records, 99).unwrap();
    let mut bibs: Vec<i64> = out.iter().map(|r| r.bib).collect();
    bibs.sort();
    assert_eq!(bibs, vec![1, 2, 3, 4, 5, 6, 7]);
}

#[test]
fn seeded_shuffle_permutes_the_draw() {
    // Eight equal-key participants: the lane order is the seeded draw. The
    // draw for this seed is fixed, and it moves participants around rather
    // than keeping registration order.
    let records: Vec<_> = (1..=8)
        .map(|i| participant(i, "P", Some(Class::RST), Some(TargetFace::M40cm122)))
        .collect();
    let out = assign(records, 42).unwrap();
    let bibs: Vec<i64> = out.iter().map(|r| r.bib).collect();
    assert_ne!(bibs, vec![1, 2, 3, 4, 5, 6, 7, 8]);
    assert_eq!(bibs, vec![5, 7, 4, 3, 2, 6, 1, 8]);
}

#[test]
fn missing_class_aborts_with_its_position() {
    let records = vec![
        participant(1, "Ok", Some(Class::RST), Some(TargetFace::M40cm122)),
        participant(2, "Bad", None, Some(TargetFace::M40cm122)),
    ];
    assert_eq!(assign(records, 42).unwrap_err(), AssignError::MissingClass(1));
}

#[test]
fn missing_target_face_aborts_with_its_position() {
    let records = vec![participant(1, "Bad", Some(Class::RST), None)];
    assert_eq!(assign(records, 42).unwrap_err(), AssignError::MissingTargetFace(0));
}

#[test]
fn run_reports_all_matched() {
    let records = vec![participant(0, "Jane", Some(Class::RST), Some(TargetFace::M40cm122))];
    let entries = vec![RosterEntry {
        id: 4711,
        first_name: "Jane".to_string(),
        last_name: "Archer".to_string(),
        date_of_birth: "1.1.2000".to_string(),
    }];
    let (out, outcomes, status) = run(records, &entries, 42).unwrap();
    assert_eq!(status, RunStatus::AllMatched);
    assert_eq!(outcomes[0].kind, MatchKind::Matched(4711));
    assert_eq!(out[0].bib, 4711);
    assert_eq!(out[0].bale.unwrap().label(), "1A");
}

#[test]
fn run_reports_warnings_for_unmatched() {
    let records = vec![participant(7, "Jane", Some(Class::RST), Some(TargetFace::M40cm122))];
    let entries: Vec<RosterEntry> = Vec::new();
    let (out, outcomes, status) = run(records, &entries, 42).unwrap();
    assert_eq!(status, RunStatus::CompletedWithWarnings);
    assert_eq!(outcomes[0].kind, MatchKind::Unmatched);
    assert_eq!(out[0].bib, 7);
}

#[test]
fn overrunning_group_keeps_counting_then_next_group_realigns() {
    // Five on the far face spill into bale 2 without realigning; the lone
    // near-face participant must then open bale 3, leaving 2B to 2D empty.
    let mut records = Vec::new();
    for i in 1..=5 {
        records.push(participant(i, "Far", Some(Class::RP), Some(TargetFace::M60cm122)));
    }
    records.push(participant(6, "Near", Some(Class::RSU), Some(TargetFace::M20cm122)));
    let out = assign(records, 3).unwrap();
    assert_eq!(labels(&out), vec!["1A", "1B", "1C", "1D", "2A", "3A"]);
}

#[test]
fn run_reports_warnings_for_date_mismatch() {
    let records = vec![participant(0, "Jane", Some(Class::RST), Some(TargetFace::M40cm122))];
    let entries = vec![RosterEntry {
        id: 4711,
        first_name: "Jane".to_string(),
        last_name: "Archer".to_string(),
        date_of_birth: "01.01.2000".to_string(),
    }];
    let (out, outcomes, status) = run(records, &entries, 42).unwrap();
    assert_eq!(status, RunStatus::CompletedWithWarnings);
    assert_eq!(outcomes[0].kind, MatchKind::Matched(4711));
    assert!(outcomes[0].date_mismatch);
    assert_eq!(out[0].bib, 4711);
}

#[test]
fn run_reports_warnings_for_ambiguity() {
    let records = vec![participant(7, "Jane", Some(Class::RST), Some(TargetFace::M40cm122))];
    let mk = |id: i64| RosterEntry {
        id,
        first_name: "Jane".to_string(),
        last_name: "Archer".to_string(),
        date_of_birth: "1.1.2000".to_string(),
    };
    let entries = vec![mk(1), mk(2)];
    let (out, outcomes, status) = run(records, &entries, 42).unwrap();
    assert_eq!(status, RunStatus::CompletedWithWarnings);
    assert_eq!(outcomes[0].kind, MatchKind::Ambiguous(2));
    assert_eq!(out[0].bib, 7);
}

#[test]
fn run_aborts_on_unkeyed_record() {
    let records = vec![participant(1, "Jane", None, None)];
    let entries: Vec<RosterEntry> = Vec::new();
    assert_eq!(run(records, &entries, 42).unwrap_err(), AssignError::MissingClass(0));
}
