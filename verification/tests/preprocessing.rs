use degree_planner::catalog::Catalog;
use degree_planner::catalog::Membership;
use degree_planner::catalog::Replacement;
use degree_planner::course::Course;
use degree_planner::course::CourseState;
use degree_planner::course::CourseStatus;
use degree_planner::degree_status::preprocessing::StudentReplacement;
use degree_planner::degree_status::DegreeStatus;
use degree_planner::degree_status::Requirement;
use degree_planner::messages;

fn course(id: &str, credit: u32, name: &str) -> Course {
    Course { id: id.to_string(), credit, name: name.to_string() }
}

fn status(id: &str, state: Option<CourseState>, semester: Option<&str>) -> CourseStatus {
    CourseStatus {
        course: course(id, 6, "name"),
        state,
        semester: semester.map(|s| s.to_string()),
        ..Default::default()
    }
}

fn report(course_statuses: Vec<CourseStatus>) -> DegreeStatus {
    DegreeStatus { course_statuses, ..Default::default() }
}

fn ids(d: &DegreeStatus) -> Vec<String> {
    d.course_statuses.iter().map(|c| c.course.id.clone()).collect()
}

fn member(id: &str, bank: &str) -> Membership {
    Membership { course_id: id.to_string(), bank: bank.to_string() }
}

fn replacement(id: &str, by: &[&str]) -> Replacement {
    Replacement { course_id: id.to_string(), replacements: by.iter().map(|s| s.to_string()).collect() }
}

#[test]
fn records_added_by_an_earlier_run_are_removed() {
    let mut edited = status("3", None, None);
    edited.modified = true;
    let mut d = report(vec![
        status("1", None, None),
        status("2", Some(CourseState::Complete), None),
        edited,
        status("4", Some(CourseState::NotComplete), Some("חורף_1")),
        status("5", Some(CourseState::NotComplete), None),
        status("6", Some(CourseState::Irrelevant), None),
    ]);
    d.remove_courses_added_by_algorithm();
    assert_eq!(ids(&d), vec!["2", "3", "4"]);
}

#[test]
fn irrelevant_record_of_a_course_entered_again_is_removed() {
    let mut again = status("1", Some(CourseState::Complete), None);
    again.modified = true;
    let mut irrelevant_edit = status("2", Some(CourseState::Irrelevant), None);
    irrelevant_edit.modified = true;
    let mut d = report(vec![
        status("1", Some(CourseState::Irrelevant), Some("חורף_1")),
        again,
        status("2", Some(CourseState::Irrelevant), Some("חורף_1")),
        irrelevant_edit,
        status("3", Some(CourseState::Irrelevant), Some("חורף_1")),
        status("3", Some(CourseState::Complete), Some("אביב_2")),
    ]);
    d.remove_irrelevant_courses_added_by_user();
    assert_eq!(ids(&d), vec!["1", "2", "2", "3", "3"]);
    assert_eq!(d.course_statuses[0].state, Some(CourseState::Complete));
}

#[test]
fn types_are_cleared_but_for_relevant_edits() {
    let mut a = status("1", Some(CourseState::Complete), None);
    a.course_type = Some("hova".to_string());
    let mut b = status("2", Some(CourseState::Complete), None);
    b.course_type = Some("hova".to_string());
    b.modified = true;
    let mut c = status("3", Some(CourseState::Irrelevant), None);
    c.course_type = Some("hova".to_string());
    c.modified = true;
    let mut d = report(vec![a, b, c]);
    d.clear_type_for_unmodified_and_irrelevant_courses();
    assert_eq!(d.course_statuses[0].course_type, None);
    assert_eq!(d.course_statuses[1].course_type, Some("hova".to_string()));
    assert_eq!(d.course_statuses[2].course_type, None);
}

#[test]
fn irrelevant_courses_leave_the_catalog() {
    let d = report(vec![
        status("1", Some(CourseState::Irrelevant), None),
        status("2", Some(CourseState::Complete), None),
    ]);
    let mut catalog = Catalog {
        course_to_bank: vec![member("1", "a"), member("2", "a"), member("3", "b"), member("1", "b")],
        ..Default::default()
    };
    d.remove_irrelevant_courses_from_catalog(&mut catalog);
    assert_eq!(catalog.course_to_bank, vec![member("2", "a"), member("3", "b")]);
}

#[test]
fn reset_forgets_what_was_derived() {
    let mut kept = status("1", Some(CourseState::Complete), Some("חורף_1"));
    kept.course_type = Some("hova".to_string());
    let mut d = DegreeStatus {
        course_statuses: vec![kept, status("2", Some(CourseState::NotComplete), None)],
        course_bank_requirements: vec![Requirement {
            course_bank_name: "hova".to_string(),
            credit_requirement: Some(10),
            course_requirement: None,
            credit_completed: 6,
            course_completed: 1,
            message: None,
        }],
        overflow_msgs: vec!["x".to_string()],
        total_credit: 6,
    };
    let mut catalog = Catalog::default();
    d.reset(&mut catalog);
    assert_eq!(ids(&d), vec!["1"]);
    assert_eq!(d.course_statuses[0].course_type, None);
    assert!(d.course_bank_requirements.is_empty());
    assert!(d.overflow_msgs.is_empty());
    assert_eq!(d.total_credit, 0);
}

#[test]
fn records_are_sorted_by_semester_and_ties_keep_their_order() {
    let mut d = report(vec![
        status("a", Some(CourseState::Complete), Some("אביב_2")),
        status("b", Some(CourseState::Complete), None),
        status("c", Some(CourseState::Complete), Some("חורף_1")),
        status("d", Some(CourseState::Complete), Some("קיץ_2.5")),
        status("e", Some(CourseState::Complete), Some("אביב_2")),
        status("f", Some(CourseState::Complete), Some("no ordinal")),
        status("g", Some(CourseState::Complete), Some("חורף_1")),
        status("h", Some(CourseState::Complete), Some("חורף_10")),
    ]);
    d.sort_by_semester();
    assert_eq!(ids(&d), vec!["b", "f", "c", "g", "a", "e", "d", "h"]);
}

#[test]
fn semester_ordinal_is_read_behind_the_last_underscore() {
    assert_eq!(status("a", None, Some("חורף_1")).extract_semester(), 2);
    assert_eq!(status("a", None, Some("קיץ_1.5")).extract_semester(), 3);
    assert_eq!(status("a", None, Some("a_b_12.0")).extract_semester(), 24);
    assert_eq!(status("a", None, Some("7")).extract_semester(), 14);
    assert_eq!(status("a", None, Some("חורף_")).extract_semester(), 0);
    assert_eq!(status("a", None, Some("חורף_x")).extract_semester(), 0);
    assert_eq!(status("a", None, Some("x_99999999999")).extract_semester(), 0);
    assert_eq!(status("a", None, None).extract_semester(), 0);
}

#[test]
fn replacements_are_noted_and_explained() {
    let registry = vec![course("T1", 6, "target one"), course("T2", 8, "target two")];
    let catalog = Catalog {
        catalog_replacements: vec![replacement("T1", &["S1", "S2"]), replacement("T3", &["S3"])],
        common_replacements: vec![replacement("T2", &["S2"]), replacement("T1", &["S9"])],
        ..Default::default()
    };
    let mut d = report(vec![
        status("S1", Some(CourseState::Complete), None),
        status("X", Some(CourseState::Complete), None),
        status("S2", Some(CourseState::Complete), None),
        status("S3", Some(CourseState::Complete), None),
    ]);
    d.course_statuses[1].additional_msg = Some("kept".to_string());
    let found = d.get_all_student_replacements_and_set_msg(&catalog, &registry);
    assert_eq!(
        found,
        vec![
            StudentReplacement { course_id: "T1".to_string(), replacement: "S2".to_string() },
            StudentReplacement { course_id: "T2".to_string(), replacement: "S2".to_string() },
            StudentReplacement { course_id: "T3".to_string(), replacement: "S3".to_string() },
        ]
    );
    assert_eq!(
        d.course_statuses[0].additional_msg,
        Some(messages::catalog_replacements_msg(&registry[0]))
    );
    assert_eq!(d.course_statuses[1].additional_msg, Some("kept".to_string()));
    assert_eq!(
        d.course_statuses[2].additional_msg,
        Some(messages::common_replacements_msg(&registry[1]))
    );
    assert_eq!(
        d.course_statuses[3].additional_msg,
        Some(messages::catalog_replacements_msg(&course("T3", 0, "")))
    );
}

#[test]
fn replacement_takes_the_place_of_the_course_in_the_catalog() {
    let mut catalog = Catalog {
        course_to_bank: vec![member("T1", "hova"), member("S1", "free"), member("T2", "list a")],
        catalog_replacements: vec![replacement("T1", &["S1"])],
        ..Default::default()
    };
    let mut d = report(vec![status("S1", Some(CourseState::Complete), None)]);
    d.replace_student_course_with_courses_in_catalog(&mut catalog, &vec![]);
    assert_eq!(catalog.course_to_bank, vec![member("S1", "hova"), member("T2", "list a")]);
    assert_eq!(catalog.get_course_list(&"hova".to_string()), vec!["S1"]);
    assert!(catalog.get_course_list(&"free".to_string()).is_empty());
}

#[test]
fn replacing_changes_nothing_where_the_course_is_not_listed() {
    let mut catalog = Catalog {
        course_to_bank: vec![member("S1", "free")],
        ..Default::default()
    };
    catalog.replace_courses(&"T1".to_string(), &"S1".to_string());
    assert_eq!(catalog.course_to_bank, vec![member("S1", "free")]);
    catalog.replace_courses(&"S1".to_string(), &"S1".to_string());
    assert_eq!(catalog.course_to_bank, vec![member("S1", "free")]);
}

fn preprocessed(mut d: DegreeStatus, mut catalog: Catalog, registry: &Vec<Course>) -> (DegreeStatus, Catalog) {
    d.preprocess(&mut catalog, registry);
    (d, catalog)
}

#[test]
fn preprocessing_twice_changes_nothing_more() {
    let registry = vec![course("T1", 6, "target one")];
    let catalog = Catalog {
        course_to_bank: vec![member("T1", "hova"), member("1", "hova"), member("2", "free")],
        catalog_replacements: vec![replacement("T1", &["S1"])],
        ..Default::default()
    };
    let mut typed = status("1", Some(CourseState::Complete), Some("אביב_2"));
    typed.course_type = Some("hova".to_string());
    let mut edited = status("2", Some(CourseState::Complete), None);
    edited.modified = true;
    edited.course_type = Some("free".to_string());
    let mut again = status("3", Some(CourseState::NotComplete), None);
    again.modified = true;
    let d = report(vec![
        typed,
        status("9", Some(CourseState::NotComplete), None),
        edited,
        status("3", Some(CourseState::Irrelevant), Some("חורף_1")),
        again,
        status("S1", Some(CourseState::Complete), Some("חורף_1")),
        status("2", Some(CourseState::Irrelevant), Some("חורף_1")),
    ]);
    let (once, catalog_once) = preprocessed(d, catalog, &registry);
    assert_eq!(ids(&once), vec!["2", "3", "S1", "1"]);
    assert_eq!(once.course_statuses[0].course_type, Some("free".to_string()));
    assert_eq!(once.course_statuses[3].course_type, None);
    assert_eq!(catalog_once.course_to_bank, vec![member("S1", "hova"), member("1", "hova"), member("2", "free")]);
    let copy = DegreeStatus {
        course_statuses: once.course_statuses.clone(),
        course_bank_requirements: vec![],
        overflow_msgs: vec![],
        total_credit: 0,
    };
    let (twice, _) = preprocessed(copy, catalog_once, &registry);
    assert_eq!(twice, once);
}
