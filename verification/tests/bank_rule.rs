use degree_planner::bank_rule::evaluate_bank;
use degree_planner::bank_rule::BankRuleHandler;
use degree_planner::bank_rule::Transfer;
use degree_planner::catalog::CourseBank;
use degree_planner::catalog::Rule;
use degree_planner::catalog::SpecializationGroup;
use degree_planner::catalog::SpecializationGroups;
use degree_planner::course::Course;
use degree_planner::course::CourseState;
use degree_planner::course::CourseStatus;
use degree_planner::course::Grade;
use degree_planner::degree_status::compute::UserDetails;
use degree_planner::degree_status::DegreeStatus;
use degree_planner::messages;

fn course(id: &str, credit: u32, name: &str) -> Course {
    Course { id: id.to_string(), credit, name: name.to_string() }
}

fn courses() -> Vec<Course> {
    vec![
        course("104031", 11, "infi1m"),
        course("104166", 11, "Algebra alef"),
        course("114052", 7, "פיסיקה 2"),
        course("114054", 7, "פיסיקה 3"),
        course("236303", 6, "project1"),
        course("236512", 6, "project2"),
        course("1", 2, ""),
        course("2", 4, ""),
        course("3", 6, ""),
    ]
}

fn status(id: &str, credit: u32, name: &str, state: CourseState, grade: Grade) -> CourseStatus {
    CourseStatus {
        course: course(id, credit, name),
        state: Some(state),
        grade: Some(grade),
        ..Default::default()
    }
}

pub fn create_user() -> UserDetails {
    UserDetails {
        degree_status: DegreeStatus {
            course_statuses: vec![
                status("104031", 11, "infi1m", CourseState::Complete, Grade::Numeric(85)),
                status("104166", 11, "Algebra alef", CourseState::NotComplete, Grade::Binary(false)),
                status("114052", 7, "פיסיקה 2", CourseState::Complete, Grade::Numeric(85)),
                status("114054", 7, "פיסיקה 3", CourseState::Complete, Grade::Numeric(85)),
                status("236303", 6, "project1", CourseState::Complete, Grade::Numeric(85)),
                status("236512", 6, "project2", CourseState::Complete, Grade::Numeric(85)),
                status("324057", 4, "mlg", CourseState::Complete, Grade::Numeric(99)),
                status("394645", 2, "sport", CourseState::Complete, Grade::Numeric(100)),
            ],
            course_bank_requirements: Vec::new(),
            overflow_msgs: Vec::new(),
            total_credit: 0,
        },
        modified: false,
    }
}

fn handler<'a>(bank: &str, list: &[&str], courses: &'a Vec<Course>) -> BankRuleHandler<'a> {
    BankRuleHandler {
        bank_name: bank.to_string(),
        course_list: list.iter().map(|s| s.to_string()).collect(),
        courses,
        credit_overflow: 0,
        courses_overflow: 0,
    }
}

fn type_of(user: &UserDetails, i: usize) -> Option<String> {
    user.degree_status.course_statuses[i].course_type.clone()
}

#[test]
fn test_irrelevant_course() {
    let registry = courses();
    let mut user = create_user();
    user.degree_status.course_statuses[2].state = Some(CourseState::Irrelevant);
    let h = handler("hova", &["104031", "114052"], &registry);
    h.all(&mut user.degree_status);
    assert_eq!(type_of(&user, 2), None);
}

#[test]
fn test_modified() {
    let registry = courses();
    let mut user = create_user();
    user.degree_status.course_statuses[0].course_type = Some("reshima alef".to_string());
    user.degree_status.course_statuses[0].modified = true;
    let h = handler("hova", &["104031", "104166"], &registry);
    let res = h.all(&mut user.degree_status);

    assert_eq!(type_of(&user, 0), Some("reshima alef".to_string()));
    assert_eq!(type_of(&user, 1), Some("hova".to_string()));
    assert_eq!(type_of(&user, 2), None);
    assert_eq!(type_of(&user, 3), None);
    assert_eq!(type_of(&user, 4), None);
    assert_eq!(type_of(&user, 5), None);
    assert_eq!(type_of(&user, 6), None);
    assert_eq!(type_of(&user, 7), None);
    assert_eq!(type_of(&user, 8), Some("hova".to_string()));
    assert_eq!(user.degree_status.course_statuses.len(), 9);
    assert_eq!(res.sum_credit, 0);

    let mut user = create_user();
    user.degree_status.course_statuses[2].course_type = Some("hova".to_string());
    user.degree_status.course_statuses[2].modified = true;
    user.degree_status.course_statuses[3].course_type = Some("reshima alef".to_string());
    user.degree_status.course_statuses[3].modified = true;
    let bank_name = "hova".to_string();
    let mut course_list = vec!["104031".to_string(), "104166".to_string()];
    course_list.extend(user.degree_status.get_modified_courses(&bank_name));
    assert_eq!(course_list, vec!["104031", "104166", "114052"]);
    let h = BankRuleHandler {
        bank_name,
        course_list,
        courses: &registry,
        credit_overflow: 0,
        courses_overflow: 0,
    };
    let res = h.all(&mut user.degree_status);

    assert_eq!(type_of(&user, 2), Some("hova".to_string()));
    assert_eq!(type_of(&user, 3), Some("reshima alef".to_string()));
    assert_eq!(user.degree_status.course_statuses.len(), 8);
    assert_eq!(res.sum_credit, 18);
}

#[test]
fn completed_course_on_the_list_adds_its_credit() {
    let registry = courses();
    let mut user = create_user();
    user.degree_status.course_statuses[0].course_type = Some("reshima alef".to_string());
    user.degree_status.course_statuses[0].modified = true;
    user.degree_status.course_statuses[1].state = Some(CourseState::Complete);
    let h = handler("hova", &["104031", "104166"], &registry);
    let res = h.all(&mut user.degree_status);
    assert_eq!(type_of(&user, 0), Some("reshima alef".to_string()));
    assert_eq!(type_of(&user, 1), Some("hova".to_string()));
    assert_eq!(res.sum_credit, 11);
    assert_eq!(res.count_courses, 1);
}

#[test]
fn record_of_another_bank_is_not_counted_again() {
    let registry = courses();
    let mut user = create_user();
    let first = handler("reshima alef", &["104031"], &registry);
    assert_eq!(first.iterate_course_list(&mut user.degree_status).sum_credit, 11);
    let second = handler("hova", &["104031", "114052"], &registry);
    let res = second.iterate_course_list(&mut user.degree_status);
    assert_eq!(res.sum_credit, 7);
    assert_eq!(type_of(&user, 0), Some("reshima alef".to_string()));
    assert_eq!(type_of(&user, 2), Some("hova".to_string()));
}

#[test]
fn placeholder_for_unknown_course_has_no_credit_and_no_name() {
    let registry = courses();
    let mut user = create_user();
    let h = handler("hova", &["999999"], &registry);
    let res = h.all(&mut user.degree_status);
    assert_eq!(res.sum_credit, 0);
    let added = &user.degree_status.course_statuses[8];
    assert_eq!(added.course, course("999999", 0, ""));
    assert_eq!(added.state, Some(CourseState::NotComplete));
    assert_eq!(added.course_type, Some("hova".to_string()));
    assert!(!added.modified);
    assert_eq!(added.semester, None);
}

#[test]
fn overflow_is_carried_into_the_sum() {
    let registry = courses();
    let mut user = create_user();
    let h = BankRuleHandler {
        bank_name: "hova".to_string(),
        course_list: vec!["114052".to_string(), "114054".to_string()],
        courses: &registry,
        credit_overflow: 3,
        courses_overflow: 2,
    };
    let res = h.iterate_course_list(&mut user.degree_status);
    assert_eq!(res.sum_credit, 17);
    assert_eq!(res.count_courses, 4);
}

fn bank(name: &str, rule: Rule, credit: Option<u32>) -> CourseBank {
    CourseBank { name: name.to_string(), rule, credit }
}

fn ids(list: &[&str]) -> Vec<String> {
    list.iter().map(|s| s.to_string()).collect()
}

#[test]
fn bank_keeps_what_it_requires_and_passes_on_the_rest() {
    let registry = courses();
    let mut user = create_user();
    let b = bank("hova", Rule::AccumulateCredit, Some(20));
    let to = "reshima b".to_string();
    let out = evaluate_bank(
        &mut user.degree_status,
        &b,
        ids(&["104031", "114052", "114054"]),
        &registry,
        Transfer { credit: 0, courses: 0, missing: 0 },
        Some(&to),
    );
    assert_eq!(out, Transfer { credit: 5, courses: 0, missing: 0 });
    let req = &user.degree_status.course_bank_requirements[0];
    assert_eq!(req.course_bank_name, "hova");
    assert_eq!(req.credit_requirement, Some(20));
    assert_eq!(req.credit_completed, 20);
    assert_eq!(req.course_requirement, None);
    assert_eq!(req.course_completed, 3);
    assert_eq!(req.message, None);
    assert_eq!(user.degree_status.total_credit, 20);
    assert_eq!(
        user.degree_status.overflow_msgs,
        vec![messages::credit_overflow_msg(5, "hova", "reshima b")]
    );
}

#[test]
fn shortfall_is_added_to_the_next_bank() {
    let registry = courses();
    let mut user = create_user();
    let b = bank("hova", Rule::AccumulateCredit, Some(20));
    let to = "reshima b".to_string();
    let out = evaluate_bank(
        &mut user.degree_status,
        &b,
        ids(&["104031", "114052"]),
        &registry,
        Transfer { credit: 0, courses: 0, missing: 4 },
        Some(&to),
    );
    assert_eq!(out, Transfer { credit: 0, courses: 0, missing: 6 });
    let req = &user.degree_status.course_bank_requirements[0];
    assert_eq!(req.credit_requirement, Some(24));
    assert_eq!(req.credit_completed, 18);
    assert_eq!(
        user.degree_status.overflow_msgs,
        vec![messages::missing_credit_msg(6, "hova", "reshima b")]
    );
}

#[test]
fn incoming_overflow_offsets_the_shortfall() {
    let registry = courses();
    let mut user = create_user();
    let b = bank("hova", Rule::AccumulateCredit, Some(20));
    let to = "reshima b".to_string();
    let out = evaluate_bank(
        &mut user.degree_status,
        &b,
        ids(&["104031", "114052"]),
        &registry,
        Transfer { credit: 2, courses: 0, missing: 0 },
        Some(&to),
    );
    assert_eq!(out, Transfer { credit: 0, courses: 0, missing: 0 });
    assert_eq!(user.degree_status.course_bank_requirements[0].credit_completed, 20);
    assert!(user.degree_status.overflow_msgs.is_empty());
}

#[test]
fn bank_without_next_returns_spare_credit_only() {
    let registry = courses();
    let mut user = create_user();
    let b = bank("project", Rule::AccumulateCourses(1), Some(6));
    let out = evaluate_bank(
        &mut user.degree_status,
        &b,
        ids(&["236303", "236512"]),
        &registry,
        Transfer { credit: 0, courses: 0, missing: 0 },
        None,
    );
    assert_eq!(out, Transfer { credit: 6, courses: 0, missing: 0 });
    let req = &user.degree_status.course_bank_requirements[0];
    assert_eq!(req.course_requirement, Some(1));
    assert_eq!(req.course_completed, 1);
    assert_eq!(req.credit_completed, 6);
    assert!(user.degree_status.overflow_msgs.is_empty());
}

#[test]
fn bank_without_credit_requirement_passes_all_credit_on() {
    let registry = courses();
    let mut user = create_user();
    let b = bank("project", Rule::AccumulateCourses(1), None);
    let to = "reshima alef".to_string();
    let out = evaluate_bank(
        &mut user.degree_status,
        &b,
        ids(&["236303", "236512"]),
        &registry,
        Transfer { credit: 0, courses: 0, missing: 0 },
        Some(&to),
    );
    assert_eq!(out, Transfer { credit: 12, courses: 1, missing: 0 });
    let req = &user.degree_status.course_bank_requirements[0];
    assert_eq!(req.credit_requirement, None);
    assert_eq!(req.credit_completed, 0);
    assert_eq!(req.course_completed, 1);
    assert_eq!(
        user.degree_status.overflow_msgs,
        vec![
            messages::credit_overflow_detailed_msg("project", "reshima alef"),
            messages::courses_overflow_msg(1, "project", "reshima alef"),
        ]
    );

    let mut user = create_user();
    let out = evaluate_bank(
        &mut user.degree_status,
        &b,
        ids(&["236303", "236512"]),
        &registry,
        Transfer { credit: 0, courses: 0, missing: 0 },
        None,
    );
    assert_eq!(out, Transfer { credit: 0, courses: 0, missing: 0 });
    assert_eq!(user.degree_status.course_bank_requirements[0].credit_completed, 12);
}

#[test]
fn first_completed_chain_is_named() {
    let registry = courses();
    let mut user = create_user();
    let chains = vec![ids(&["114052", "999"]), ids(&["114052", "114054"])];
    let b = bank("chain", Rule::Chains(chains), Some(14));
    let out = evaluate_bank(
        &mut user.degree_status,
        &b,
        ids(&["114052", "114054"]),
        &registry,
        Transfer { credit: 0, courses: 0, missing: 0 },
        None,
    );
    assert_eq!(out.credit, 0);
    let req = &user.degree_status.course_bank_requirements[0];
    assert_eq!(req.credit_completed, 14);
    assert_eq!(
        req.message,
        Some(messages::completed_chain_msg(vec!["פיסיקה 2".to_string(), "פיסיקה 3".to_string()]))
    );
}

#[test]
fn no_chain_completed_gives_no_message() {
    let registry = courses();
    let mut user = create_user();
    let b = bank("chain", Rule::Chains(vec![ids(&["114052", "104166"])]), Some(14));
    evaluate_bank(
        &mut user.degree_status,
        &b,
        ids(&["114052", "104166"]),
        &registry,
        Transfer { credit: 0, courses: 0, missing: 0 },
        None,
    );
    assert_eq!(user.degree_status.course_bank_requirements[0].message, None);
}

#[test]
fn completed_groups_are_named_in_the_message() {
    let registry = courses();
    let mut user = create_user();
    let groups = SpecializationGroups {
        groups_list: vec![
            SpecializationGroup { name: "math".to_string(), course_list: ids(&["104031"]) },
            SpecializationGroup {
                name: "algebra".to_string(),
                course_list: ids(&["104031", "104166"]),
            },
            SpecializationGroup {
                name: "physics".to_string(),
                course_list: ids(&["114052", "114054"]),
            },
        ],
        groups_number: 3,
    };
    let b = bank("groups", Rule::SpecializationGroups(groups), Some(40));
    evaluate_bank(
        &mut user.degree_status,
        &b,
        ids(&["104031", "104166", "114052", "114054"]),
        &registry,
        Transfer { credit: 0, courses: 0, missing: 0 },
        None,
    );
    let req = &user.degree_status.course_bank_requirements[0];
    assert_eq!(req.credit_completed, 25);
    assert_eq!(
        req.message,
        Some(messages::completed_specialization_groups_msg(
            vec!["math".to_string(), "physics".to_string()],
            3
        ))
    );
}
