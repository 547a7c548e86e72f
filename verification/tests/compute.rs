use degree_planner::catalog::Catalog;
use degree_planner::catalog::CourseBank;
use degree_planner::catalog::CreditOverflow;
use degree_planner::catalog::Membership;
use degree_planner::catalog::Rule;
use degree_planner::course::Course;
use degree_planner::course::CourseState;
use degree_planner::course::CourseStatus;
use degree_planner::course::Grade;
use degree_planner::degree_status::compute::can_compute;
use degree_planner::degree_status::compute::compute;
use degree_planner::degree_status::compute::UserDetails;
use degree_planner::degree_status::DegreeStatus;
use degree_planner::degree_status::Requirement;
use degree_planner::messages;
use degree_planner::toposort::CycleError;

fn course(id: &str, credit: u32, name: &str) -> Course {
    Course { id: id.to_string(), credit, name: name.to_string() }
}

fn courses() -> Vec<Course> {
    vec![
        course("104031", 11, "infi1m"),
        course("104166", 11, "Algebra alef"),
        course("114052", 7, "פיסיקה 2"),
        course("114054", 7, "פיסיקה 3"),
        course("236303", 6, "project1"),
        course("236512", 6, "project2"),
        course("324057", 4, "mlg"),
        course("394645", 2, "sport"),
    ]
}

fn status(c: &Course, state: CourseState, semester: &str) -> CourseStatus {
    CourseStatus {
        course: c.clone(),
        state: Some(state),
        semester: Some(semester.to_string()),
        grade: Some(Grade::Numeric(85)),
        ..Default::default()
    }
}

fn user() -> UserDetails {
    let registry = courses();
    UserDetails {
        degree_status: DegreeStatus {
            course_statuses: vec![
                status(&registry[0], CourseState::Complete, "חורף_1"),
                status(&registry[1], CourseState::NotComplete, "חורף_1"),
                status(&registry[2], CourseState::Complete, "אביב_2"),
                status(&registry[3], CourseState::Complete, "אביב_2"),
                status(&registry[4], CourseState::Complete, "חורף_3"),
                status(&registry[5], CourseState::Complete, "חורף_3"),
                status(&registry[6], CourseState::Complete, "אביב_4"),
                status(&registry[7], CourseState::Complete, "אביב_4"),
            ],
            course_bank_requirements: vec![],
            overflow_msgs: vec!["old".to_string()],
            total_credit: 99,
        },
        modified: true,
    }
}

fn bank(name: &str, rule: Rule, credit: Option<u32>) -> CourseBank {
    CourseBank { name: name.to_string(), rule, credit }
}

fn member(id: &str, bank: &str) -> Membership {
    Membership { course_id: id.to_string(), bank: bank.to_string() }
}

fn rule(from: &str, to: &str) -> CreditOverflow {
    CreditOverflow { from: from.to_string(), to: to.to_string() }
}

fn catalog() -> Catalog {
    Catalog {
        name: "test".to_string(),
        course_banks: vec![
            bank("free", Rule::AccumulateCredit, Some(4)),
            bank("list a", Rule::AccumulateCredit, Some(20)),
            bank("hova", Rule::All, Some(24)),
            bank("project", Rule::AccumulateCourses(1), None),
            bank("malag", Rule::Malag, Some(2)),
        ],
        credit_overflows: vec![
            rule("project", "list a"),
            rule("hova", "list a"),
            rule("list a", "free"),
        ],
        course_to_bank: vec![
            member("104031", "hova"),
            member("104166", "hova"),
            member("114052", "list a"),
            member("114054", "list a"),
            member("236303", "project"),
            member("236512", "project"),
            member("394645", "free"),
        ],
        catalog_replacements: vec![],
        common_replacements: vec![],
    }
}

fn requirement<'a>(user: &'a UserDetails, bank: &str) -> &'a Requirement {
    user.degree_status
        .course_bank_requirements
        .iter()
        .find(|r| r.course_bank_name == bank)
        .unwrap()
}

#[test]
fn banks_are_evaluated_and_credit_moves_along_the_rules() {
    let mut u = user();
    assert!(can_compute(&catalog(), &u));
    assert_eq!(compute(catalog(), courses(), vec!["324057".to_string()], &mut u), Ok(()));
    assert!(u.modified);
    let d = &u.degree_status;
    assert_eq!(d.course_bank_requirements.len(), 5);

    let hova = requirement(&u, "hova");
    assert_eq!(hova.credit_requirement, Some(24));
    assert_eq!(hova.credit_completed, 11);
    assert_eq!(hova.course_completed, 1);

    let project = requirement(&u, "project");
    assert_eq!(project.credit_requirement, None);
    assert_eq!(project.credit_completed, 0);
    assert_eq!(project.course_requirement, Some(1));
    assert_eq!(project.course_completed, 1);

    let list_a = requirement(&u, "list a");
    assert_eq!(list_a.credit_requirement, Some(33));
    assert_eq!(list_a.credit_completed, 26);
    assert_eq!(list_a.course_completed, 3);

    let free = requirement(&u, "free");
    assert_eq!(free.credit_requirement, Some(11));
    assert_eq!(free.credit_completed, 2);

    let malag = requirement(&u, "malag");
    assert_eq!(malag.credit_requirement, Some(2));
    assert_eq!(malag.credit_completed, 2);

    assert_eq!(d.total_credit, 41);
    assert_eq!(d.overflow_msgs.last().unwrap(), &messages::credit_leftovers_msg(2));
    assert!(d.overflow_msgs.contains(&messages::credit_overflow_detailed_msg("project", "list a")));
    assert!(d.overflow_msgs.contains(&messages::courses_overflow_msg(1, "project", "list a")));
    assert!(d.overflow_msgs.contains(&messages::missing_credit_msg(13, "hova", "list a")));
    assert!(d.overflow_msgs.contains(&messages::missing_credit_msg(7, "list a", "free")));
    assert_eq!(d.overflow_msgs.len(), 5);

    let types: Vec<Option<String>> = d.course_statuses.iter().map(|c| c.course_type.clone()).collect();
    assert_eq!(
        types,
        vec![
            Some("hova".to_string()),
            Some("hova".to_string()),
            Some("list a".to_string()),
            Some("list a".to_string()),
            Some("project".to_string()),
            Some("project".to_string()),
            Some("malag".to_string()),
            Some("free".to_string()),
        ]
    );
}

#[test]
fn completed_credit_and_leftover_stay_within_what_was_completed() {
    let mut u = user();
    let held: u64 = u
        .degree_status
        .course_statuses
        .iter()
        .filter(|c| c.state == Some(CourseState::Complete))
        .map(|c| c.course.credit as u64)
        .sum();
    assert_eq!(held, 43);
    compute(catalog(), courses(), vec!["324057".to_string()], &mut u).unwrap();
    let completed: u64 = u.degree_status.course_bank_requirements.iter().map(|r| r.credit_completed).sum();
    assert_eq!(completed, u.degree_status.total_credit);
    assert_eq!(completed + 2, held);
}

#[test]
fn every_record_counts_for_at_most_one_bank_of_the_catalog() {
    let mut u = user();
    let mut c = catalog();
    c.course_to_bank.push(member("104031", "list a"));
    compute(c, courses(), vec!["104031".to_string()], &mut u).unwrap();
    let names = ["free", "list a", "hova", "project", "malag"];
    for record in &u.degree_status.course_statuses {
        if let Some(t) = &record.course_type {
            assert_eq!(names.iter().filter(|n| *n == t).count(), 1);
        }
    }
    let total: u64 = u.degree_status.course_bank_requirements.iter().map(|r| r.credit_completed).sum();
    assert!(total <= 43);
}

#[test]
fn irrelevant_record_counts_for_no_bank() {
    let mut u = user();
    u.degree_status.course_statuses[2].state = Some(CourseState::Irrelevant);
    compute(catalog(), courses(), vec![], &mut u).unwrap();
    let record = u.degree_status.course_statuses.iter().find(|c| c.course.id == "114052").unwrap();
    assert_eq!(record.course_type, None);
    assert_eq!(requirement(&u, "list a").course_completed, 2);
}

#[test]
fn cycle_is_fatal_and_leaves_no_requirements() {
    let mut u = user();
    let mut c = catalog();
    c.credit_overflows.push(rule("free", "hova"));
    assert!(can_compute(&c, &u));
    let out = compute(c, courses(), vec![], &mut u);
    match out {
        Err(CycleError { bank }) => assert!(["free", "hova", "list a"].contains(&bank.as_str())),
        Ok(_) => panic!("a cycle was computed"),
    }
    assert!(u.degree_status.course_bank_requirements.is_empty());
    assert!(u.degree_status.overflow_msgs.is_empty());
    assert_eq!(u.degree_status.total_credit, 0);
    assert_eq!(u.degree_status.course_statuses.len(), 8);
}

#[test]
fn catalog_is_checked_before_computing() {
    let u = user();
    let mut c = catalog();
    c.course_banks.push(bank("hova", Rule::All, None));
    assert!(!can_compute(&c, &u));
    let mut c = catalog();
    c.credit_overflows.push(rule("hova", "nowhere"));
    assert!(!can_compute(&c, &u));
}

#[test]
fn modified_record_goes_to_the_bank_the_student_chose() {
    let mut u = user();
    u.degree_status.course_statuses[2].course_type = Some("free".to_string());
    u.degree_status.course_statuses[2].modified = true;
    compute(catalog(), courses(), vec![], &mut u).unwrap();
    let record = u.degree_status.course_statuses.iter().find(|c| c.course.id == "114052").unwrap();
    assert_eq!(record.course_type, Some("free".to_string()));
    assert_eq!(requirement(&u, "list a").course_completed, 2);
}

#[test]
fn computing_again_gives_the_same_report() {
    let mut u = user();
    let mut c = catalog();
    c.course_to_bank.push(member("999999", "hova"));
    compute(c, courses(), vec!["324057".to_string()], &mut u).unwrap();
    assert_eq!(u.degree_status.course_statuses.len(), 9);
    let first = DegreeStatus {
        course_statuses: u.degree_status.course_statuses.clone(),
        course_bank_requirements: u
            .degree_status
            .course_bank_requirements
            .iter()
            .map(|r| Requirement {
                course_bank_name: r.course_bank_name.clone(),
                credit_requirement: r.credit_requirement,
                course_requirement: r.course_requirement,
                credit_completed: r.credit_completed,
                course_completed: r.course_completed,
                message: r.message.clone(),
            })
            .collect(),
        overflow_msgs: u.degree_status.overflow_msgs.clone(),
        total_credit: u.degree_status.total_credit,
    };
    let mut c = catalog();
    c.course_to_bank.push(member("999999", "hova"));
    compute(c, courses(), vec!["324057".to_string()], &mut u).unwrap();
    assert_eq!(u.degree_status, first);
}
