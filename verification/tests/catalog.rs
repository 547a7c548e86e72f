use degree_planner::bank_rule::BankRuleHandler;
use degree_planner::catalog::clone_texts;
use degree_planner::catalog::contains_text;
use degree_planner::catalog::find_bank;
use degree_planner::catalog::Catalog;
use degree_planner::catalog::CourseBank;
use degree_planner::catalog::Membership;
use degree_planner::catalog::Rule;
use degree_planner::course::lookup_course;
use degree_planner::course::Course;
use degree_planner::course::CourseState;
use degree_planner::course::CourseStatus;
use degree_planner::course::Grade;
use degree_planner::degree_status::DegreeStatus;

fn bank(name: &str, credit: Option<u32>) -> CourseBank {
    CourseBank { name: name.to_string(), rule: Rule::AccumulateCredit, credit }
}

fn member(id: &str, bank: &str) -> Membership {
    Membership { course_id: id.to_string(), bank: bank.to_string() }
}

fn catalog() -> Catalog {
    Catalog {
        course_banks: vec![bank("a", Some(1)), bank("b", Some(2)), bank("a", Some(3))],
        course_to_bank: vec![member("1", "a"), member("2", "b"), member("3", "a")],
        ..Default::default()
    }
}

#[test]
fn bank_is_found_by_its_name() {
    let c = catalog();
    assert_eq!(find_bank(&c.course_banks, &"a".to_string()), Some(0));
    assert_eq!(find_bank(&c.course_banks, &"b".to_string()), Some(1));
    assert_eq!(find_bank(&c.course_banks, &"c".to_string()), None);
    assert_eq!(c.get_course_bank_by_name(&"a".to_string()), Some(&bank("a", Some(1))));
    assert_eq!(c.get_course_bank_by_name(&"x".to_string()), None);
}

#[test]
fn course_list_follows_the_membership_list() {
    let c = catalog();
    assert_eq!(c.get_course_list(&"a".to_string()), vec!["1", "3"]);
    assert_eq!(c.get_course_list(&"b".to_string()), vec!["2"]);
    assert!(c.get_course_list(&"c".to_string()).is_empty());
    assert!(c.lists_course(&"2".to_string()));
    assert!(!c.lists_course(&"4".to_string()));
}

#[test]
fn removing_a_course_leaves_the_others() {
    let mut c = catalog();
    c.remove_course(&"1".to_string());
    assert_eq!(c.course_to_bank, vec![member("2", "b"), member("3", "a")]);
    c.remove_course(&"9".to_string());
    assert_eq!(c.course_to_bank, vec![member("2", "b"), member("3", "a")]);
    assert_eq!(c.course_banks.len(), 3);
}

#[test]
fn replacement_inherits_the_bank_of_the_course() {
    let mut c = catalog();
    c.replace_courses(&"1".to_string(), &"2".to_string());
    assert_eq!(c.course_to_bank, vec![member("2", "a"), member("3", "a")]);
    c.replace_courses(&"3".to_string(), &"7".to_string());
    assert_eq!(c.course_to_bank, vec![member("2", "a"), member("7", "a")]);
}

#[test]
fn texts_are_searched_and_copied() {
    let ids = vec!["a".to_string(), "bc".to_string()];
    assert!(contains_text(&ids, &"bc".to_string()));
    assert!(!contains_text(&ids, &"b".to_string()));
    assert_eq!(clone_texts(&ids), ids);
    assert_eq!(bank("a", None).clone(), bank("a", None));
    let chains = CourseBank {
        name: "c".to_string(),
        rule: Rule::Chains(vec![ids.clone(), vec![]]),
        credit: Some(4),
    };
    assert_eq!(chains.clone(), chains);
}

#[test]
fn registry_gives_the_first_course_of_an_id_or_an_empty_one() {
    let registry = vec![
        Course { id: "1".to_string(), credit: 4, name: "first".to_string() },
        Course { id: "1".to_string(), credit: 6, name: "second".to_string() },
    ];
    assert_eq!(lookup_course(&registry, &"1".to_string()), registry[0]);
    assert_eq!(
        lookup_course(&registry, &"2".to_string()),
        Course { id: "2".to_string(), credit: 0, name: String::new() }
    );
}

#[test]
fn record_knows_what_its_grade_means() {
    let mut record = CourseStatus { grade: Some(Grade::Numeric(55)), ..Default::default() };
    assert!(record.passed());
    record.set_state();
    assert_eq!(record.state, Some(CourseState::Complete));
    assert!(record.completed());
    record.grade = Some(Grade::Numeric(54));
    record.set_state();
    assert_eq!(record.state, Some(CourseState::NotComplete));
    record.grade = None;
    assert!(!record.passed());
    record.state = Some(CourseState::Irrelevant);
    assert!(record.irrelevant());
    assert!(!record.valid_for_bank(&"a".to_string()));
    record.state = None;
    assert!(record.valid_for_bank(&"a".to_string()));
    record.set_type("a".to_string());
    assert!(record.valid_for_bank(&"a".to_string()));
    assert!(!record.valid_for_bank(&"b".to_string()));
    record.set_msg("note".to_string());
    assert_eq!(record.additional_msg, Some("note".to_string()));
    assert_eq!(record.clone(), record);
}

#[test]
fn sums_fit_for_small_numbers() {
    let registry = vec![];
    let status = DegreeStatus::default();
    let mut h = BankRuleHandler {
        bank_name: "a".to_string(),
        course_list: vec![],
        courses: &registry,
        credit_overflow: 5,
        courses_overflow: 1,
    };
    assert!(h.fits(&status));
    h.credit_overflow = u64::MAX;
    assert!(!h.fits(&status));
}
