use degree_planner::catalog::Catalog;
use degree_planner::catalog::CourseBank;
use degree_planner::catalog::CreditOverflow;
use degree_planner::catalog::Rule;
use degree_planner::toposort::build_credit_transfer_graph;
use degree_planner::toposort::check_distinct_names;
use degree_planner::toposort::check_rules_name_banks;
use degree_planner::toposort::find_traversal_order;
use degree_planner::toposort::CycleError;

fn bank(name: &str) -> CourseBank {
    CourseBank { name: name.to_string(), rule: Rule::AccumulateCredit, credit: Some(10) }
}

fn rule(from: &str, to: &str) -> CreditOverflow {
    CreditOverflow { from: from.to_string(), to: to.to_string() }
}

fn catalog(banks: &[&str], rules: &[(&str, &str)]) -> Catalog {
    Catalog {
        course_banks: banks.iter().map(|b| bank(b)).collect(),
        credit_overflows: rules.iter().map(|(f, t)| rule(f, t)).collect(),
        ..Default::default()
    }
}

fn names(banks: &[CourseBank]) -> Vec<String> {
    banks.iter().map(|b| b.name.clone()).collect()
}

#[test]
fn graph_has_a_node_for_each_bank_and_an_edge_for_each_rule() {
    let c = catalog(&["a", "b", "c"], &[("c", "a"), ("a", "b")]);
    let g = build_credit_transfer_graph(&c.course_banks, &c.credit_overflows);
    assert_eq!(g.node_count(), 3);
    assert_eq!(g.edge_count(), 2);
    let weights: Vec<String> = g.node_weights().cloned().collect();
    assert_eq!(weights, vec!["a", "b", "c"]);
    let edges: Vec<(usize, usize)> = g
        .raw_edges()
        .iter()
        .map(|e| (e.source().index(), e.target().index()))
        .collect();
    assert_eq!(edges, vec![(2, 0), (0, 1)]);
}

#[test]
fn order_puts_each_source_before_its_target() {
    let c = catalog(
        &["free", "list b", "list a", "hova", "project"],
        &[("project", "list a"), ("hova", "list b"), ("list a", "list b"), ("list b", "free")],
    );
    let ordered = names(&find_traversal_order(&c).unwrap());
    assert_eq!(ordered.len(), 5);
    for (from, to) in [("project", "list a"), ("hova", "list b"), ("list a", "list b"), ("list b", "free")] {
        let i = ordered.iter().position(|n| n == from).unwrap();
        let j = ordered.iter().position(|n| n == to).unwrap();
        assert!(i < j);
    }
    let mut sorted = ordered.clone();
    sorted.sort();
    assert_eq!(sorted, vec!["free", "hova", "list a", "list b", "project"]);
}

#[test]
fn order_without_rules_holds_every_bank() {
    let c = catalog(&["a", "b", "c"], &[]);
    let mut ordered = names(&find_traversal_order(&c).unwrap());
    ordered.sort();
    assert_eq!(ordered, vec!["a", "b", "c"]);
    assert_eq!(find_traversal_order(&catalog(&[], &[])), Ok(vec![]));
}

#[test]
fn ordered_banks_are_the_banks_of_the_catalog() {
    let mut c = catalog(&["a", "b"], &[("b", "a")]);
    c.course_banks[1].rule = Rule::AccumulateCourses(2);
    c.course_banks[1].credit = None;
    let ordered = find_traversal_order(&c).unwrap();
    assert_eq!(ordered[0], c.course_banks[1]);
    assert_eq!(ordered[1], c.course_banks[0]);
}

#[test]
fn cycle_is_an_error_that_names_a_bank_on_it() {
    let c = catalog(&["a", "b", "c", "d"], &[("a", "b"), ("b", "c"), ("c", "b")]);
    match find_traversal_order(&c) {
        Err(CycleError { bank }) => assert!(bank == "b" || bank == "c"),
        Ok(_) => panic!("a cycle was ordered"),
    }
    let own = catalog(&["a", "b"], &[("a", "a")]);
    assert_eq!(find_traversal_order(&own), Err(CycleError { bank: "a".to_string() }));
}

#[test]
fn rules_are_checked_against_the_banks() {
    let c = catalog(&["a", "b"], &[("a", "b")]);
    assert!(check_rules_name_banks(&c.course_banks, &c.credit_overflows));
    let c = catalog(&["a", "b"], &[("a", "x")]);
    assert!(!check_rules_name_banks(&c.course_banks, &c.credit_overflows));
    let c = catalog(&["a", "b"], &[("x", "a")]);
    assert!(!check_rules_name_banks(&c.course_banks, &c.credit_overflows));
    assert!(check_distinct_names(&catalog(&["a", "b", "c"], &[]).course_banks));
    assert!(!check_distinct_names(&catalog(&["a", "b", "a"], &[]).course_banks));
}
