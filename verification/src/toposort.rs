//! The order in which the banks are evaluated: a bank comes before every bank
//! that its spare credit may go to.

use crate::catalog::{
    bank_models, bank_names, bank_position, find_bank, first_position, first_position_found,
    first_position_is, overflow_models, BankModel, Catalog, CourseBank, CreditOverflow,
    OverflowModel,
};
use petgraph::Directed;
use petgraph::graph::{Graph, NodeIndex};
use vstd::prelude::*;

verus! {

/// `petgraph::graph::Graph`, which the library fills and reads through the
/// functions below only.
#[verifier::external_type_specification]
#[verifier::external_body]
#[verifier::reject_recursive_types(N)]
#[verifier::reject_recursive_types(E)]
#[verifier::reject_recursive_types(Ty)]
#[verifier::reject_recursive_types(Ix)]
pub struct ExGraph<N, E, Ty, Ix>(Graph<N, E, Ty, Ix>);

/// `petgraph::Directed`, the marker of a directed graph.
#[verifier::external_type_specification]
#[verifier::external_body]
pub struct ExDirected(Directed);

/// The weights of the nodes of a graph, by node index.
pub uninterp spec fn graph_nodes(g: Graph<String, (), Directed, u32>) -> Seq<Seq<char>>;

/// The edges of a graph in the order in which they were added, each as the
/// indices of its source and of its target.
pub uninterp spec fn graph_edges(g: Graph<String, (), Directed, u32>) -> Seq<(int, int)>;

/// `Graph::new`: a graph without nodes or edges.
#[verifier::external_body]
fn new_graph() -> (g: Graph<String, (), Directed, u32>)
    ensures
        graph_nodes(g) == Seq::<Seq<char>>::empty(),
        graph_edges(g) == Seq::<(int, int)>::empty(),
{
    Graph::new()
}

/// `Graph::add_node`: the new node takes the next index. The outside function
/// panics once the indices of the index type are used up.
#[verifier::external_body]
fn add_node(g: &mut Graph<String, (), Directed, u32>, weight: String)
    requires
        graph_nodes(*old(g)).len() < u32::MAX,
    ensures
        graph_nodes(*final(g)) == graph_nodes(*old(g)).push(weight@),
        graph_edges(*final(g)) == graph_edges(*old(g)),
{
    g.add_node(weight);
}

/// `Graph::add_edge`: an edge from the node `a` to the node `b`. The outside
/// function panics where either node is missing, and once the edge indices are
/// used up.
#[verifier::external_body]
fn add_edge(g: &mut Graph<String, (), Directed, u32>, a: usize, b: usize)
    requires
        a < graph_nodes(*old(g)).len(),
        b < graph_nodes(*old(g)).len(),
        graph_edges(*old(g)).len() < u32::MAX,
    ensures
        graph_nodes(*final(g)) == graph_nodes(*old(g)),
        graph_edges(*final(g)) == graph_edges(*old(g)).push((a as int, b as int)),
{
    g.add_edge(NodeIndex::new(a), NodeIndex::new(b), ());
}

/// `Graph::node_count`.
#[verifier::external_body]
fn node_count(g: &Graph<String, (), Directed, u32>) -> (n: usize)
    ensures
        n == graph_nodes(*g).len(),
{
    g.node_count()
}

/// Indexing a graph by a node index gives the node's weight.
#[verifier::external_body]
fn node_weight(g: &Graph<String, (), Directed, u32>, i: usize) -> (w: &String)
    requires
        i < graph_nodes(*g).len(),
    ensures
        w@ == graph_nodes(*g)[i as int],
{
    &g[NodeIndex::new(i)]
}

/// Whether `order` lists each of the nodes `0..n` once, and each edge's source
/// before its target.
pub open spec fn is_topological_order(order: Seq<int>, n: nat, edges: Seq<(int, int)>) -> bool {
    &&& order.len() == n
    &&& forall|k: int| 0 <= k < n ==> 0 <= #[trigger] order[k] < n
    &&& forall|i: int, j: int| 0 <= i < j < n ==> #[trigger] order[i] != #[trigger] order[j]
    &&& forall|v: int| 0 <= v < n ==> #[trigger] order.contains(v)
    &&& forall|e: int, i: int, j: int|
        0 <= e < edges.len() && 0 <= i < n && 0 <= j < n && order[i] == (#[trigger] edges[e]).0
            && order[j] == edges[e].1 ==> #[trigger] precedes(i, j)
}

/// `i` comes before `j`.
pub open spec fn precedes(i: int, j: int) -> bool {
    i < j
}

/// Whether each node of `path` but the last has an edge to the next.
pub open spec fn is_walk(edges: Seq<(int, int)>, path: Seq<int>) -> bool {
    forall|k: int| 0 <= k < path.len() - 1 ==> edges.contains((#[trigger] path[k], path[k + 1]))
}

/// Whether the node `v` lies on a cycle: a walk of at least one edge leads
/// from `v` back to `v`.
pub open spec fn on_cycle(edges: Seq<(int, int)>, v: int) -> bool {
    exists|path: Seq<int>|
        path.len() >= 2 && path[0] == v && path.last() == v && #[trigger] is_walk(edges, path)
}

/// Whether some node lies on a cycle.
pub open spec fn has_cycle(edges: Seq<(int, int)>) -> bool {
    exists|v: int| on_cycle(edges, v)
}

/// Node indices as integers.
pub open spec fn as_ints(v: Seq<usize>) -> Seq<int> {
    Seq::new(v.len(), |k: int| v[k] as int)
}

/// `petgraph::algo::toposort`, with node indices as numbers. For a graph
/// without cycles the outside function returns all the nodes, each before its
/// successors; otherwise it returns a node that takes part in a cycle.
#[verifier::external_body]
fn toposort_indices(g: &Graph<String, (), Directed, u32>) -> (out: Result<Vec<usize>, usize>)
    ensures
        match out {
            Ok(order) => is_topological_order(
                as_ints(order@),
                graph_nodes(*g).len(),
                graph_edges(*g),
            ),
            Err(v) => v < graph_nodes(*g).len() && on_cycle(graph_edges(*g), v as int),
        },
{
    match petgraph::algo::toposort(g, None) {
        Ok(order) => Ok(order.into_iter().map(|n| n.index()).collect()),
        Err(cycle) => Err(cycle.node_id().index()),
    }
}

/// The index of the first node of weight `name`.
fn find_node(g: &Graph<String, (), Directed, u32>, name: &String) -> (out: Option<usize>)
    ensures
        match out {
            Some(p) => p < graph_nodes(*g).len() && p == first_position(graph_nodes(*g), name@),
            None => first_position(graph_nodes(*g), name@) == graph_nodes(*g).len(),
        },
{
    let n = node_count(g);
    let mut i: usize = 0;
    while i < n
        invariant
            i <= n,
            n == graph_nodes(*g).len(),
            forall|k: int| 0 <= k < i ==> graph_nodes(*g)[k] != name@,
        decreases n - i,
    {
        if *node_weight(g, i) == *name {
            proof {
                first_position_is(graph_nodes(*g), name@, i as int);
            }
            return Some(i);
        }
        i += 1;
    }
    proof {
        first_position_is(graph_nodes(*g), name@, i as int);
    }
    None
}

/// Whether both ends of every transfer rule are names of banks.
pub open spec fn rules_name_banks(banks: Seq<BankModel>, rules: Seq<OverflowModel>) -> bool {
    forall|k: int|
        0 <= k < rules.len() ==> bank_position(banks, (#[trigger] rules[k]).from) < banks.len()
            && bank_position(banks, rules[k].to) < banks.len()
}

/// The transfer rules as edges between bank positions.
pub open spec fn transfer_edges(banks: Seq<BankModel>, rules: Seq<OverflowModel>) -> Seq<
    (int, int),
> {
    Seq::new(
        rules.len(),
        |k: int| (bank_position(banks, rules[k].from), bank_position(banks, rules[k].to)),
    )
}

/// Whether both ends of every transfer rule are names of banks.
pub fn check_rules_name_banks(course_banks: &Vec<CourseBank>, rules: &Vec<CreditOverflow>) -> (out:
    bool)
    ensures
        out == rules_name_banks(bank_models(course_banks@), overflow_models(rules@)),
{
    let mut k: usize = 0;
    while k < rules.len()
        invariant
            k <= rules.len(),
            forall|j: int|
                0 <= j < k ==> bank_position(
                    bank_models(course_banks@),
                    (#[trigger] overflow_models(rules@)[j]).from,
                ) < course_banks.len() && bank_position(
                    bank_models(course_banks@),
                    overflow_models(rules@)[j].to,
                ) < course_banks.len(),
        decreases rules.len() - k,
    {
        let from = find_bank(course_banks, &rules[k].from);
        let to = find_bank(course_banks, &rules[k].to);
        if from.is_none() || to.is_none() {
            assert(overflow_models(rules@)[k as int] == rules[k as int]@);
            return false;
        }
        assert(overflow_models(rules@)[k as int] == rules[k as int]@);
        k += 1;
    }
    true
}

/// The graph of the credit transfers: a node for each bank, in order, and an
/// edge for each rule, in order, from the first bank called `from` to the
/// first bank called `to`.
pub fn build_credit_transfer_graph(
    course_banks: &[CourseBank],
    credit_overflow_rules: &[CreditOverflow],
) -> (g: Graph<String, (), Directed, u32>)
    requires
        course_banks.len() < u32::MAX,
        credit_overflow_rules.len() < u32::MAX,
        rules_name_banks(bank_models(course_banks@), overflow_models(credit_overflow_rules@)),
    ensures
        graph_nodes(g) == bank_names(bank_models(course_banks@)),
        graph_edges(g) == transfer_edges(
            bank_models(course_banks@),
            overflow_models(credit_overflow_rules@),
        ),
{
    let ghost banks = bank_models(course_banks@);
    let ghost rules = overflow_models(credit_overflow_rules@);
    let mut g = new_graph();
    let mut i: usize = 0;
    while i < course_banks.len()
        invariant
            i <= course_banks.len() < u32::MAX,
            banks == bank_models(course_banks@),
            graph_nodes(g) == bank_names(banks).take(i as int),
            graph_edges(g) == Seq::<(int, int)>::empty(),
        decreases course_banks.len() - i,
    {
        add_node(&mut g, course_banks[i].name.clone());
        i += 1;
        assert(bank_names(banks).take(i as int) == bank_names(banks).take(i - 1).push(
            course_banks[i - 1].name@,
        ));
    }
    assert(bank_names(banks).take(i as int) == bank_names(banks));
    let mut k: usize = 0;
    while k < credit_overflow_rules.len()
        invariant
            k <= credit_overflow_rules.len() < u32::MAX,
            banks == bank_models(course_banks@),
            rules == overflow_models(credit_overflow_rules@),
            rules_name_banks(banks, rules),
            graph_nodes(g) == bank_names(banks),
            graph_edges(g) == transfer_edges(banks, rules).take(k as int),
        decreases credit_overflow_rules.len() - k,
    {
        assert(rules[k as int] == credit_overflow_rules[k as int]@);
        let from = find_node(&g, &credit_overflow_rules[k].from).unwrap();
        let to = find_node(&g, &credit_overflow_rules[k].to).unwrap();
        add_edge(&mut g, from, to);
        k += 1;
        assert(transfer_edges(banks, rules).take(k as int) == transfer_edges(banks, rules).take(
            k - 1,
        ).push((from as int, to as int)));
    }
    assert(transfer_edges(banks, rules).take(k as int) == transfer_edges(banks, rules));
    g
}

/// The transfer rules run in a circle through the bank `bank`.
#[derive(Debug, PartialEq, Eq)]
pub struct CycleError {
    pub bank: String,
}

/// Whether both ends of every edge are among the nodes `0..n`.
pub open spec fn edges_in_range(edges: Seq<(int, int)>, n: nat) -> bool {
    forall|e: int|
        0 <= e < edges.len() ==> 0 <= (#[trigger] edges[e]).0 < n && 0 <= edges[e].1 < n
}

/// Along a walk, the place in a topological order only grows.
proof fn walk_moves_forward(order: Seq<int>, n: nat, edges: Seq<(int, int)>, path: Seq<int>, k: int)
    requires
        is_topological_order(order, n, edges),
        edges_in_range(edges, n),
        is_walk(edges, path),
        1 <= k < path.len(),
    ensures
        0 <= path[0] < n,
        0 <= path[k] < n,
        order.index_of(path[0]) < order.index_of(path[k]),
    decreases k,
{
    let a = path[k - 1];
    let b = path[k];
    assert(edges.contains((a, b)));
    let e = choose|e: int| 0 <= e < edges.len() && edges[e] == (a, b);
    assert(0 <= edges[e].0 < n && 0 <= edges[e].1 < n);
    assert(order.contains(a));
    assert(order.contains(b));
    let i = order.index_of(a);
    let j = order.index_of(b);
    assert(precedes(i, j));
    if k > 1 {
        walk_moves_forward(order, n, edges, path, k - 1);
    }
}

/// A graph whose nodes can be put in a topological order has no cycle.
pub proof fn topological_order_excludes_cycles(order: Seq<int>, n: nat, edges: Seq<(int, int)>)
    requires
        is_topological_order(order, n, edges),
        edges_in_range(edges, n),
    ensures
        !has_cycle(edges),
{
    if has_cycle(edges) {
        let v = choose|v: int| on_cycle(edges, v);
        let path = choose|path: Seq<int>|
            path.len() >= 2 && path[0] == v && path.last() == v && #[trigger] is_walk(edges, path);
        walk_moves_forward(order, n, edges, path, path.len() - 1);
    }
}

/// The banks in the order `order` of their positions, each looked up by its
/// name.
pub open spec fn ordered_banks(banks: Seq<BankModel>, order: Seq<int>) -> Seq<BankModel> {
    Seq::new(order.len(), |k: int| banks[bank_position(banks, banks[order[k]].name)])
}

/// Whether `ordered` holds the banks of the catalog in an order in which each
/// transfer rule's source comes before its target.
pub open spec fn is_traversal_order(
    banks: Seq<BankModel>,
    rules: Seq<OverflowModel>,
    ordered: Seq<BankModel>,
) -> bool {
    exists|order: Seq<int>|
        #[trigger] is_topological_order(order, banks.len(), transfer_edges(banks, rules))
            && ordered == ordered_banks(banks, order)
}

/// The edges of transfer rules that name banks lie among the banks.
pub proof fn transfer_edges_in_range(banks: Seq<BankModel>, rules: Seq<OverflowModel>)
    requires
        rules_name_banks(banks, rules),
    ensures
        edges_in_range(transfer_edges(banks, rules), banks.len()),
{
    let edges = transfer_edges(banks, rules);
    assert forall|e: int| 0 <= e < edges.len() implies 0 <= (#[trigger] edges[e]).0 < banks.len()
        && 0 <= edges[e].1 < banks.len() by {
        first_position_found(bank_names(banks), rules[e].from);
        first_position_found(bank_names(banks), rules[e].to);
    }
}

/// The banks that the nodes of `order` stand for, each looked up by the
/// node's weight.
fn banks_in_order(
    catalog: &Catalog,
    g: &Graph<String, (), Directed, u32>,
    order: &Vec<usize>,
) -> (ordered: Vec<CourseBank>)
    requires
        graph_nodes(*g) == bank_names(catalog@.course_banks),
        order.len() == catalog.course_banks.len(),
        forall|k: int| 0 <= k < order.len() ==> 0 <= #[trigger] order[k] < catalog.course_banks.len(),
    ensures
        bank_models(ordered@) == ordered_banks(catalog@.course_banks, as_ints(order@)),
{
    let ghost banks = catalog@.course_banks;
    let ghost ints = as_ints(order@);
    let mut ordered: Vec<CourseBank> = Vec::new();
    let mut k: usize = 0;
    while k < order.len()
        invariant
            k <= order.len(),
            order.len() == banks.len(),
            banks == catalog@.course_banks,
            ints == as_ints(order@),
            forall|k: int| 0 <= k < order.len() ==> 0 <= #[trigger] order[k] < banks.len(),
            graph_nodes(*g) == bank_names(banks),
            ordered.len() == k,
            forall|j: int| 0 <= j < k ==> (#[trigger] ordered[j])@ == ordered_banks(banks, ints)[j],
        decreases order.len() - k,
    {
        let node = order[k];
        let name = node_weight(g, node);
        proof {
            first_position_found(bank_names(banks), name@);
        }
        let bank = catalog.get_course_bank_by_name(name).unwrap();
        ordered.push(bank.clone());
        k += 1;
    }
    assert(bank_models(ordered@) =~= ordered_banks(banks, ints));
    ordered
}

/// The banks of the catalog in an order in which each bank comes before the
/// banks that its spare credit goes to. Where the transfer rules run in a
/// circle there is no such order, and the error names a bank on the circle.
pub fn find_traversal_order(catalog: &Catalog) -> (out: Result<Vec<CourseBank>, CycleError>)
    requires
        catalog.course_banks.len() < u32::MAX,
        catalog.credit_overflows.len() < u32::MAX,
        rules_name_banks(catalog@.course_banks, catalog@.credit_overflows),
    ensures
        out is Ok <==> !has_cycle(transfer_edges(catalog@.course_banks, catalog@.credit_overflows)),
        match out {
            Ok(ordered) => is_traversal_order(
                catalog@.course_banks,
                catalog@.credit_overflows,
                bank_models(ordered@),
            ),
            Err(e) => exists|v: int|
                0 <= v < catalog.course_banks.len() && on_cycle(
                    transfer_edges(catalog@.course_banks, catalog@.credit_overflows),
                    v,
                ) && e.bank@ == #[trigger] catalog@.course_banks[v].name,
        },
{
    let ghost banks = catalog@.course_banks;
    let ghost edges = transfer_edges(catalog@.course_banks, catalog@.credit_overflows);
    let g = build_credit_transfer_graph(
        catalog.course_banks.as_slice(),
        catalog.credit_overflows.as_slice(),
    );
    match toposort_indices(&g) {
        Ok(order) => {
            proof {
                transfer_edges_in_range(banks, catalog@.credit_overflows);
                topological_order_excludes_cycles(as_ints(order@), banks.len(), edges);
                assert forall|k: int| 0 <= k < order.len() implies 0 <= #[trigger] order[k]
                    < catalog.course_banks.len() by {
                    assert(0 <= as_ints(order@)[k] < banks.len());
                }
            }
            Ok(banks_in_order(catalog, &g, &order))
        },
        Err(v) => {
            let bank = node_weight(&g, v).clone();
            assert(on_cycle(edges, v as int));
            assert(catalog@.course_banks[v as int].name == bank@);
            Err(CycleError { bank })
        },
    }
}

/// Whether no two banks have the same name.
pub open spec fn distinct_names(banks: Seq<BankModel>) -> bool {
    forall|i: int, j: int|
        0 <= i < j < banks.len() ==> (#[trigger] banks[i]).name != (#[trigger] banks[j]).name
}

/// Among banks of distinct names, a bank's name is found at the bank's place.
pub proof fn position_of_own_name(banks: Seq<BankModel>, i: int)
    requires
        distinct_names(banks),
        0 <= i < banks.len(),
    ensures
        bank_position(banks, banks[i].name) == i,
{
    assert forall|k: int| 0 <= k < i implies bank_names(banks)[k] != banks[i].name by {
        assert(banks[k].name != banks[i].name);
    }
    first_position_is(bank_names(banks), banks[i].name, i);
}

/// In a traversal order of banks with distinct names, the bank that a transfer
/// rule takes credit from stands before the bank that the rule gives it to.
pub proof fn order_respects_transfers(
    banks: Seq<BankModel>,
    rules: Seq<OverflowModel>,
    order: Seq<int>,
    r: int,
    i: int,
    j: int,
)
    requires
        distinct_names(banks),
        is_topological_order(order, banks.len(), transfer_edges(banks, rules)),
        0 <= r < rules.len(),
        0 <= i < banks.len(),
        0 <= j < banks.len(),
        ordered_banks(banks, order)[i].name == rules[r].from,
        ordered_banks(banks, order)[j].name == rules[r].to,
    ensures
        i < j,
{
    let edges = transfer_edges(banks, rules);
    assert(0 <= order[i] < banks.len());
    assert(0 <= order[j] < banks.len());
    position_of_own_name(banks, order[i]);
    position_of_own_name(banks, order[j]);
    assert(edges[r] == (order[i], order[j]));
    assert(precedes(i, j));
}

/// Whether no two banks have the same name.
pub fn check_distinct_names(course_banks: &Vec<CourseBank>) -> (out: bool)
    ensures
        out == distinct_names(bank_models(course_banks@)),
{
    let ghost banks = bank_models(course_banks@);
    let mut j: usize = 0;
    while j < course_banks.len()
        invariant
            j <= course_banks.len(),
            banks == bank_models(course_banks@),
            forall|a: int, b: int|
                0 <= a < b < j ==> (#[trigger] banks[a]).name != (#[trigger] banks[b]).name,
        decreases course_banks.len() - j,
    {
        let mut i: usize = 0;
        while i < j
            invariant
                i <= j < course_banks.len(),
                banks == bank_models(course_banks@),
                forall|a: int| 0 <= a < i ==> (#[trigger] banks[a]).name != banks[j as int].name,
            decreases j - i,
        {
            if course_banks[i].name == course_banks[j].name {
                assert(banks[i as int].name == banks[j as int].name);
                return false;
            }
            i += 1;
        }
        j += 1;
    }
    true
}

/// A traversal order of banks with distinct names holds each bank once.
pub proof fn traversal_order_is_distinct(
    banks: Seq<BankModel>,
    rules: Seq<OverflowModel>,
    ordered: Seq<BankModel>,
)
    requires
        distinct_names(banks),
        is_traversal_order(banks, rules, ordered),
    ensures
        distinct_names(ordered),
        ordered.len() == banks.len(),
        forall|k: int| 0 <= k < ordered.len() ==> banks.contains(#[trigger] ordered[k]),
{
    let order = choose|order: Seq<int>|
        #[trigger] is_topological_order(order, banks.len(), transfer_edges(banks, rules))
            && ordered == ordered_banks(banks, order);
    assert forall|k: int| 0 <= k < ordered.len() implies ordered[k] == banks[order[k]] by {
        assert(0 <= order[k] < banks.len());
        position_of_own_name(banks, order[k]);
    }
    assert forall|i: int, j: int| 0 <= i < j < ordered.len() implies (#[trigger] ordered[i]).name
        != (#[trigger] ordered[j]).name by {
        assert(order[i] != order[j]);
        assert(ordered[i] == banks[order[i]]);
        assert(ordered[j] == banks[order[j]]);
        if order[i] < order[j] {
            assert(banks[order[i]].name != banks[order[j]].name);
        } else {
            assert(banks[order[j]].name != banks[order[i]].name);
        }
    }
    assert forall|k: int| 0 <= k < ordered.len() implies banks.contains(#[trigger] ordered[k]) by {
        assert(ordered[k] == banks[order[k]]);
    }
}

} // verus!
