//! The pass over a module as a list of single checks.

use vstd::prelude::*;

use crate::checker;
use crate::checker::{FindingView, Lint, RuleSelection};
use crate::inferences;
use crate::syntax::{CmpOp, Node, NodeKind, TextRange};
use crate::tree;
use crate::tree::Visit;
use crate::types;
use crate::types::{QueryView, TypeStore};

verus! {

/// What a single check gives: a finding or none, or a query that is open.
pub type Check = Result<Option<FindingView>, QueryView>;

/// The findings of checks that are made one after the other: the first open query stops
/// them.
pub open spec fn settled(checks: Seq<Check>) -> Result<Seq<FindingView>, QueryView>
    decreases checks.len(),
{
    if checks.len() == 0 {
        Ok(Seq::empty())
    } else {
        match (settled(checks.drop_last()), checks.last()) {
            (Err(query), _) => Err(query),
            (Ok(_), Err(query)) => Err(query),
            (Ok(before), Ok(None)) => Ok(before),
            (Ok(before), Ok(Some(finding))) => Ok(before.push(finding)),
        }
    }
}

proof fn lemma_settled_join(a: Seq<Check>, b: Seq<Check>)
    ensures
        settled(a + b) == types::joined(settled(a), settled(b)),
    decreases b.len(),
{
    if b.len() == 0 {
        assert(a + b =~= a);
        if let Ok(found) = settled(a) {
            assert(found + Seq::<FindingView>::empty() =~= found);
        }
    } else {
        lemma_settled_join(a, b.drop_last());
        assert((a + b).drop_last() =~= a + b.drop_last());
        if let (Ok(x), Ok(y)) = (settled(a), settled(b.drop_last())) {
            if let Ok(Some(finding)) = b.last() {
                assert((x + y).push(finding) =~= x + y.push(finding));
            }
        }
    }
}

proof fn lemma_settled_one(check: Check)
    ensures
        settled(seq![check]) == match check {
            Ok(Some(finding)) => Ok(seq![finding]),
            Ok(None) => Ok(Seq::empty()),
            Err(query) => Err(query),
        },
{
    reveal_with_fuel(settled, 2);
    assert(seq![check].drop_last() =~= Seq::<Check>::empty());
    if let Ok(Some(finding)) = check {
        assert(Seq::<FindingView>::empty().push(finding) =~= seq![finding]);
    }
}

// -- conditions -------------------------------------------------------------------------

/// `and`, `or` and `not`.
pub open spec fn connects(kind: NodeKind) -> bool {
    kind is BoolOp || kind is Not
}

/// The check of one operand of a condition: the type of its region counts before that of
/// its scope.
pub open spec fn leaf_check(
    store: &TypeStore,
    selection: RuleSelection,
    leaf: Node,
) -> Option<FindingView> {
    let ty = if leaf.region_ty is Some {
        leaf.region_ty
    } else {
        leaf.ty
    };
    if connects(leaf.kind) || !selection.comparison || ty is None {
        None
    } else {
        match checker::condition_message(store, ty->0) {
            Some(message) => Some(
                FindingView { lint: Lint::UnnecessaryComparison, range: leaf.range, message },
            ),
            None => None,
        }
    }
}

/// The findings on conditions are those on their operands, however deep `and`, `or` and
/// `not` nest them, in source order.
pub proof fn law_conditions_are_checked_by_operand(
    store: &TypeStore,
    selection: RuleSelection,
    tests: Seq<Node>,
    from: int,
    above: Option<Node>,
)
    requires
        0 <= from,
    ensures
        checker::conditions_findings(store, selection, tests, from) == tree::gathered(
            tree::visits(tests, from, above, |kind: NodeKind| connects(kind)),
            |visit: Visit| leaf_check(store, selection, visit.node),
        ),
    decreases tests, tests.len() - from,
{
    let enters = |kind: NodeKind| connects(kind);
    let pick = |visit: Visit| leaf_check(store, selection, visit.node);
    assert(tree::gathered(Seq::<Visit>::empty(), pick) =~= Seq::<FindingView>::empty());
    if from < tests.len() {
        let node = tests[from];
        let own = seq![Visit { node, above }];
        let below = if enters(node.kind) {
            tree::visits(node.children@, 0, Some(node), enters)
        } else {
            Seq::empty()
        };
        let rest = tree::visits(tests, from + 1, above, enters);
        law_conditions_are_checked_by_operand(store, selection, tests, from + 1, above);
        if enters(node.kind) {
            law_conditions_are_checked_by_operand(
                store,
                selection,
                node.children@,
                0,
                Some(node),
            );
        }
        tree::lemma_gathered_one(own[0], pick);
        tree::lemma_gathered_join(own, below, pick);
        tree::lemma_gathered_join(own + below, rest, pick);
        assert(checker::condition_findings(store, selection, node) =~= tree::gathered(own, pick)
            + tree::gathered(below, pick));
    }
}

/// The test of an `elif` clause.
pub open spec fn clause_test(clause: Node) -> Option<Node> {
    if (clause.kind matches NodeKind::ElifElse { has_test } && has_test)
        && clause.children@.len() > 0 {
        Some(clause.children@[0])
    } else {
        None
    }
}

/// The conditions that a node tests: of `if` the test and those of its `elif` clauses, of
/// `while` the test, of a conditional expression the middle, of a comprehension all behind
/// the target and the iterable.
pub open spec fn tested(node: Node) -> Seq<Node> {
    let children = node.children@;
    match node.kind {
        NodeKind::If => if children.len() > 0 {
            seq![children[0]] + tree::gathered(
                children.skip(1),
                |clause: Node| clause_test(clause),
            )
        } else {
            Seq::empty()
        },
        NodeKind::While => if children.len() > 0 {
            seq![children[0]]
        } else {
            Seq::empty()
        },
        NodeKind::Ternary => if children.len() > 1 {
            seq![children[1]]
        } else {
            Seq::empty()
        },
        NodeKind::Comprehension => if children.len() > 2 {
            children.subrange(2, children.len() as int)
        } else {
            Seq::empty()
        },
        _ => Seq::empty(),
    }
}

proof fn lemma_tested(node: Node)
    ensures
        checker::conditions(node) == tested(node),
{
    let children = node.children@;
    match node.kind {
        NodeKind::If => {
            if children.len() > 0 {
                lemma_clause_tests(children, 1);
            } else {
                assert(checker::conditions(node) =~= Seq::<Node>::empty());
            }
        },
        NodeKind::Comprehension => {
            assert(checker::conditions(node) =~= tested(node));
        },
        _ => {},
    }
}

proof fn lemma_clause_tests(children: Seq<Node>, from: int)
    requires
        0 <= from <= children.len(),
    ensures
        checker::clause_tests(children, from) == tree::gathered(
            children.skip(from),
            |clause: Node| clause_test(clause),
        ),
    decreases children.len() - from,
{
    let pick = |clause: Node| clause_test(clause);
    if from < children.len() {
        lemma_clause_tests(children, from + 1);
        tree::lemma_gathered_one(children[from], pick);
        tree::lemma_gathered_join(seq![children[from]], children.skip(from + 1), pick);
        assert(children.skip(from) =~= seq![children[from]] + children.skip(from + 1));
        assert(checker::clause_tests(children, from) =~= tree::gathered(
            seq![children[from]],
            pick,
        ) + checker::clause_tests(children, from + 1));
    } else {
        assert(children.skip(from) =~= Seq::<Node>::empty());
        assert(tree::gathered(children.skip(from), pick) =~= Seq::<Node>::empty());
    }
}

// -- comparisons and calls --------------------------------------------------------------

/// A message as a finding, if its rule is on.
pub open spec fn as_check(
    on: bool,
    lint: Lint,
    range: TextRange,
    message: Result<Option<Seq<char>>, QueryView>,
) -> Check {
    if !on {
        Ok(None)
    } else {
        match message {
            Ok(Some(message)) => Ok(Some(FindingView { lint, range, message })),
            Ok(None) => Ok(None),
            Err(query) => Err(query),
        }
    }
}

/// The check of one operator of a comparison: from the start of the operand before it to
/// the end of the operand behind it, with the parentheses around them.
pub open spec fn pair_check(
    store: &TypeStore,
    selection: RuleSelection,
    left: Node,
    op: CmpOp,
    right: Node,
) -> Check {
    let range = TextRange { start: left.outer.start, end: right.outer.end };
    if op == CmpOp::In || op == CmpOp::NotIn {
        as_check(
            selection.contains,
            Lint::UnnecessaryContains,
            range,
            checker::contains_message(store, op, left, right),
        )
    } else if op == CmpOp::Order {
        Ok(None)
    } else {
        as_check(
            selection.comparison,
            Lint::UnnecessaryComparison,
            range,
            checker::comparison_message(store, left, op, right),
        )
    }
}

/// How many operators of a comparison stand between two operands.
pub open spec fn operators(ops: Seq<CmpOp>, operands: Seq<Node>) -> nat {
    if operands.len() == 0 {
        0
    } else if ops.len() < operands.len() {
        ops.len()
    } else {
        (operands.len() - 1) as nat
    }
}

/// The checks of a comparison: each operator with the operands on its two sides.
pub open spec fn compare_checks(
    store: &TypeStore,
    selection: RuleSelection,
    ops: Seq<CmpOp>,
    operands: Seq<Node>,
) -> Seq<Check> {
    Seq::new(
        operators(ops, operands),
        |i: int| pair_check(store, selection, operands[i], ops[i], operands[i + 1]),
    )
}

proof fn lemma_compare(
    store: &TypeStore,
    selection: RuleSelection,
    ops: Seq<CmpOp>,
    operands: Seq<Node>,
    from: int,
)
    requires
        0 <= from <= operators(ops, operands),
    ensures
        checker::compare_findings(store, selection, ops, operands, from) == settled(
            compare_checks(store, selection, ops, operands).skip(from),
        ),
    decreases ops.len() - from,
{
    let checks = compare_checks(store, selection, ops, operands);
    if from < operators(ops, operands) {
        lemma_compare(store, selection, ops, operands, from + 1);
        lemma_settled_one(checks[from]);
        lemma_settled_join(seq![checks[from]], checks.skip(from + 1));
        assert(checks.skip(from) =~= seq![checks[from]] + checks.skip(from + 1));
        assert(checker::pair_findings(
            store,
            selection,
            operands[from],
            ops[from],
            operands[from + 1],
        ) == settled(seq![checks[from]]));
    } else {
        assert(checks.skip(from) =~= Seq::<Check>::empty());
    }
}

// -- the pass ---------------------------------------------------------------------------

/// A node that the pass comes by, and whether it stands below an `assert`.
pub struct Spot {
    pub node: Node,
    pub asserted: bool,
}

/// The nodes from `from` on and all nodes below them, in source order.
pub open spec fn spots(nodes: Seq<Node>, from: int, asserted: bool) -> Seq<Spot>
    decreases nodes, nodes.len() - from,
    when 0 <= from
{
    if from >= nodes.len() {
        Seq::empty()
    } else {
        let node = nodes[from];
        seq![Spot { node, asserted }] + spots(
            node.children@,
            0,
            asserted || node.kind is Assert,
        ) + spots(nodes, from + 1, asserted)
    }
}

/// The checks that are made at a node: of its conditions, and outside of `assert` of its
/// operators or of the call that it is.
pub open spec fn checks_at(
    store: &TypeStore,
    selection: RuleSelection,
    spot: Spot,
) -> Seq<Check> {
    let node = spot.node;
    tree::gathered(
        tree::visits(tested(node), 0, None, |kind: NodeKind| connects(kind)),
        |visit: Visit| leaf_check(store, selection, visit.node),
    ).map_values(|finding: FindingView| Ok::<Option<FindingView>, QueryView>(Some(finding))) + (
    match node.kind {
        NodeKind::Compare(ops) => if spot.asserted {
            Seq::empty()
        } else {
            compare_checks(store, selection, ops@, node.children@)
        },
        NodeKind::Call { .. } => if spot.asserted {
            Seq::empty()
        } else {
            seq![
                as_check(
                    selection.isinstance,
                    Lint::UnnecessaryIsinstance,
                    node.range,
                    checker::isinstance_message(store, node),
                ),
            ]
        },
        _ => Seq::empty(),
    })
}

/// All checks of the spots, in their order.
pub open spec fn checks_of(
    store: &TypeStore,
    selection: RuleSelection,
    all: Seq<Spot>,
) -> Seq<Check> {
    inferences::in_a_row(all.map_values(|spot: Spot| checks_at(store, selection, spot)))
}

proof fn lemma_in_a_row_join<T>(a: Seq<Seq<T>>, b: Seq<Seq<T>>)
    ensures
        inferences::in_a_row(a + b) == inferences::in_a_row(a) + inferences::in_a_row(b),
    decreases b.len(),
{
    if b.len() == 0 {
        assert(a + b =~= a);
        assert(inferences::in_a_row(b) =~= Seq::<T>::empty());
    } else {
        lemma_in_a_row_join(a, b.drop_last());
        assert((a + b).drop_last() =~= a + b.drop_last());
        assert(inferences::in_a_row(a + b) =~= inferences::in_a_row(a) + inferences::in_a_row(b));
    }
}

proof fn lemma_checks_join(
    store: &TypeStore,
    selection: RuleSelection,
    a: Seq<Spot>,
    b: Seq<Spot>,
)
    ensures
        checks_of(store, selection, a + b) == checks_of(store, selection, a) + checks_of(
            store,
            selection,
            b,
        ),
{
    let each = |spot: Spot| checks_at(store, selection, spot);
    assert((a + b).map_values(each) =~= a.map_values(each) + b.map_values(each));
    lemma_in_a_row_join(a.map_values(each), b.map_values(each));
}

proof fn lemma_settled_findings(findings: Seq<FindingView>)
    ensures
        settled(
            findings.map_values(
                |finding: FindingView| Ok::<Option<FindingView>, QueryView>(Some(finding)),
            ),
        ) == Ok::<Seq<FindingView>, QueryView>(findings),
    decreases findings.len(),
{
    let as_checks = |finding: FindingView| Ok::<Option<FindingView>, QueryView>(Some(finding));
    let checks = findings.map_values(as_checks);
    if findings.len() > 0 {
        lemma_settled_findings(findings.drop_last());
        assert(checks.drop_last() =~= findings.drop_last().map_values(as_checks));
        assert(findings.drop_last().push(findings.last()) =~= findings);
    } else {
        assert(findings =~= Seq::<FindingView>::empty());
    }
}

proof fn lemma_own(store: &TypeStore, selection: RuleSelection, spot: Spot)
    ensures
        checker::own_findings(store, selection, spot.node, spot.asserted) == settled(
            checks_at(store, selection, spot),
        ),
{
    let node = spot.node;
    lemma_tested(node);
    law_conditions_are_checked_by_operand(store, selection, tested(node), 0, None);
    let found = checker::conditions_findings(store, selection, checker::conditions(node), 0);
    lemma_settled_findings(found);
    let first = found.map_values(
        |finding: FindingView| Ok::<Option<FindingView>, QueryView>(Some(finding)),
    );
    let second = match node.kind {
        NodeKind::Compare(ops) => if spot.asserted {
            Seq::empty()
        } else {
            compare_checks(store, selection, ops@, node.children@)
        },
        NodeKind::Call { .. } => if spot.asserted {
            Seq::empty()
        } else {
            seq![
                as_check(
                    selection.isinstance,
                    Lint::UnnecessaryIsinstance,
                    node.range,
                    checker::isinstance_message(store, node),
                ),
            ]
        },
        _ => Seq::empty(),
    };
    lemma_settled_join(first, second);
    assert(checks_at(store, selection, spot) == first + second);
    match node.kind {
        NodeKind::Compare(ops) => {
            lemma_compare(store, selection, ops@, node.children@, 0);
            let checks = compare_checks(store, selection, ops@, node.children@);
            assert(checks.skip(0) =~= checks);
        },
        NodeKind::Call { .. } => {
            if !spot.asserted {
                lemma_settled_one(second[0]);
            }
        },
        _ => {},
    }
}

proof fn lemma_pass(
    store: &TypeStore,
    selection: RuleSelection,
    nodes: Seq<Node>,
    from: int,
    asserted: bool,
)
    requires
        0 <= from,
    ensures
        checker::nodes_findings(store, selection, nodes, from, asserted) == settled(
            checks_of(store, selection, spots(nodes, from, asserted)),
        ),
    decreases nodes, nodes.len() - from,
{
    if from < nodes.len() {
        let node = nodes[from];
        let spot = Spot { node, asserted };
        let own = seq![spot];
        let below = spots(node.children@, 0, asserted || node.kind is Assert);
        let rest = spots(nodes, from + 1, asserted);
        lemma_pass(store, selection, node.children@, 0, asserted || node.kind is Assert);
        lemma_pass(store, selection, nodes, from + 1, asserted);
        lemma_own(store, selection, spot);
        let each = |spot: Spot| checks_at(store, selection, spot);
        reveal_with_fuel(inferences::in_a_row, 2);
        assert(own.map_values(each).drop_last() =~= Seq::<Seq<Check>>::empty());
        assert(own.map_values(each).last() == checks_at(store, selection, spot));
        assert(checks_of(store, selection, own) =~= checks_at(store, selection, spot));
        lemma_checks_join(store, selection, own, below);
        lemma_checks_join(store, selection, own + below, rest);
        lemma_settled_join(
            checks_of(store, selection, own),
            checks_of(store, selection, below),
        );
        lemma_settled_join(
            checks_of(store, selection, own + below),
            checks_of(store, selection, rest),
        );
        assert(spots(nodes, from, asserted) == own + below + rest);
        let whole = checker::node_findings(store, selection, node, asserted);
        assert(whole == types::joined(
            checker::own_findings(store, selection, node, asserted),
            checker::nodes_findings(
                store,
                selection,
                node.children@,
                0,
                asserted || node.kind is Assert,
            ),
        ));
        assert(whole == settled(checks_of(store, selection, own + below)));
        assert(checker::nodes_findings(store, selection, nodes, from, asserted) == types::joined(
            whole,
            checker::nodes_findings(store, selection, nodes, from + 1, asserted),
        ));
    } else {
        assert(spots(nodes, from, asserted) =~= Seq::<Spot>::empty());
        assert(checks_of(store, selection, spots(nodes, from, asserted)) =~= Seq::<Check>::empty());
    }
}

/// The pass makes all checks at all nodes of the module, at any depth, in source order, and
/// nothing else: its findings are theirs, and the first open query stops it.
pub proof fn law_the_pass_makes_every_check(
    store: &TypeStore,
    selection: RuleSelection,
    body: Seq<Node>,
)
    ensures
        checker::module_findings(store, selection, body) == if selection.isinstance
            || selection.comparison || selection.contains {
            settled(checks_of(store, selection, spots(body, 0, false)))
        } else {
            Ok(Seq::empty())
        },
{
    lemma_pass(store, selection, body, 0, false);
}

// -- what is not lost -------------------------------------------------------------------

/// A path passes below an `assert`.
pub open spec fn below_assert(nodes: Seq<Node>, path: Seq<int>) -> bool {
    !tree::passes(nodes, path, |kind: NodeKind| !(kind is Assert))
}

proof fn lemma_spots_reach(nodes: Seq<Node>, path: Seq<int>, asserted: bool)
    requires
        tree::node_at(nodes, path) is Some,
    ensures
        spots(nodes, 0, asserted).contains(
            Spot {
                node: tree::node_at(nodes, path)->Some_0,
                asserted: asserted || below_assert(nodes, path),
            },
        ),
    decreases path.len(),
{
    let first = path[0];
    let node = nodes[first];
    let spot = Spot {
        node: tree::node_at(nodes, path)->Some_0,
        asserted: asserted || below_assert(nodes, path),
    };
    let free = |kind: NodeKind| !(kind is Assert);
    if path.len() > 1 {
        lemma_spots_reach(node.children@, path.skip(1), asserted || node.kind is Assert);
        assert(tree::passes(nodes, path, free) == (free(node.kind) && tree::passes(
            node.children@,
            path.skip(1),
            free,
        )));
    }
    lemma_spots_hold(nodes, 0, asserted, first, spot);
}

proof fn lemma_spots_hold(nodes: Seq<Node>, from: int, asserted: bool, at: int, spot: Spot)
    requires
        0 <= from <= at < nodes.len(),
        spot == (Spot { node: nodes[at], asserted }) || spots(
            nodes[at].children@,
            0,
            asserted || nodes[at].kind is Assert,
        ).contains(spot),
    ensures
        spots(nodes, from, asserted).contains(spot),
    decreases at - from,
{
    let node = nodes[from];
    let own = seq![Spot { node, asserted }];
    let below = spots(node.children@, 0, asserted || node.kind is Assert);
    let rest = spots(nodes, from + 1, asserted);
    let all = spots(nodes, from, asserted);
    assert(all == own + below + rest);
    if from == at {
        if spot == own[0] {
            assert(all[0] == spot);
        } else {
            assert(all[1 + below.index_of(spot)] == spot);
        }
    } else {
        lemma_spots_hold(nodes, from + 1, asserted, at, spot);
        assert(all[1 + below.len() + rest.index_of(spot)] == spot);
    }
}

proof fn lemma_in_a_row_holds<T>(lists: Seq<Seq<T>>, at: int, k: int)
    requires
        0 <= at < lists.len(),
        0 <= k < lists[at].len(),
    ensures
        inferences::in_a_row(lists).contains(lists[at][k]),
    decreases lists.len(),
{
    let before = inferences::in_a_row(lists.drop_last());
    let all = inferences::in_a_row(lists);
    if at == lists.len() - 1 {
        assert(all[before.len() + k] == lists[at][k]);
    } else {
        lemma_in_a_row_holds(lists.drop_last(), at, k);
        assert(all[before.index_of(lists[at][k])] == lists[at][k]);
    }
}

proof fn lemma_settled_holds(checks: Seq<Check>, at: int, finding: FindingView)
    requires
        0 <= at < checks.len(),
        checks[at] == Ok::<Option<FindingView>, QueryView>(Some(finding)),
        settled(checks) is Ok,
    ensures
        settled(checks)->Ok_0.contains(finding),
    decreases checks.len(),
{
    let found = settled(checks)->Ok_0;
    let before = settled(checks.drop_last());
    assert(before is Ok);
    if at == checks.len() - 1 {
        assert(found.last() == finding);
    } else {
        lemma_settled_holds(checks.drop_last(), at, finding);
        let k = before->Ok_0.index_of(finding);
        assert(found[k] == finding);
    }
}

proof fn lemma_check_is_found(
    store: &TypeStore,
    selection: RuleSelection,
    body: Seq<Node>,
    path: Seq<int>,
    k: int,
    finding: FindingView,
    found: Seq<FindingView>,
)
    requires
        tree::node_at(body, path) is Some,
        ({
            let spot = Spot {
                node: tree::node_at(body, path)->Some_0,
                asserted: below_assert(body, path),
            };
            0 <= k < checks_at(store, selection, spot).len() && checks_at(store, selection, spot)[k]
                == Ok::<Option<FindingView>, QueryView>(Some(finding))
        }),
        checker::module_findings(store, selection, body) == Ok::<Seq<FindingView>, QueryView>(
            found,
        ),
        selection.isinstance || selection.comparison || selection.contains,
    ensures
        found.contains(finding),
{
    law_the_pass_makes_every_check(store, selection, body);
    lemma_spots_reach(body, path, false);
    let spot = Spot {
        node: tree::node_at(body, path)->Some_0,
        asserted: below_assert(body, path),
    };
    let all = spots(body, 0, false);
    let at = all.index_of(spot);
    let each = |spot: Spot| checks_at(store, selection, spot);
    let lists = all.map_values(each);
    assert(lists[at] == checks_at(store, selection, spot));
    lemma_in_a_row_holds(lists, at, k);
    let checks = checks_of(store, selection, all);
    let i = checks.index_of(lists[at][k]);
    lemma_settled_holds(checks, i, finding);
}

/// No comparison is lost: where a path leads to a comparison outside of `assert`, each of
/// its operators that has something to report is among the findings of the pass.
pub proof fn law_no_comparison_is_lost(
    store: &TypeStore,
    selection: RuleSelection,
    body: Seq<Node>,
    path: Seq<int>,
    ops: Vec<CmpOp>,
    at: int,
    message: Seq<char>,
    found: Seq<FindingView>,
)
    requires
        checker::module_findings(store, selection, body) == Ok::<Seq<FindingView>, QueryView>(
            found,
        ),
        tree::node_at(body, path) matches Some(node) && node.kind == NodeKind::Compare(ops) && 0
            <= at < ops@.len() && at + 1 < node.children@.len(),
        !below_assert(body, path),
        ({
            let node = tree::node_at(body, path)->Some_0;
            let (left, op, right) = (node.children@[at], ops@[at], node.children@[at + 1]);
            if op == CmpOp::In || op == CmpOp::NotIn {
                selection.contains && checker::contains_message(store, op, left, right) == Ok::<
                    Option<Seq<char>>,
                    QueryView,
                >(Some(message))
            } else {
                op != CmpOp::Order && selection.comparison && checker::comparison_message(
                    store,
                    left,
                    op,
                    right,
                ) == Ok::<Option<Seq<char>>, QueryView>(Some(message))
            }
        }),
    ensures
        ({
            let node = tree::node_at(body, path)->Some_0;
            let (left, op, right) = (node.children@[at], ops@[at], node.children@[at + 1]);
            found.contains(
                FindingView {
                    lint: if op == CmpOp::In || op == CmpOp::NotIn {
                        Lint::UnnecessaryContains
                    } else {
                        Lint::UnnecessaryComparison
                    },
                    range: TextRange { start: left.outer.start, end: right.outer.end },
                    message,
                },
            )
        }),
{
    let node = tree::node_at(body, path)->Some_0;
    let (left, op, right) = (node.children@[at], ops@[at], node.children@[at + 1]);
    let finding = FindingView {
        lint: if op == CmpOp::In || op == CmpOp::NotIn {
            Lint::UnnecessaryContains
        } else {
            Lint::UnnecessaryComparison
        },
        range: TextRange { start: left.outer.start, end: right.outer.end },
        message,
    };
    let spot = Spot { node, asserted: false };
    let checks = checks_at(store, selection, spot);
    let own = compare_checks(store, selection, ops@, node.children@);
    let k = checks.len() - own.len() + at;
    assert(checks[k] == own[at]);
    lemma_check_is_found(store, selection, body, path, k, finding, found);
}

/// No class check is lost: where a path leads to a call outside of `assert` that has
/// something to report, it is among the findings of the pass.
pub proof fn law_no_class_check_is_lost(
    store: &TypeStore,
    selection: RuleSelection,
    body: Seq<Node>,
    path: Seq<int>,
    message: Seq<char>,
    found: Seq<FindingView>,
)
    requires
        checker::module_findings(store, selection, body) == Ok::<Seq<FindingView>, QueryView>(
            found,
        ),
        selection.isinstance,
        tree::node_at(body, path) matches Some(node) && node.kind is Call
            && checker::isinstance_message(store, node) == Ok::<Option<Seq<char>>, QueryView>(
            Some(message),
        ),
        !below_assert(body, path),
    ensures
        found.contains(
            FindingView {
                lint: Lint::UnnecessaryIsinstance,
                range: tree::node_at(body, path)->Some_0.range,
                message,
            },
        ),
{
    let node = tree::node_at(body, path)->Some_0;
    let finding = FindingView { lint: Lint::UnnecessaryIsinstance, range: node.range, message };
    let spot = Spot { node, asserted: false };
    let checks = checks_at(store, selection, spot);
    lemma_check_is_found(store, selection, body, path, checks.len() - 1, finding, found);
}

} // verus!
