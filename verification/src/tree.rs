//! The nodes of a syntax tree as lists: what the collections of the other modules are
//! measured against.

use vstd::prelude::*;

use crate::edges;
use crate::inferred_return;
use crate::inferred_return::{ReturnSite, YieldSite};
use crate::syntax::{Node, NodeKind};
use crate::types::TypeId;

verus! {

// -- walks ------------------------------------------------------------------------------

/// A node that a walk comes by, and the node right above it.
pub struct Visit {
    pub node: Node,
    pub above: Option<Node>,
}

/// The nodes from `from` on and those below them, a node before what is below it. What is
/// below a node is passed over where `enters` does not hold of its kind.
pub open spec fn visits(
    nodes: Seq<Node>,
    from: int,
    above: Option<Node>,
    enters: spec_fn(NodeKind) -> bool,
) -> Seq<Visit>
    decreases nodes, nodes.len() - from,
    when 0 <= from
{
    if from >= nodes.len() {
        Seq::empty()
    } else {
        let node = nodes[from];
        seq![Visit { node, above }] + (if enters(node.kind) {
            visits(node.children@, 0, Some(node), enters)
        } else {
            Seq::empty()
        }) + visits(nodes, from + 1, above, enters)
    }
}

/// What `pick` takes from the items, in their order.
pub open spec fn gathered<A, T>(items: Seq<A>, pick: spec_fn(A) -> Option<T>) -> Seq<T>
    decreases items.len(),
{
    if items.len() == 0 {
        Seq::empty()
    } else {
        let before = gathered(items.drop_last(), pick);
        match pick(items.last()) {
            Some(value) => before.push(value),
            None => before,
        }
    }
}

pub proof fn lemma_gathered_join<A, T>(a: Seq<A>, b: Seq<A>, pick: spec_fn(A) -> Option<T>)
    ensures
        gathered(a + b, pick) == gathered(a, pick) + gathered(b, pick),
    decreases b.len(),
{
    if b.len() == 0 {
        assert(a + b =~= a);
        assert(gathered(b, pick) =~= Seq::<T>::empty());
    } else {
        lemma_gathered_join(a, b.drop_last(), pick);
        assert((a + b).drop_last() =~= a + b.drop_last());
        assert((a + b).last() == b.last());
        assert(gathered(a + b, pick) =~= gathered(a, pick) + gathered(b, pick));
    }
}

pub proof fn lemma_gathered_one<A, T>(item: A, pick: spec_fn(A) -> Option<T>)
    ensures
        gathered(seq![item], pick) == match pick(item) {
            Some(value) => seq![value],
            None => Seq::empty(),
        },
{
    assert(seq![item].drop_last() =~= Seq::<A>::empty());
    assert(gathered(seq![item].drop_last(), pick) =~= Seq::<T>::empty());
    assert(gathered(seq![item], pick) =~= match pick(item) {
        Some(value) => seq![value],
        None => Seq::empty(),
    });
}

/// What is picked from a list is picked from one of its items, and from each of them.
pub proof fn lemma_gathered_all<A, T>(items: Seq<A>, pick: spec_fn(A) -> Option<T>)
    ensures
        forall|i: int|
            0 <= i < items.len() ==> (pick(#[trigger] items[i]) matches Some(value) ==> gathered(
                items,
                pick,
            ).contains(value)),
        forall|value: T| #[trigger]
            gathered(items, pick).contains(value) ==> exists|i: int|
                0 <= i < items.len() && pick(#[trigger] items[i]) == Some(value),
    decreases items.len(),
{
    if items.len() > 0 {
        let before = items.drop_last();
        lemma_gathered_all(before, pick);
        let all = gathered(items, pick);
        let some = gathered(before, pick);
        assert forall|i: int| 0 <= i < items.len() implies (pick(#[trigger] items[i]) matches Some(
            value,
        ) ==> all.contains(value)) by {
            if let Some(value) = pick(items[i]) {
                if i < before.len() {
                    assert(before[i] == items[i]);
                    assert(some.contains(value));
                    let k = some.index_of(value);
                    assert(all[k] == value);
                } else {
                    assert(all.last() == value);
                }
            }
        }
        assert forall|value: T| #[trigger] all.contains(value) implies exists|i: int|
            0 <= i < items.len() && pick(#[trigger] items[i]) == Some(value) by {
            let k = all.index_of(value);
            if k < some.len() {
                assert(some[k] == value);
                assert(some.contains(value));
                let i = choose|i: int|
                    0 <= i < before.len() && pick(#[trigger] before[i]) == Some(value);
                assert(items[i] == before[i]);
            } else {
                assert(pick(items[items.len() - 1]) == Some(value));
            }
        }
    } else {
        assert(gathered(items, pick) =~= Seq::<T>::empty());
    }
}

// -- paths ------------------------------------------------------------------------------

/// The node that a path leads to: a position among the nodes, then one among the children
/// at each step.
pub open spec fn node_at(nodes: Seq<Node>, path: Seq<int>) -> Option<Node>
    decreases path.len(),
{
    if path.len() == 0 || path[0] < 0 || path[0] >= nodes.len() {
        None
    } else if path.len() == 1 {
        Some(nodes[path[0]])
    } else {
        node_at(nodes[path[0]].children@, path.skip(1))
    }
}

/// Whether `enters` holds of every node that a path passes through on its way.
pub open spec fn passes(
    nodes: Seq<Node>,
    path: Seq<int>,
    enters: spec_fn(NodeKind) -> bool,
) -> bool
    decreases path.len(),
{
    path.len() <= 1 || path[0] < 0 || path[0] >= nodes.len() || (enters(nodes[path[0]].kind)
        && passes(nodes[path[0]].children@, path.skip(1), enters))
}

/// A walk comes by every node that a path leads to through nodes that it enters.
pub proof fn law_walks_reach_every_node(
    nodes: Seq<Node>,
    above: Option<Node>,
    path: Seq<int>,
    enters: spec_fn(NodeKind) -> bool,
) -> (visit: Visit)
    requires
        node_at(nodes, path) is Some,
        passes(nodes, path, enters),
    ensures
        visits(nodes, 0, above, enters).contains(visit),
        visit.node == node_at(nodes, path)->Some_0,
        visit.above == if path.len() == 1 {
            above
        } else {
            node_at(nodes, path.drop_last())
        },
    decreases path.len(),
{
    let first = path[0];
    if path.len() == 1 {
        let visit = Visit { node: nodes[first], above };
        lemma_visits_hold(nodes, 0, above, enters, first, visit);
        visit
    } else {
        let node = nodes[first];
        let visit = law_walks_reach_every_node(
            node.children@,
            Some(node),
            path.skip(1),
            enters,
        );
        lemma_visits_hold(nodes, 0, above, enters, first, visit);
        if path.len() == 2 {
            assert(path.drop_last().len() == 1);
        } else {
            assert(path.drop_last().skip(1) =~= path.skip(1).drop_last());
        }
        visit
    }
}

/// A walk comes by its nodes and by what it finds below those that it enters.
proof fn lemma_visits_hold(
    nodes: Seq<Node>,
    from: int,
    above: Option<Node>,
    enters: spec_fn(NodeKind) -> bool,
    at: int,
    visit: Visit,
)
    requires
        0 <= from <= at < nodes.len(),
        visit == (Visit { node: nodes[at], above }) || (enters(nodes[at].kind) && visits(
            nodes[at].children@,
            0,
            Some(nodes[at]),
            enters,
        ).contains(visit)),
    ensures
        visits(nodes, from, above, enters).contains(visit),
    decreases at - from,
{
    let node = nodes[from];
    let own = seq![Visit { node, above }];
    let below = if enters(node.kind) {
        visits(node.children@, 0, Some(node), enters)
    } else {
        Seq::empty()
    };
    let rest = visits(nodes, from + 1, above, enters);
    let all = visits(nodes, from, above, enters);
    assert(all == own + below + rest);
    if from == at {
        if visit == own[0] {
            assert(all[0] == visit);
        } else {
            let k = below.index_of(visit);
            assert(all[1 + k] == visit);
        }
    } else {
        lemma_visits_hold(nodes, from + 1, above, enters, at, visit);
        let k = rest.index_of(visit);
        assert(all[1 + below.len() + k] == visit);
    }
}

// -- returns ----------------------------------------------------------------------------

/// What is below the node belongs to the scope that the node stands in, as far as `return`
/// statements go.
pub open spec fn holds_statements(kind: NodeKind) -> bool {
    !(kind is FunctionDef) && !(kind is ClassDef) && !(kind is Return)
}

/// What a node contributes to the returns of its scope: a `return` its value and, where
/// that is a call, the callee.
pub open spec fn return_given(visit: Visit) -> Option<ReturnSite> {
    let node = visit.node;
    if !(node.kind is Return) {
        None
    } else if node.children@.len() == 0 {
        Some(ReturnSite::Bare)
    } else {
        let value = node.children@[0];
        Some(
            ReturnSite::Value {
                ty: value.ty,
                callee: if value.kind is Call && value.children@.len() > 0 {
                    value.children@[0].ty
                } else {
                    None::<TypeId>
                },
            },
        )
    }
}

/// The returns of a body are its `return` statements in source order, whatever statements
/// stand around them: all that are reached without passing through a nested function or
/// class, each as often as it stands there, and nothing else.
pub proof fn law_returns_are_those_of_the_scope(body: Seq<Node>, from: int, above: Option<Node>)
    requires
        0 <= from,
    ensures
        inferred_return::all_returns(body, from) == gathered(
            visits(body, from, above, |kind: NodeKind| holds_statements(kind)),
            |visit: Visit| return_given(visit),
        ),
    decreases body, body.len() - from,
{
    let enters = |kind: NodeKind| holds_statements(kind);
    let pick = |visit: Visit| return_given(visit);
    if from < body.len() {
        let node = body[from];
        let own = seq![Visit { node, above }];
        let below = if enters(node.kind) {
            visits(node.children@, 0, Some(node), enters)
        } else {
            Seq::empty()
        };
        let rest = visits(body, from + 1, above, enters);
        law_returns_are_those_of_the_scope(body, from + 1, above);
        if enters(node.kind) {
            law_returns_are_those_of_the_scope(node.children@, 0, Some(node));
        }
        lemma_gathered_one(own[0], pick);
        lemma_gathered_join(own, below, pick);
        lemma_gathered_join(own + below, rest, pick);
        assert(gathered(Seq::<Visit>::empty(), pick) =~= Seq::<ReturnSite>::empty());
        assert(inferred_return::returns_of(node) =~= gathered(own, pick) + gathered(below, pick));
    } else {
        assert(gathered(Seq::<Visit>::empty(), pick) =~= Seq::<ReturnSite>::empty());
    }
}

/// No `return` is lost: each that a path leads to without passing through a function, a
/// class or another `return` is among the returns of the body.
pub proof fn law_no_return_is_lost(body: Seq<Node>, path: Seq<int>)
    requires
        node_at(body, path) matches Some(node) && node.kind is Return,
        passes(body, path, |kind: NodeKind| holds_statements(kind)),
    ensures
        ({
            let node = node_at(body, path)->Some_0;
            &&& node.children@.len() == 0 ==> inferred_return::all_returns(body, 0).contains(
                ReturnSite::Bare,
            )
            &&& node.children@.len() > 0 ==> exists|callee: Option<TypeId>|
                inferred_return::all_returns(body, 0).contains(
                    #[trigger] returned(node.children@[0].ty, callee),
                )
        }),
{
    let enters = |kind: NodeKind| holds_statements(kind);
    let pick = |visit: Visit| return_given(visit);
    let node = node_at(body, path)->Some_0;
    law_returns_are_those_of_the_scope(body, 0, None);
    let visit = law_walks_reach_every_node(body, None, path, enters);
    let all = visits(body, 0, None, enters);
    let k = all.index_of(visit);
    assert(all[k] == visit);
    lemma_gathered_all(all, pick);
    if node.children@.len() > 0 {
        if let Some(ReturnSite::Value { ty, callee }) = pick(visit) {
            assert(inferred_return::all_returns(body, 0).contains(returned(ty, callee)));
        }
    }
}

/// The site of a `return` with a value.
pub open spec fn returned(ty: Option<TypeId>, callee: Option<TypeId>) -> ReturnSite {
    ReturnSite::Value { ty, callee }
}

// -- yields -----------------------------------------------------------------------------

/// What is below the node belongs to the scope that the node stands in, as far as yields
/// go.
pub open spec fn holds_yields(kind: NodeKind) -> bool {
    !(kind is FunctionDef) && !(kind is ClassDef) && !(kind is Lambda)
}

/// What a node contributes to the yields of its scope. A function, class or lambda gives
/// nothing itself.
pub open spec fn yield_given(visit: Visit) -> Option<YieldSite> {
    let node = visit.node;
    let operand = if node.children@.len() > 0 {
        node.children@[0].ty
    } else {
        None::<TypeId>
    };
    if node.kind is Yield && node.children@.len() == 0 {
        Some(YieldSite::Bare)
    } else if node.kind is Yield {
        Some(YieldSite::Yield(operand))
    } else if node.kind is YieldFrom {
        Some(YieldSite::YieldFrom(operand))
    } else {
        None
    }
}

/// A `yield` whose value is used: it does not stand right below an expression statement.
pub open spec fn used_yield(visit: Visit, top_is_statement: bool) -> bool {
    &&& visit.node.kind is Yield
    &&& match visit.above {
        Some(above) => !(above.kind is ExprStmt),
        None => !top_is_statement,
    }
}

/// The yields of a body are its yield expressions in source order, those of nested
/// functions, classes and lambdas left out. They count as consumed exactly where some
/// `yield` is used, and as delegating exactly where some is a `yield from`.
pub proof fn law_yields_are_those_of_the_scope(
    body: Seq<Node>,
    from: int,
    above: Option<Node>,
    direct: bool,
)
    requires
        0 <= from,
        above matches Some(node) ==> direct == node.kind is ExprStmt,
    ensures
        ({
            let all = visits(body, from, above, |kind: NodeKind| holds_yields(kind));
            let found = inferred_return::all_yields(body, from, direct);
            &&& found.sites == gathered(all, |visit: Visit| yield_given(visit))
            &&& found.consumed <==> exists|i: int|
                0 <= i < all.len() && used_yield(#[trigger] all[i], direct)
            &&& found.delegates <==> exists|i: int|
                0 <= i < all.len() && (#[trigger] all[i]).node.kind is YieldFrom
        }),
    decreases body, body.len() - from,
{
    let enters = |kind: NodeKind| holds_yields(kind);
    let pick = |visit: Visit| yield_given(visit);
    let all = visits(body, from, above, enters);
    let found = inferred_return::all_yields(body, from, direct);
    if from < body.len() {
        let node = body[from];
        let own = seq![Visit { node, above }];
        let below = if enters(node.kind) {
            visits(node.children@, 0, Some(node), enters)
        } else {
            Seq::empty()
        };
        let rest = visits(body, from + 1, above, enters);
        law_yields_are_those_of_the_scope(body, from + 1, above, direct);
        let inner = inferred_return::all_yields(node.children@, 0, node.kind is ExprStmt);
        if enters(node.kind) {
            law_yields_are_those_of_the_scope(
                node.children@,
                0,
                Some(node),
                node.kind is ExprStmt,
            );
        }
        lemma_gathered_one(own[0], pick);
        lemma_gathered_join(own, below, pick);
        lemma_gathered_join(own + below, rest, pick);
        assert(gathered(Seq::<Visit>::empty(), pick) =~= Seq::<YieldSite>::empty());
        let first = inferred_return::yields_of(node, direct);
        let later = inferred_return::all_yields(body, from + 1, direct);
        assert(first.sites =~= gathered(own, pick) + gathered(below, pick));
        assert(found == first.then_also(later));
        assert(all == own + below + rest);
        // where the marks come from
        assert(first.consumed <==> used_yield(own[0], direct) || exists|i: int|
            0 <= i < below.len() && used_yield(#[trigger] below[i], node.kind is ExprStmt)) by {
            assert(enters(node.kind) ==> first == inferred_return::own_yield(
                node,
                direct,
            ).then_also(inner));
        }
        assert forall|i: int| 0 <= i < below.len() implies used_yield(
            #[trigger] below[i],
            node.kind is ExprStmt,
        ) == used_yield(below[i], direct) by {
            lemma_visits_have_parents(node.children@, 0, Some(node), enters, i);
        }
        assert(first.delegates <==> node.kind is YieldFrom || exists|i: int|
            0 <= i < below.len() && (#[trigger] below[i]).node.kind is YieldFrom) by {
            assert(enters(node.kind) ==> first == inferred_return::own_yield(
                node,
                direct,
            ).then_also(inner));
        }
        lemma_exists_in_parts(own, below, rest, |v: Visit| used_yield(v, direct));
        lemma_exists_in_parts(own, below, rest, |v: Visit| v.node.kind is YieldFrom);
        let used = |v: Visit| used_yield(v, direct);
        let delegates = |v: Visit| v.node.kind is YieldFrom;
        assert(some_item(all, used) <==> used(own[0]) || some_item(below, used) || some_item(
            rest,
            used,
        ));
        assert(some_item(all, delegates) <==> delegates(own[0]) || some_item(below, delegates)
            || some_item(rest, delegates));
        assert(some_item(below, used) <==> exists|i: int|
            0 <= i < below.len() && used_yield(#[trigger] below[i], node.kind is ExprStmt)) by {
            if some_item(below, used) {
                let i = choose|i: int| 0 <= i < below.len() && used(#[trigger] below[i]);
                assert(used_yield(below[i], node.kind is ExprStmt));
            }
            if exists|i: int|
                0 <= i < below.len() && used_yield(#[trigger] below[i], node.kind is ExprStmt) {
                let i = choose|i: int|
                    0 <= i < below.len() && used_yield(#[trigger] below[i], node.kind is ExprStmt);
                assert(used(below[i]));
            }
        }
        lemma_some_item_used(all, direct);
        lemma_some_item_used(rest, direct);
        lemma_some_item_delegates(all);
        lemma_some_item_delegates(rest);
        lemma_some_item_delegates(below);
    } else {
        assert(gathered(Seq::<Visit>::empty(), pick) =~= Seq::<YieldSite>::empty());
    }
}

/// Some item has a property.
pub open spec fn some_item<A>(items: Seq<A>, has: spec_fn(A) -> bool) -> bool {
    exists|i: int| 0 <= i < items.len() && has(#[trigger] items[i])
}

proof fn lemma_some_item_used(items: Seq<Visit>, direct: bool)
    ensures
        some_item(items, |v: Visit| used_yield(v, direct)) <==> exists|i: int|
            0 <= i < items.len() && used_yield(#[trigger] items[i], direct),
{
    let used = |v: Visit| used_yield(v, direct);
    if exists|i: int| 0 <= i < items.len() && used_yield(#[trigger] items[i], direct) {
        let i = choose|i: int| 0 <= i < items.len() && used_yield(#[trigger] items[i], direct);
        assert(used(items[i]));
    }
}

proof fn lemma_some_item_delegates(items: Seq<Visit>)
    ensures
        some_item(items, |v: Visit| v.node.kind is YieldFrom) <==> exists|i: int|
            0 <= i < items.len() && (#[trigger] items[i]).node.kind is YieldFrom,
{
    let delegates = |v: Visit| v.node.kind is YieldFrom;
    if exists|i: int| 0 <= i < items.len() && (#[trigger] items[i]).node.kind is YieldFrom {
        let i = choose|i: int|
            0 <= i < items.len() && (#[trigger] items[i]).node.kind is YieldFrom;
        assert(delegates(items[i]));
    }
}

proof fn lemma_exists_in_parts<A>(
    own: Seq<A>,
    below: Seq<A>,
    rest: Seq<A>,
    has: spec_fn(A) -> bool,
)
    requires
        own.len() == 1,
    ensures
        some_item(own + below + rest, has) <==> has(own[0]) || some_item(below, has) || some_item(
            rest,
            has,
        ),
{
    let all = own + below + rest;
    if some_item(all, has) {
        let i = choose|i: int| 0 <= i < all.len() && has(#[trigger] all[i]);
        if i == 0 {
        } else if i < 1 + below.len() {
            assert(below[i - 1] == all[i]);
        } else {
            assert(rest[i - 1 - below.len()] == all[i]);
        }
    }
    if has(own[0]) {
        assert(has(all[0]));
    }
    if some_item(below, has) {
        let i = choose|i: int| 0 <= i < below.len() && has(#[trigger] below[i]);
        assert(all[i + 1] == below[i]);
    }
    if some_item(rest, has) {
        let i = choose|i: int| 0 <= i < rest.len() && has(#[trigger] rest[i]);
        assert(all[i + 1 + below.len()] == rest[i]);
    }
}

/// Below a node every visit has a node above it.
proof fn lemma_visits_have_parents(
    nodes: Seq<Node>,
    from: int,
    above: Option<Node>,
    enters: spec_fn(NodeKind) -> bool,
    at: int,
)
    requires
        0 <= from,
        above is Some,
        0 <= at < visits(nodes, from, above, enters).len(),
    ensures
        visits(nodes, from, above, enters)[at].above is Some,
    decreases nodes, nodes.len() - from,
{
    if from < nodes.len() {
        let node = nodes[from];
        let below = if enters(node.kind) {
            visits(node.children@, 0, Some(node), enters)
        } else {
            Seq::empty()
        };
        if at == 0 {
        } else if at < 1 + below.len() {
            lemma_visits_have_parents(node.children@, 0, Some(node), enters, at - 1);
        } else {
            lemma_visits_have_parents(nodes, from + 1, above, enters, at - 1 - below.len());
        }
    }
}

// -- calls ------------------------------------------------------------------------------

/// The nodes from `from` on and all nodes below them, a node after what is below it.
pub open spec fn unwound(nodes: Seq<Node>, from: int) -> Seq<Node>
    decreases nodes, nodes.len() - from,
    when 0 <= from
{
    if from >= nodes.len() {
        Seq::empty()
    } else {
        unwound(nodes[from].children@, 0).push(nodes[from]) + unwound(nodes, from + 1)
    }
}

/// The calls of a file are all call nodes of its tree, at any depth and inside functions
/// and classes too, each as often as it stands there, inner calls before outer ones.
pub proof fn law_calls_are_all_call_nodes(nodes: Seq<Node>, from: int)
    requires
        0 <= from,
    ensures
        edges::all_calls(nodes, from) == gathered(
            unwound(nodes, from),
            |node: Node|
                if node.kind is Call {
                    Some(node)
                } else {
                    None
                },
        ),
    decreases nodes, nodes.len() - from,
{
    let pick = |node: Node|
        if node.kind is Call {
            Some(node)
        } else {
            None
        };
    if from < nodes.len() {
        let node = nodes[from];
        let inner = unwound(node.children@, 0);
        law_calls_are_all_call_nodes(node.children@, 0);
        law_calls_are_all_call_nodes(nodes, from + 1);
        assert(inner.push(node).drop_last() =~= inner);
        lemma_gathered_join(inner.push(node), unwound(nodes, from + 1), pick);
        assert(edges::calls_in(node) =~= gathered(inner.push(node), pick));
    } else {
        assert(gathered(Seq::<Node>::empty(), pick) =~= Seq::<Node>::empty());
    }
}

/// Every node that a path leads to is among the unwound ones.
pub proof fn law_unwound_holds_every_node(nodes: Seq<Node>, path: Seq<int>)
    requires
        node_at(nodes, path) is Some,
    ensures
        unwound(nodes, 0).contains(node_at(nodes, path)->Some_0),
    decreases path.len(),
{
    let first = path[0];
    let node = node_at(nodes, path)->Some_0;
    if path.len() > 1 {
        law_unwound_holds_every_node(nodes[first].children@, path.skip(1));
    }
    lemma_unwound_holds(nodes, 0, first, node);
}

proof fn lemma_unwound_holds(nodes: Seq<Node>, from: int, at: int, node: Node)
    requires
        0 <= from <= at < nodes.len(),
        node == nodes[at] || unwound(nodes[at].children@, 0).contains(node),
    ensures
        unwound(nodes, from).contains(node),
    decreases at - from,
{
    let inner = unwound(nodes[from].children@, 0);
    let rest = unwound(nodes, from + 1);
    let all = unwound(nodes, from);
    assert(all == inner.push(nodes[from]) + rest);
    if from == at {
        if node == nodes[at] {
            assert(all[inner.len() as int] == node);
        } else {
            assert(all[inner.index_of(node)] == node);
        }
    } else {
        lemma_unwound_holds(nodes, from + 1, at, node);
        assert(all[inner.len() + 1 + rest.index_of(node)] == node);
    }
}

/// No call is lost: each call node that a path leads to is among the calls of the file.
pub proof fn law_no_call_is_lost(body: Seq<Node>, path: Seq<int>)
    requires
        node_at(body, path) matches Some(node) && node.kind is Call,
    ensures
        edges::all_calls(body, 0).contains(node_at(body, path)->Some_0),
{
    let pick = |node: Node|
        if node.kind is Call {
            Some(node)
        } else {
            None
        };
    let node = node_at(body, path)->Some_0;
    let all = unwound(body, 0);
    law_unwound_holds_every_node(body, path);
    law_calls_are_all_call_nodes(body, 0);
    lemma_gathered_all(all, pick);
    let k = all.index_of(node);
    assert(all[k] == node);
    assert(pick(all[k]) == Some(node));
}

} // verus!
