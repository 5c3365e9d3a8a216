//! What holds of the library as a whole.

use vstd::prelude::*;

use crate::args;
use crate::batch;
use crate::callee;
use crate::callee::{CalleeDefinition, ReceiverClass};
use crate::checker;
use crate::checker::{FindingView, Lint, RuleSelection};
use crate::diagnostics;
use crate::diagnostics::{Diagnostic, EntrySeverity};
use crate::edges;
use crate::inferred_return;
use crate::inferred_return::StopView;
use crate::reveals;
use crate::session;
use crate::session::{Event, RunView, Stage};
use crate::span;
use crate::syntax::{CmpOp, Node, NodeKind, TextRange};
use crate::text;
use crate::types;
use crate::types::{
    ClassId, FileId, FunctionId, KnownClass, LiteralKind, Overload, QueryView, TypeId, TypeKind,
    TypeStore, TypeVarBound,
};
use crate::unnecessary;

verus! {

// -- comparability ----------------------------------------------------------------------

/// `Any` and `Unknown` are comparable to everything, on either side.
pub proof fn law_dynamic_is_comparable(
    store: &TypeStore,
    left: TypeId,
    right: TypeId,
    is_operator: bool,
    strict: bool,
)
    requires
        store.wf(),
        unnecessary::dynamic(store, left) || unnecessary::dynamic(store, right),
    ensures
        unnecessary::comparable(store, left, right, is_operator, strict),
    decreases left.0 + right.0,
{
    types::lemma_parts_before(store, left);
    types::lemma_parts_before(store, right);
    match (store.kind_of(left), store.kind_of(right)) {
        (TypeKind::EnumComplement(inner), _) => {
            law_dynamic_is_comparable(store, inner, right, is_operator, true);
        },
        (_, TypeKind::EnumComplement(inner)) => {
            law_dynamic_is_comparable(store, left, inner, is_operator, true);
        },
        (TypeKind::Intersection(positive), _) => {
            if exists|i: int|
                0 <= i < positive@.len() && !unnecessary::dynamic(store, #[trigger] positive@[i]) {
                let i = choose|i: int|
                    0 <= i < positive@.len() && !unnecessary::dynamic(
                        store,
                        #[trigger] positive@[i],
                    );
                law_dynamic_is_comparable(store, positive@[i], right, is_operator, true);
            }
        },
        (_, TypeKind::Intersection(positive)) => {
            if exists|i: int|
                0 <= i < positive@.len() && !unnecessary::dynamic(store, #[trigger] positive@[i]) {
                let i = choose|i: int|
                    0 <= i < positive@.len() && !unnecessary::dynamic(
                        store,
                        #[trigger] positive@[i],
                    );
                law_dynamic_is_comparable(store, left, positive@[i], is_operator, true);
            }
        },
        _ => {},
    }
}

/// A type of which a narrowing left no concrete positive part.
pub open spec fn narrowed_dynamic(store: &TypeStore, ty: TypeId) -> bool {
    store.kind_of(ty) matches TypeKind::Intersection(positive) && forall|i: int|
        0 <= i < positive@.len() ==> unnecessary::dynamic(store, #[trigger] positive@[i])
}

/// A narrowed `Unknown` stays comparable to everything.
pub proof fn law_narrowed_unknown_is_comparable(
    store: &TypeStore,
    left: TypeId,
    right: TypeId,
    is_operator: bool,
    strict: bool,
)
    requires
        store.wf(),
        narrowed_dynamic(store, left) || narrowed_dynamic(store, right),
    ensures
        unnecessary::comparable(store, left, right, is_operator, strict),
    decreases left.0 + right.0,
{
    types::lemma_parts_before(store, left);
    types::lemma_parts_before(store, right);
    match (store.kind_of(left), store.kind_of(right)) {
        (TypeKind::EnumComplement(inner), _) => {
            law_narrowed_unknown_is_comparable(store, inner, right, is_operator, true);
        },
        (_, TypeKind::EnumComplement(inner)) => {
            law_narrowed_unknown_is_comparable(store, left, inner, is_operator, true);
        },
        (TypeKind::Intersection(positive), _) => {
            if exists|i: int|
                0 <= i < positive@.len() && !unnecessary::dynamic(store, #[trigger] positive@[i]) {
                let i = choose|i: int|
                    0 <= i < positive@.len() && !unnecessary::dynamic(
                        store,
                        #[trigger] positive@[i],
                    );
                law_narrowed_unknown_is_comparable(store, positive@[i], right, is_operator, true);
            }
        },
        _ => {},
    }
}

/// Numbers of different rank (int, float, complex) are comparable to one another, in either
/// order and as literals too, unless a narrowing left one of them and the other is a literal.
pub proof fn law_numbers_are_promoted(
    store: &TypeStore,
    left: TypeId,
    right: TypeId,
    is_operator: bool,
    strict: bool,
)
    requires
        store.wf(),
        unnecessary::instance_class(store, left) matches Some(a)
            && unnecessary::instance_class(store, right) matches Some(b)
            && unnecessary::promoted(store, a, b),
        !(strict && (unnecessary::literal(store, left) || unnecessary::literal(store, right))),
    ensures
        unnecessary::comparable(store, left, right, is_operator, strict),
        unnecessary::comparable(store, right, left, is_operator, strict),
{
    let a = unnecessary::instance_class(store, left)->0;
    let b = unnecessary::instance_class(store, right)->0;
    assert(store.numeric(a) && store.numeric(b));
    assert(store.known_of(a) != KnownClass::Type && store.known_of(b) != KnownClass::Type);
}

/// Values of unrelated classes that are not of the standard library are comparable only
/// through an `__eq__` of the left one's class, which a dataclass does not synthesize.
pub proof fn law_unrelated_instances_need_eq(
    store: &TypeStore,
    left: TypeId,
    right: TypeId,
    strict: bool,
)
    requires
        store.wf(),
        store.kind_of(left) is NominalInstance,
        store.kind_of(right) is NominalInstance,
        unnecessary::class_object(store, left) is None,
        !unnecessary::assignable_either_way(store, left, right),
        !unnecessary::promoted(
            store,
            unnecessary::nominal_class(store, left)->0,
            unnecessary::nominal_class(store, right)->0,
        ),
        !unnecessary::stdlib_class(store, unnecessary::nominal_class(store, left)->0),
    ensures
        unnecessary::comparable(store, left, right, false, strict)
            == unnecessary::custom_eq(
            store,
            left,
            unnecessary::nominal_class(store, left)->0,
        ),
{
}

/// A class is the standard library's `bool` or `int`, which `bool` inherits from.
pub open spec fn builtin_int(store: &TypeStore, class: ClassId, known: KnownClass) -> bool {
    &&& store.known_of(class) == known
    &&& store.inherits(class, KnownClass::Int)
    &&& unnecessary::stdlib_class(store, class)
}

/// A `bool` may equal the int literals 0 and 1 only, `True` only 1 and `False` only 0:
/// under either kind of operator and in either order. (Types that the type checker takes to
/// be assignable to one another are comparable in any case; these are not.)
pub proof fn law_bool_equals_zero_and_one(
    store: &TypeStore,
    flag: TypeId,
    number: TypeId,
    value: i64,
    is_operator: bool,
    strict: bool,
)
    requires
        store.wf(),
        store.kind_of(flag) is NominalInstance || unnecessary::bool_literal(store, flag) is Some,
        unnecessary::instance_class(store, flag) matches Some(class) && builtin_int(
            store,
            class,
            KnownClass::Bool,
        ),
        store.kind_of(number) matches TypeKind::LiteralValue { value: LiteralKind::Int(n), .. }
            && n == value,
        unnecessary::instance_class(store, number) matches Some(class) && builtin_int(
            store,
            class,
            KnownClass::Int,
        ),
    ensures
        ({
            let equal = match unnecessary::bool_literal(store, flag) {
                None => value == 0 || value == 1,
                Some(true) => value == 1,
                Some(false) => value == 0,
            };
            let expected = equal || unnecessary::assignable_either_way(store, flag, number);
            &&& unnecessary::comparable(store, flag, number, is_operator, strict) == expected
            &&& unnecessary::comparable(store, number, flag, is_operator, strict) == expected
        }),
{
}

/// A number that a narrowing left does not equal an int literal of another rank: `float`
/// from an `isinstance` check is the strict class.
pub proof fn law_narrowed_numbers_are_strict(
    store: &TypeStore,
    narrowed: TypeId,
    number: TypeId,
    literal: TypeId,
    value: i64,
    fallback: TypeId,
)
    requires
        store.wf(),
        store.kind_of(narrowed) matches TypeKind::Intersection(positive) && (exists|i: int|
            0 <= i < positive@.len() && #[trigger] positive@[i] == number) && forall|i: int|
            0 <= i < positive@.len() ==> #[trigger] positive@[i] == number
                || unnecessary::dynamic(store, positive@[i]),
        store.kind_of(number) is NominalInstance,
        store.known_of(unnecessary::nominal_class(store, number)->0) == KnownClass::Float,
        unnecessary::stdlib_class(store, unnecessary::nominal_class(store, number)->0),
        store.kind_of(literal) == (TypeKind::LiteralValue {
            value: LiteralKind::Int(value),
            fallback: Some(fallback),
        }),
        store.kind_of(fallback) is NominalInstance,
        store.known_of(unnecessary::nominal_class(store, fallback)->0) == KnownClass::Int,
        unnecessary::stdlib_class(store, unnecessary::nominal_class(store, fallback)->0),
        !unnecessary::assignable_either_way(store, number, literal),
    ensures
        !unnecessary::comparable(store, narrowed, literal, false, false),
{
    assert(!unnecessary::comparable(store, number, literal, false, true));
}

/// `Never` overlaps with everything: a comparison that cannot be reached is not reported.
pub proof fn law_never_overlaps(
    store: &TypeStore,
    left: TypeId,
    right: TypeId,
    is_operator: bool,
    static_test: bool,
)
    requires
        unnecessary::never(store, left) || unnecessary::never(store, right),
    ensures
        unnecessary::overlapping(store, left, right, is_operator),
        !checker::no_overlap(store, left, right, is_operator, static_test),
{
    if unnecessary::never(store, left) {
        assert(!unnecessary::literal(store, unnecessary::elements_of(store, left)[0]));
    } else {
        assert(!unnecessary::literal(store, unnecessary::elements_of(store, right)[0]));
    }
}

// -- the pass ---------------------------------------------------------------------------

/// Without an enabled rule nothing is asked and nothing is found.
pub proof fn law_no_rule_no_finding(store: &TypeStore, body: Seq<Node>)
    ensures
        checker::module_findings(
            store,
            RuleSelection { isinstance: false, comparison: false, contains: false },
            body,
        ) == Ok::<Seq<FindingView>, QueryView>(Seq::empty()),
{
}

/// Whether every finding belongs to an enabled rule.
pub open spec fn only_enabled(
    selection: RuleSelection,
    findings: Result<Seq<FindingView>, QueryView>,
) -> bool {
    findings matches Ok(found) ==> forall|i: int|
        0 <= i < found.len() ==> selection.has((#[trigger] found[i]).lint)
}

proof fn lemma_enabled_conditions(
    store: &TypeStore,
    selection: RuleSelection,
    tests: Seq<Node>,
    from: int,
)
    requires
        0 <= from,
    ensures
        only_enabled(
            selection,
            Ok(checker::conditions_findings(store, selection, tests, from)),
        ),
    decreases tests, tests.len() - from,
{
    if from < tests.len() {
        lemma_enabled_condition(store, selection, tests[from]);
        lemma_enabled_conditions(store, selection, tests, from + 1);
    }
}

proof fn lemma_enabled_condition(store: &TypeStore, selection: RuleSelection, test: Node)
    ensures
        only_enabled(selection, Ok(checker::condition_findings(store, selection, test))),
    decreases test, 0nat,
{
    if test.kind is BoolOp || test.kind is Not {
        lemma_enabled_conditions(store, selection, test.children@, 0);
    }
}

proof fn lemma_enabled_compare(
    store: &TypeStore,
    selection: RuleSelection,
    ops: Seq<CmpOp>,
    operands: Seq<Node>,
    from: int,
)
    requires
        0 <= from,
    ensures
        only_enabled(
            selection,
            checker::compare_findings(store, selection, ops, operands, from),
        ),
    decreases ops.len() - from,
{
    if from < ops.len() && from + 1 < operands.len() {
        lemma_enabled_compare(store, selection, ops, operands, from + 1);
    }
}

proof fn lemma_enabled_node(
    store: &TypeStore,
    selection: RuleSelection,
    node: Node,
    in_assert: bool,
)
    ensures
        only_enabled(selection, checker::node_findings(store, selection, node, in_assert)),
    decreases node, 0nat,
{
    lemma_enabled_conditions(store, selection, checker::conditions(node), 0);
    if let NodeKind::Compare(ops) = node.kind {
        lemma_enabled_compare(store, selection, ops@, node.children@, 0);
    }
    lemma_enabled_nodes(
        store,
        selection,
        node.children@,
        0,
        in_assert || node.kind is Assert,
    );
}

proof fn lemma_enabled_nodes(
    store: &TypeStore,
    selection: RuleSelection,
    nodes: Seq<Node>,
    from: int,
    in_assert: bool,
)
    requires
        0 <= from,
    ensures
        only_enabled(
            selection,
            checker::nodes_findings(store, selection, nodes, from, in_assert),
        ),
    decreases nodes, nodes.len() - from,
{
    if from < nodes.len() {
        lemma_enabled_node(store, selection, nodes[from], in_assert);
        lemma_enabled_nodes(store, selection, nodes, from + 1, in_assert);
    }
}

/// A rule that is off reports nothing.
pub proof fn law_only_enabled_rules_report(
    store: &TypeStore,
    selection: RuleSelection,
    body: Seq<Node>,
)
    ensures
        only_enabled(selection, checker::module_findings(store, selection, body)),
{
    lemma_enabled_nodes(store, selection, body, 0, false);
}

/// Whether every finding is one on a condition: that it is always true.
pub open spec fn only_conditions(findings: Seq<FindingView>) -> bool {
    forall|i: int| 0 <= i < findings.len() ==> on_condition(#[trigger] findings[i])
}

/// Whether a finding is one on a condition.
pub open spec fn on_condition(finding: FindingView) -> bool {
    finding.lint == Lint::UnnecessaryComparison && (finding.message
        == "Conditional expression references function which always evaluates to True"@
        || finding.message
        == "Conditional expression references coroutine which always evaluates to True"@)
}

proof fn lemma_on_conditions(
    store: &TypeStore,
    selection: RuleSelection,
    tests: Seq<Node>,
    from: int,
)
    requires
        0 <= from,
    ensures
        only_conditions(checker::conditions_findings(store, selection, tests, from)),
    decreases tests, tests.len() - from,
{
    if from < tests.len() {
        lemma_on_condition(store, selection, tests[from]);
        lemma_on_conditions(store, selection, tests, from + 1);
    }
}

proof fn lemma_on_condition(store: &TypeStore, selection: RuleSelection, test: Node)
    ensures
        only_conditions(checker::condition_findings(store, selection, test)),
    decreases test, 0nat,
{
    if test.kind is BoolOp || test.kind is Not {
        lemma_on_conditions(store, selection, test.children@, 0);
    }
}

/// Comparisons, containment tests and class checks anywhere within an `assert` are not
/// looked at: no type is asked for, and only the conditions of ternaries and
/// comprehensions in it are reported.
pub proof fn law_assert_is_exempt(store: &TypeStore, selection: RuleSelection, node: Node)
    requires
        node.kind is Assert,
    ensures
        checker::node_findings(store, selection, node, false) matches Ok(findings)
            && only_conditions(findings),
{
    lemma_assert_nodes(store, selection, node.children@, 0);
    lemma_on_conditions(store, selection, checker::conditions(node), 0);
}

proof fn lemma_assert_node(store: &TypeStore, selection: RuleSelection, node: Node)
    ensures
        checker::node_findings(store, selection, node, true) matches Ok(findings)
            && only_conditions(findings),
    decreases node, 0nat,
{
    lemma_assert_nodes(store, selection, node.children@, 0);
    lemma_on_conditions(store, selection, checker::conditions(node), 0);
}

proof fn lemma_assert_nodes(
    store: &TypeStore,
    selection: RuleSelection,
    nodes: Seq<Node>,
    from: int,
)
    requires
        0 <= from,
    ensures
        checker::nodes_findings(store, selection, nodes, from, true) matches Ok(findings)
            && only_conditions(findings),
    decreases nodes, nodes.len() - from,
{
    if from < nodes.len() {
        lemma_assert_node(store, selection, nodes[from]);
        lemma_assert_nodes(store, selection, nodes, from + 1);
    }
}

/// Comparisons that involve a module are never reported.
pub proof fn law_modules_are_exempt(
    store: &TypeStore,
    left: Node,
    op: CmpOp,
    right: Node,
)
    requires
        left.ty matches Some(l) && right.ty matches Some(r) && (store.kind_of(l) is ModuleLiteral
            || store.kind_of(r) is ModuleLiteral),
    ensures
        checker::comparison_message(store, left, op, right) == Ok::<Option<Seq<char>>, QueryView>(
            None,
        ),
{
}

/// A comparison is reported exactly when its operand types have no overlap, and as what the
/// operator then gives.
pub proof fn law_comparisons_report_no_overlap(
    store: &TypeStore,
    left: Node,
    op: CmpOp,
    right: Node,
    a: TypeId,
    b: TypeId,
)
    requires
        left.ty matches Some(l) && !(store.kind_of(l) is ModuleLiteral)
            && unnecessary::operand_form(store, l) == Ok::<TypeId, QueryView>(a),
        right.ty matches Some(r) && !(store.kind_of(r) is ModuleLiteral)
            && unnecessary::operand_form(store, r) == Ok::<TypeId, QueryView>(b),
    ensures
        checker::comparison_message(store, left, op, right) matches Ok(message) && (message is Some
            <==> checker::no_overlap(
            store,
            a,
            b,
            op == CmpOp::Is || op == CmpOp::IsNot,
            checker::static_condition(left, right),
        )),
{
}

/// An operator and its negation: `==` and `!=`, `is` and `is not`.
pub open spec fn opposite(op: CmpOp, negated: CmpOp) -> bool {
    ||| op == CmpOp::Eq && negated == CmpOp::NotEq
    ||| op == CmpOp::Is && negated == CmpOp::IsNot
}

/// The two outcomes of a check differ only in the truth value that their messages name.
pub open spec fn opposite_outcomes(
    outcome: Result<Option<Seq<char>>, QueryView>,
    negated: Result<Option<Seq<char>>, QueryView>,
) -> bool {
    match (outcome, negated) {
        (Ok(Some(message)), Ok(Some(other))) => exists|left: Seq<char>, right: Seq<char>|
            message == #[trigger] checker::overlap_message("Condition"@, false, left, right)
                && other == checker::overlap_message("Condition"@, true, left, right),
        (Ok(None), Ok(None)) => true,
        (Err(query), Err(other)) => query == other,
        _ => false,
    }
}

/// A comparison and its negation are reported together or not at all: with the same rule
/// and at the same place, as always `False` the one and as always `True` the other, and
/// otherwise in the same words.
pub proof fn law_negated_comparisons_report_together(
    store: &TypeStore,
    selection: RuleSelection,
    left: Node,
    op: CmpOp,
    negated: CmpOp,
    right: Node,
)
    requires
        opposite(op, negated),
    ensures
        opposite_outcomes(
            checker::comparison_message(store, left, op, right),
            checker::comparison_message(store, left, negated, right),
        ),
        match (
            checker::pair_findings(store, selection, left, op, right),
            checker::pair_findings(store, selection, left, negated, right),
        ) {
            (Ok(found), Ok(others)) => {
                &&& found.len() == others.len() <= 1
                &&& forall|i: int|
                    0 <= i < found.len() ==> #[trigger] found[i].lint == others[i].lint
                        && found[i].range == others[i].range && opposite_outcomes(
                        Ok(Some(found[i].message)),
                        Ok(Some(others[i].message)),
                    )
            },
            (Err(query), Err(other)) => query == other,
            _ => false,
        },
{
    let message = checker::comparison_message(store, left, op, right);
    if let (Some(l), Some(r)) = (left.ty, right.ty) {
        if let (Ok(a), Ok(b)) = (
            unnecessary::operand_form(store, l),
            unnecessary::operand_form(store, r),
        ) {
            let shown = types::display_of(store, a);
            let other = types::display_of(store, b);
            assert(message matches Ok(Some(text)) ==> text == checker::overlap_message(
                "Condition"@,
                false,
                shown,
                other,
            ));
        }
    }
}

/// Comparisons of an operand that has no type are not reported.
pub proof fn law_untyped_operands_are_exempt(
    store: &TypeStore,
    left: Node,
    op: CmpOp,
    right: Node,
)
    requires
        left.ty is None || right.ty is None,
    ensures
        checker::comparison_message(store, left, op, right) == Ok::<Option<Seq<char>>, QueryView>(
            None,
        ),
{
}

/// Every type has a subtype.
proof fn lemma_expands(store: &TypeStore, ty: TypeId, depth: nat)
    requires
        store.wf(),
    ensures
        unnecessary::expanded(store, ty, depth).len() > 0,
    decreases unnecessary::MAX_EXPANSION + 1 - depth, 0nat,
{
    types::lemma_parts_before(store, ty);
    reveal_with_fuel(unnecessary::expanded, 2);
    reveal_with_fuel(unnecessary::expanded_all, 2);
    if depth <= unnecessary::MAX_EXPANSION {
        match store.kind_of(ty) {
            TypeKind::Union(elements) => lemma_expands(store, elements@.last(), depth + 1),
            TypeKind::TypeAlias(value) => lemma_expands(store, value, depth + 1),
            TypeKind::TypeVar(TypeVarBound::UpperBound(bound)) => {
                lemma_expands(store, bound, depth + 1)
            },
            TypeKind::TypeVar(TypeVarBound::Constraints(constraints)) => {
                lemma_expands(store, constraints@.last(), depth + 1)
            },
            _ => {},
        }
    }
}

/// Comparisons of an `Any` or `Unknown` operand are not reported.
pub proof fn law_dynamic_operands_are_exempt(
    store: &TypeStore,
    left: Node,
    op: CmpOp,
    right: Node,
)
    requires
        store.wf(),
        left.ty matches Some(l) && right.ty matches Some(r) && (unnecessary::dynamic(store, l)
            || unnecessary::dynamic(store, r)),
    ensures
        match checker::comparison_message(store, left, op, right) {
            Ok(message) => message is None,
            Err(query) => unnecessary::operand_form(store, left.ty->0) == Err::<TypeId, QueryView>(
                query,
            ) || unnecessary::operand_form(store, right.ty->0) == Err::<TypeId, QueryView>(query),
        },
{
    let l = left.ty->0;
    let r = right.ty->0;
    if let (Ok(a), Ok(b)) = (
        unnecessary::operand_form(store, l),
        unnecessary::operand_form(store, r),
    ) {
        let is_operator = op == CmpOp::Is || op == CmpOp::IsNot;
        let loose = if unnecessary::dynamic(store, l) {
            a
        } else {
            b
        };
        assert(unnecessary::dynamic(store, loose));
        assert(unnecessary::elements_of(store, loose)[0] == loose);
        assert(!unnecessary::literal_union(store, loose));
        assert(unnecessary::subtypes(store, loose) == seq![loose]);
        lemma_expands(store, a, 0);
        lemma_expands(store, b, 0);
        law_dynamic_is_comparable(
            store,
            unnecessary::subtypes(store, a)[0],
            unnecessary::subtypes(store, b)[0],
            is_operator,
            false,
        );
    }
}

/// A membership test is reported exactly when no part of the left type may be an element.
pub proof fn law_contains_reports_never_contained(
    store: &TypeStore,
    op: CmpOp,
    left: Node,
    right: Node,
    element: TypeId,
)
    requires
        left.ty matches Some(l) && !unnecessary::never(store, l),
        right.ty matches Some(r) && !unnecessary::never(store, r) && unnecessary::element_form(
            store,
            r,
        ) == Ok::<Option<TypeId>, QueryView>(Some(element)),
    ensures
        checker::contains_message(store, op, left, right) matches Ok(message) && (message is Some
            <==> checker::never_contained(store, left.ty->0, element)),
{
}

/// Only the specialized standard containers take part in membership tests.
pub proof fn law_other_containers_are_exempt(
    store: &TypeStore,
    op: CmpOp,
    left: Node,
    right: Node,
)
    requires
        right.ty matches Some(container) && match store.kind_of(container) {
            TypeKind::NominalInstance(instance) => match store.class_of(instance.class) {
                Some(class) => !unnecessary::container_name(class.name@) || !class.stdlib || (
                instance.tuple is None && instance.arguments is None),
                None => true,
            },
            _ => true,
        },
    ensures
        checker::contains_message(store, op, left, right) == Ok::<Option<Seq<char>>, QueryView>(
            None,
        ),
{
}

/// `not`, `and` and `or` are looked through: a condition is reported as its operands are.
pub proof fn law_conditions_are_looked_through(
    store: &TypeStore,
    selection: RuleSelection,
    test: Node,
)
    requires
        test.kind is Not || test.kind is BoolOp,
    ensures
        checker::condition_findings(store, selection, test) == checker::conditions_findings(
            store,
            selection,
            test.children@,
            0,
        ),
{
}

/// Only a call of the bare names with exactly two positional arguments is a class check.
pub proof fn law_only_bare_class_checks(store: &TypeStore, call: Node)
    requires
        !(call.kind is Call) || call.children@.len() != 3 || !(call.children@[0].kind is Name),
    ensures
        checker::isinstance_message(store, call) == Ok::<Option<Seq<char>>, QueryView>(None),
{
}

/// A class check is reported exactly when one of its narrowings is `Never`.
pub proof fn law_class_check_reports_never(store: &TypeStore, call: Node)
    requires
        checker::isinstance_message(store, call) is Ok,
        checker::class_check(call) matches Some(function) && call.children@[1].ty matches Some(
            subject,
        ) && call.children@[2].ty matches Some(classinfo) && checker::narrowed(
            store,
            function,
            subject,
            classinfo,
        ) matches Ok(Some(_)),
    ensures
        ({
            let narrowing = checker::narrowed(
                store,
                checker::class_check(call)->0,
                call.children@[1].ty->0,
                call.children@[2].ty->0,
            )->Ok_0->Some_0;
            checker::isinstance_message(store, call)->Ok_0 is Some <==> (unnecessary::never(
                store,
                narrowing.negative,
            ) || unnecessary::never(store, narrowing.positive))
        }),
{
}

// -- inferred returns -------------------------------------------------------------------

/// Nested functions and classes keep their `return`s, and nested functions, classes and
/// lambdas their yields, to themselves.
pub proof fn law_nested_scopes_do_not_leak(node: Node, direct: bool)
    ensures
        node.kind is FunctionDef || node.kind is ClassDef ==> inferred_return::returns_of(
            node,
        ).len() == 0,
        node.kind is FunctionDef || node.kind is ClassDef || node.kind is Lambda
            ==> inferred_return::yields_of(node, direct) == inferred_return::Yields::none(),
{
}

/// Overloaded and annotated functions, and coroutines, are revealed as they are.
pub proof fn law_annotated_functions_are_untouched(store: &TypeStore, ty: TypeId)
    requires
        inferred_return::source_function(store, inferred_return::revealed_subject(store, ty))
            matches Some(id) && store.function_of(id) matches Some(function) && (
        function.overloaded || function.annotated || (function.is_async
            && !function.is_generator)),
    ensures
        inferred_return::revealed(store, ty) == Ok::<TypeId, QueryView>(ty),
{
}

/// Anything but a function is revealed as it is.
pub proof fn law_other_types_are_untouched(store: &TypeStore, ty: TypeId)
    requires
        !(store.kind_of(ty) is FunctionLiteral),
        !(store.kind_of(ty) is BoundMethod),
        !(store.kind_of(ty) is Callable),
        !(store.kind_of(ty) is Property),
    ensures
        inferred_return::revealed(store, ty) == Ok::<TypeId, QueryView>(ty),
{
}

/// The callable that `ty` is revealed as, where it is not revealed as it is: the function
/// behind it, its one signature and its inferred return.
pub open spec fn revealed_callable(store: &TypeStore, ty: TypeId) -> Option<QueryView> {
    let subject = inferred_return::revealed_subject(store, ty);
    match inferred_return::source_function(store, subject) {
        None => None,
        Some(function) => match (
            inferred_return::inferred(store, function, seq![function]),
            inferred_return::sole_signature(store, subject),
        ) {
            (Ok(result), Some(signature)) => Some(
                QueryView::Callable { source: function, signature, result },
            ),
            _ => None,
        },
    }
}

/// A type is revealed as it is, or as the callable that has its one signature with only
/// the return replaced: by the inferred one.
pub proof fn law_reveals_replace_the_return(store: &TypeStore, ty: TypeId)
    requires
        store.answers_fit(),
    ensures
        match revealed_callable(store, ty) {
            Some(QueryView::Callable { source, signature, result }) => {
                &&& inferred_return::revealed(store, ty) == store.built(
                    QueryView::Callable { source, signature, result },
                )
                &&& inferred_return::revealed(store, ty) matches Ok(form) ==> store.kind_of(
                    form,
                ) matches TypeKind::Callable { overloads, .. } && overloads@ == seq![
                    Overload { signature, result },
                ]
            },
            _ => inferred_return::revealed(store, ty) matches Ok(form) ==> form == ty,
        },
{
    if let Some(query) = revealed_callable(store, ty) {
        if let Ok(form) = inferred_return::revealed(store, ty) {
            lemma_answers_fit(store, query, form);
        }
    }
}

proof fn lemma_answers_fit(store: &TypeStore, query: QueryView, form: TypeId)
    requires
        store.answers_fit(),
        store.built(query) == Ok::<TypeId, QueryView>(form),
    ensures
        store.fits(query, Some(form)),
{
    lemma_first_answer_fits(store, query, 0);
}

proof fn lemma_first_answer_fits(store: &TypeStore, query: QueryView, from: int)
    requires
        store.answers_fit(),
        0 <= from,
    ensures
        types::first_answer(store.answers@, query, from) matches Some(answer) ==> store.fits(
            query,
            answer,
        ),
    decreases store.answers@.len() - from,
{
    if from < store.answers@.len() {
        assert(store.fits(store.answers@[from].0@, store.answers@[from].1));
        lemma_first_answer_fits(store, query, from + 1);
    }
}

/// Revealing twice is revealing once: the revealed form of a revealed form is that form,
/// and so its display is the same.
pub proof fn law_revealing_twice_changes_nothing(store: &TypeStore, ty: TypeId, form: TypeId)
    requires
        store.answers_fit(),
        inferred_return::revealed(store, ty) == Ok::<TypeId, QueryView>(form),
    ensures
        inferred_return::revealed(store, form) == Ok::<TypeId, QueryView>(form),
        inferred_return::revealed_text(store, form) == inferred_return::revealed_text(store, ty),
        inferred_return::revealed_text(store, ty) == Ok::<Seq<char>, QueryView>(
            types::long_display_of(store, form),
        ),
{
    if let Some(query) = revealed_callable(store, ty) {
        lemma_answers_fit(store, query, form);
    }
}

/// A plain function returns the union of what its `return`s contribute, and `None` besides
/// where control may fall off its end.
pub proof fn law_falling_off_returns_none(
    store: &TypeStore,
    id: FunctionId,
    visiting: Seq<FunctionId>,
    parts: Seq<TypeId>,
)
    requires
        store.function_of(id) matches Some(function) && !function.overloaded && !function.annotated
            && !function.is_async && !function.is_generator && types::all_ok(
            inferred_return::return_types(
                store,
                inferred_return::all_returns(function.body@, 0),
                visiting,
            ),
        ) == Ok::<Seq<TypeId>, StopView>(parts),
    ensures
        inferred_return::inferred(store, id, visiting) == inferred_return::construction(
            store,
            QueryView::Union(
                if store.function_of(id)->0.end_reachable {
                    parts.push(store.none)
                } else {
                    parts
                },
            ),
        ),
{
}

/// A function that is under inference already is not inferred again: a chain of returned
/// calls that leads back to it contributes what the call itself was inferred to be.
pub proof fn law_chains_do_not_cycle(
    store: &TypeStore,
    own: TypeId,
    callee: TypeId,
    visiting: Seq<FunctionId>,
)
    requires
        inferred_return::denoted_function(store, callee) matches Some(function)
            && visiting.contains(function),
    ensures
        inferred_return::return_type(
            store,
            inferred_return::ReturnSite::Value { ty: Some(own), callee: Some(callee) },
            visiting,
        ) == Ok::<TypeId, StopView>(own),
{
    reveal_with_fuel(inferred_return::return_type, 2);
    reveal_with_fuel(inferred_return::chained_return, 2);
}

/// A chain of returned calls is followed to a bounded depth.
pub proof fn law_chains_are_bounded(
    store: &TypeStore,
    own: TypeId,
    callee: Option<TypeId>,
    visiting: Seq<FunctionId>,
)
    requires
        visiting.len() >= inferred_return::MAX_CHAIN_DEPTH,
    ensures
        inferred_return::return_type(
            store,
            inferred_return::ReturnSite::Value { ty: Some(own), callee },
            visiting,
        ) == Ok::<TypeId, StopView>(own),
{
    reveal_with_fuel(inferred_return::return_type, 2);
    reveal_with_fuel(inferred_return::chained_return, 2);
}

/// The send type of a generator is `Any` while each `yield` is the value of an expression
/// statement. One that is used otherwise, or a `yield from`, makes it `Unknown`.
pub proof fn law_send_type(
    store: &TypeStore,
    id: FunctionId,
    visiting: Seq<FunctionId>,
    yielded: TypeId,
)
    requires
        store.function_of(id) matches Some(function) && function.is_generator
            && !function.overloaded && !function.annotated && inferred_return::yield_union(
            store,
            inferred_return::all_yields(function.body@, 0, false).sites,
        ) == Ok::<TypeId, StopView>(yielded),
    ensures
        ({
            let function = store.function_of(id)->0;
            let yields = inferred_return::all_yields(function.body@, 0, false);
            let send = if yields.consumed || yields.delegates {
                store.unknown
            } else {
                store.any
            };
            let result = inferred_return::return_union(store, function, visiting);
            inferred_return::inferred(store, id, visiting) == if function.is_async {
                inferred_return::construction(
                    store,
                    QueryView::AsyncGenerator { yields: yielded, send },
                )
            } else {
                match result {
                    Ok(result) => inferred_return::construction(
                        store,
                        QueryView::Generator { yields: yielded, send, result },
                    ),
                    Err(stop) => Err(stop),
                }
            }
        }),
{
}

/// A `yield` that is the value of an expression statement is not consumed; anywhere else
/// it is. What stands inside it counts by itself.
pub proof fn law_statement_yields_are_direct(node: Node, statement: Node)
    requires
        node.kind is Yield,
        statement.kind is ExprStmt,
        statement.children@ == seq![node],
    ensures
        inferred_return::yields_of(statement, false).consumed == inferred_return::all_yields(
            node.children@,
            0,
            false,
        ).consumed,
        inferred_return::yields_of(node, false).consumed,
{
    reveal_with_fuel(inferred_return::yields_of, 3);
    reveal_with_fuel(inferred_return::all_yields, 3);
}

// -- callees ----------------------------------------------------------------------------

/// A union of callables contributes all of its members or nothing: one member that is no
/// definition leaves the call without any.
pub proof fn law_union_is_all_or_nothing(store: &TypeStore, ty: TypeId, at: int)
    requires
        store.wf(),
        store.kind_of(ty) matches TypeKind::Union(elements) && 0 <= at < elements@.len()
            && callee::denoted(store, elements@[at]) is None,
    ensures
        callee::denoted(store, ty) is None,
{
    types::lemma_parts_before(store, ty);
    if let TypeKind::Union(elements) = store.kind_of(ty) {
        lemma_one_missing(store, elements@, ty.0 as int, at);
    }
}

proof fn lemma_one_missing(store: &TypeStore, elements: Seq<TypeId>, bound: int, at: int)
    requires
        store.wf(),
        0 <= bound,
        0 <= at < elements.len(),
        forall|i: int| 0 <= i < elements.len() ==> (#[trigger] elements[i]).0 < bound,
        callee::denoted(store, elements[at]) is None,
    ensures
        callee::all_denoted(store, elements, bound) is None,
    decreases elements.len(),
{
    if at < elements.len() - 1 {
        lemma_one_missing(store, elements.drop_last(), bound, at);
    }
}

/// No definition is both a target and external; a method of the library on a root class
/// is neither.
pub proof fn law_external_is_outside(root: Seq<FileId>, found: CalleeDefinition)
    ensures
        !(edges::is_target(root, found) && edges::is_external(root, found)),
        found.receiver matches ReceiverClass::Defined(file) && root.contains(file)
            ==> !edges::is_external(root, found),
        found.receiver is Opaque ==> !edges::is_external(root, found),
{
}

/// A call without a definition, or with one that is neither, has no edge.
pub proof fn law_no_empty_edge(
    root: Seq<FileId>,
    call: TextRange,
    found: Option<Seq<CalleeDefinition>>,
)
    ensures
        edges::edge_of(root, call, found) matches Some(edge) ==> edge.call == call
            && edge.targets.len() + edge.external.len() > 0,
{
}

/// The calls inside a call stand before it.
pub proof fn law_inner_calls_first(call: Node)
    requires
        call.kind is Call,
    ensures
        edges::calls_in(call) == edges::all_calls(call.children@, 0).push(call),
{
}

// -- spans ------------------------------------------------------------------------------

/// Whether a node is one of the nodes or below one of them.
pub open spec fn within(nodes: Seq<Node>, node: Node) -> bool
    decreases nodes,
{
    exists|i: int|
        0 <= i < nodes.len() && (#[trigger] nodes[i] == node || within(nodes[i].children@, node))
}

/// Only the expression at exactly the asked span answers: the answer is an expression of
/// the module, and its range is the asked one.
pub proof fn law_spans_are_exact(body: Seq<Node>, range: TextRange)
    ensures
        span::expression_at(body, range) matches Some(node) ==> node.range == range
            && span::is_expression(node.kind) && within(body, node),
{
    lemma_innermost_of(body, 0, range);
}

proof fn lemma_innermost(node: Node, range: TextRange)
    ensures
        span::innermost(node, range) matches Some(found) ==> span::is_expression(found.kind) && (
        found == node || within(node.children@, found)),
    decreases node, 0nat,
{
    lemma_innermost_of(node.children@, 0, range);
}

proof fn lemma_innermost_of(nodes: Seq<Node>, from: int, range: TextRange)
    requires
        0 <= from,
    ensures
        span::innermost_of(nodes, from, range) matches Some(found) ==> span::is_expression(
            found.kind,
        ) && within(nodes, found),
    decreases nodes, nodes.len() - from,
{
    if from < nodes.len() {
        if span::covers(nodes[from].range, range) {
            lemma_innermost(nodes[from], range);
            if let Some(found) = span::innermost(nodes[from], range) {
                assert(nodes[from] == found || within(nodes[from].children@, found));
            }
        } else {
            lemma_innermost_of(nodes, from + 1, range);
        }
    }
}

/// The place where a span starts is where it was asked for, as long as the span starts in
/// its own line.
pub proof fn law_places_undo_spans(
    lines: span::Lines,
    line: usize,
    col_start: usize,
    col_end: usize,
)
    requires
        forall|i: int, j: int|
            0 <= i < j < lines.starts@.len() ==> lines.starts@[i] < lines.starts@[j],
        span::range_at(lines, line, col_start, col_end) is Some,
        line < lines.starts@.len() ==> lines.starts@[line - 1] + col_start
            < lines.starts@[line as int],
    ensures
        ({
            let start = span::range_at(lines, line, col_start, col_end)->Some_0.start;
            span::place_at(lines, start) == Some(
                span::BytePlace { line, col: col_start as u32 },
            )
        }),
{
    let start = span::range_at(lines, line, col_start, col_end)->Some_0.start;
    lemma_lines_until(lines.starts@, start, line as int, 0);
}

proof fn lemma_lines_until(starts: Seq<u32>, offset: u32, count: int, from: int)
    requires
        0 <= from <= count <= starts.len(),
        forall|i: int, j: int| 0 <= i < j < starts.len() ==> starts[i] < starts[j],
        count > 0 ==> starts[count - 1] <= offset,
        count < starts.len() ==> offset < starts[count],
    ensures
        span::lines_until(starts, offset, from) == count - from,
    decreases count - from,
{
    if from < count {
        assert(starts[from] <= starts[count - 1]);
        lemma_lines_until(starts, offset, count, from + 1);
    }
}

/// A line that the file does not have is a miss.
pub proof fn law_lines_past_the_file_miss(
    lines: span::Lines,
    line: usize,
    col_start: usize,
    col_end: usize,
)
    requires
        line == 0 || line > lines.starts@.len(),
    ensures
        span::range_at(lines, line, col_start, col_end) is None,
{
}

// -- diagnostics ------------------------------------------------------------------------

/// Whether a rule is one of those that the consumer knows.
pub open spec fn known_rule(rule: Seq<char>) -> bool {
    ||| rule == "reportUnnecessaryIsInstance"@
    ||| rule == "reportUnnecessaryComparison"@
    ||| rule == "reportUnnecessaryContains"@
    ||| rule == "reportUnnecessaryCast"@
    ||| rule == "reportMissingImports"@
}

/// An entry is a warning under a known rule, an error under the identifier of a diagnostic
/// that is at least an error, or the information of a reveal, without a rule.
pub proof fn law_entries(diagnostic: Diagnostic, source: Seq<char>)
    ensures
        diagnostics::converted(diagnostic, source) matches Some(entry) ==> match entry.severity {
            EntrySeverity::Warning => entry.rule matches Some(rule) && known_rule(rule),
            EntrySeverity::Error => entry.rule == Some(diagnostic.id_text@)
                && diagnostics::at_least_error(diagnostic.severity) && diagnostics::rule_of(
                diagnostic.id,
            ) is None,
            EntrySeverity::Information => entry.rule is None && diagnostic.id is RevealedType,
        },
{
}

/// Every error is reported, whatever its kind, where it has a place in a file.
pub proof fn law_errors_pass(diagnostic: Diagnostic, source: Seq<char>)
    requires
        diagnostics::at_least_error(diagnostic.severity),
        !(diagnostic.id is RevealedType),
        diagnostics::place(diagnostic) is Some,
    ensures
        diagnostics::converted(diagnostic, source) is Some,
{
}

// -- the command line -------------------------------------------------------------------

/// A flag that is not known is ignored.
pub proof fn law_unknown_flags_are_ignored(line: Seq<String>, at: int, read: args::ArgsView)
    requires
        0 <= at < line.len(),
        text::occurs_at(line[at]@, "--"@, 0),
        args::value_flag(line[at]@) is None,
        line[at]@ != "--serve"@,
    ensures
        args::read_args(line, at, read) == args::read_args(line, at + 1, read),
{
}

/// A value that a flag is given replaces an earlier one.
pub proof fn law_later_values_win(
    read: args::ArgsView,
    flag: args::ValueFlag,
    earlier: Seq<char>,
    later: Seq<char>,
)
    ensures
        args::with_value(read, flag, earlier) matches Ok(first) ==> args::with_value(
            first,
            flag,
            later,
        ) == args::with_value(read, flag, later),
{
}

// -- runs -------------------------------------------------------------------------------

/// An answer is an error exactly where the file of its query does not exist; a request
/// outlives that.
pub proof fn law_missing_files_are_errors(run: RunView, at: int)
    requires
        0 <= at < run.request.queries@.len(),
    ensures
        session::answered(run, at).answer is Error <==> batch::file_at(run.query_files, at) is None,
        session::answered(run, at).id == run.request.queries@[at].id@,
{
}

proof fn lemma_decisive_answers(run: RunView, n: int)
    requires
        0 <= n <= run.request.queries@.len(),
    ensures
        forall|i: int|
            0 <= i < n && #[trigger] session::decisive(run, i)
                ==> session::decisive_answers(run, n).contains(session::answered(run, i)),
        forall|k: int|
            0 <= k < session::decisive_answers(run, n).len() ==> from_decisive(
                run,
                n,
                #[trigger] session::decisive_answers(run, n)[k],
            ),
        forall|j: int, k: int|
            0 <= j < k < session::decisive_answers(run, n).len() ==> session::decisive_answers(
                run,
                n,
            )[j].id != session::decisive_answers(run, n)[k].id,
    decreases n,
{
    if n > 0 {
        lemma_decisive_answers(run, n - 1);
        let before = session::decisive_answers(run, n - 1);
        let all = session::decisive_answers(run, n);
        assert forall|k: int| 0 <= k < before.len() implies from_decisive(
            run,
            n,
            #[trigger] before[k],
        ) by {
            assert(from_decisive(run, n - 1, before[k]));
        }
        if session::decisive(run, n - 1) {
            let own = session::answered(run, n - 1);
            assert(all == before.push(own));
            assert(all[before.len() as int] == own);
            assert forall|i: int| 0 <= i < n && #[trigger] session::decisive(run, i) implies
                all.contains(session::answered(run, i)) by {
                if i < n - 1 {
                    let k = before.index_of(session::answered(run, i));
                    assert(before.contains(session::answered(run, i)));
                    assert(all[k] == session::answered(run, i));
                }
            }
            assert forall|j: int| 0 <= j < before.len() implies #[trigger] before[j].id
                != own.id by {
                assert(from_decisive(run, n - 1, before[j]));
                let i = choose|i: int|
                    0 <= i < n - 1 && #[trigger] session::decisive(run, i) && before[j]
                        == session::answered(run, i);
                if before[j].id == own.id {
                    let queries = run.request.queries@;
                    assert(queries[i].id@ == queries[n - 1].id@);
                    assert(!session::gives_way(run, i, n - 1));
                    assert(!session::gives_way(run, n - 1, i));
                }
            }
        }
    }
}

/// `answer` is a decisive answer to one of the first `n` queries.
spec fn from_decisive(run: RunView, n: int, answer: session::AnsweredView) -> bool {
    exists|i: int|
        0 <= i < n && #[trigger] session::decisive(run, i) && answer == session::answered(run, i)
}

/// Among the answers of an id one is decisive.
proof fn lemma_some_answer_is_decisive(run: RunView, at: int, n: int) -> (best: int)
    requires
        0 <= at < run.request.queries@.len(),
        0 <= n <= run.request.queries@.len(),
    ensures
        0 <= best < run.request.queries@.len(),
        run.request.queries@[best].id@ == run.request.queries@[at].id@,
        !session::gives_way(run, best, at),
        forall|other: int|
            0 <= other < n && (#[trigger] run.request.queries@[other]).id@
                == run.request.queries@[at].id@ ==> !session::gives_way(run, best, other),
    decreases n,
{
    if n == 0 {
        at
    } else {
        let before = lemma_some_answer_is_decisive(run, at, n - 1);
        if run.request.queries@[n - 1].id@ == run.request.queries@[at].id@ && session::gives_way(
            run,
            before,
            n - 1,
        ) {
            n - 1
        } else {
            before
        }
    }
}

/// Every query is answered under its id, and no id twice.
pub proof fn law_each_id_is_answered_once(run: RunView, at: int)
    requires
        0 <= at < run.request.queries@.len(),
    ensures
        ({
            let answers = session::decisive_answers(run, run.request.queries@.len() as int);
            &&& exists|k: int|
                0 <= k < answers.len() && (#[trigger] answers[k]).id
                    == run.request.queries@[at].id@
            &&& forall|j: int, k: int|
                0 <= j < k < answers.len() ==> answers[j].id != answers[k].id
        }),
{
    let n = run.request.queries@.len() as int;
    let answers = session::decisive_answers(run, n);
    let best = lemma_some_answer_is_decisive(run, at, n);
    assert(session::decisive(run, best));
    lemma_decisive_answers(run, n);
    assert(answers.contains(session::answered(run, best)));
    let k = answers.index_of(session::answered(run, best));
    assert(answers[k].id == run.request.queries@[at].id@);
}

/// Where the ids differ, every query keeps its answer, in the order of the request.
pub proof fn law_distinct_ids_are_all_answered(run: RunView, n: int)
    requires
        0 <= n <= run.request.queries@.len(),
        forall|i: int, j: int|
            0 <= i < j < run.request.queries@.len() ==> (#[trigger] run.request.queries@[i]).id@
                != (#[trigger] run.request.queries@[j]).id@,
    ensures
        session::decisive_answers(run, n) == Seq::new(
            n as nat,
            |i: int| session::answered(run, i),
        ),
    decreases n,
{
    if n > 0 {
        law_distinct_ids_are_all_answered(run, n - 1);
        assert(session::decisive(run, n - 1)) by {
            let queries = run.request.queries@;
            assert forall|other: int|
                0 <= other < queries.len() && (#[trigger] queries[other]).id@ == queries[n
                    - 1].id@ implies !session::gives_way(run, n - 1, other) by {
                assert(other == n - 1);
            }
        }
    }
    assert(session::decisive_answers(run, n) =~= Seq::new(
        n as nat,
        |i: int| session::answered(run, i),
    ));
}

/// Of two answers with types under one id, the type at a span is kept over a revealed one.
pub proof fn law_spans_outweigh_expressions(run: RunView, expression: int, span: int)
    requires
        0 <= expression < run.request.queries@.len(),
        0 <= span < run.request.queries@.len(),
        run.request.queries@[expression].id@ == run.request.queries@[span].id@,
        run.request.queries@[expression].expr is Some,
        run.request.queries@[span].expr is None,
        session::answered(run, span).answer is Type,
    ensures
        !session::decisive(run, expression),
{
    assert(session::gives_way(run, expression, span));
}

/// Whether an event is the one that a run waits for.
pub open spec fn awaited(run: RunView, event: Event) -> bool {
    match run.stage {
        Stage::Files => event is Resolved,
        Stage::Sources => event is Sources,
        Stage::Base | Stage::World(_) => event is Checked,
        Stage::Span(_) => event is SpanType,
        Stage::Edges => event is Edges,
        Stage::Done => false,
    }
}

/// How many replies a run may still wait for.
pub open spec fn replies_left(run: RunView) -> int {
    let queries = run.request.queries@.len() as int;
    let worlds = run.request.worlds@.len() as int;
    match run.stage {
        Stage::Files => queries + worlds + 4,
        Stage::Sources => queries + worlds + 3,
        Stage::Base => queries + worlds + 2,
        Stage::Span(at) => queries - at + worlds + 1,
        Stage::World(at) => worlds - at + 1,
        Stage::Edges => 1,
        Stage::Done => 0,
    }
}

/// Every awaited reply takes a run nearer to its end, so it ends.
pub proof fn law_runs_end(run: RunView, event: Event)
    requires
        session::run_wf(run),
        awaited(run, event),
    ensures
        session::stepped(run, event) matches Ok(next) ==> 0 <= replies_left(next)
            < replies_left(run),
{
    session::law_run_stays_sound(run, event);
    let queries = run.request.queries@;
    let count: usize = run.request.queries.len();
    let worlds: usize = run.request.worlds.len();
    match run.stage {
        Stage::Base => {
            session::lemma_next_span(queries, run.query_files, 0);
        },
        Stage::Span(at) => {
            session::lemma_next_span(queries, run.query_files, at + 1);
        },
        _ => {},
    }
}

/// A run that is done stays so, with the same response.
pub proof fn law_done_is_final(run: RunView, event: Event)
    requires
        run.stage is Done,
    ensures
        session::stepped(run, event) == Ok::<RunView, batch::RequestErrorView>(run),
{
}

/// Every query that asks for a span in a file there is was put to the type checker, and no
/// other was: the queries that are skipped on the way to the next span ask for none.
pub proof fn law_spans_are_all_asked(run: RunView, at: int)
    requires
        run.spans.len() <= at < session::to_span(run).spans.len(),
        run.spans.len() <= run.request.queries@.len(),
    ensures
        !session::asks_span(run.request.queries@, run.query_files, at),
        session::to_span(run).spans[at] is None,
{
    let queries = run.request.queries@;
    session::lemma_next_span(queries, run.query_files, run.spans.len() as int);
}

/// Where the request asks for no call edges, none are collected or reported.
pub proof fn law_edges_only_on_request(run: RunView)
    requires
        session::run_wf(run),
        !run.request.call_edges,
    ensures
        !(run.stage is Edges),
        run.edges.len() == 0,
{
}

/// The reveal of each expression query stands where its answer is looked for: the text that
/// its file is given holds the call that reveals the expression on the line of its site.
/// (An expression with a line break of its own would move the lines after it.)
pub proof fn law_sites_reveal_their_expressions(
    queries: Seq<batch::BatchQuery>,
    files: Seq<Option<FileId>>,
    sources: Seq<String>,
    at: int,
) -> (before: Seq<char>)
    requires
        0 <= at < queries.len(),
        batch::expr_file(queries, files, at) is Some,
        forall|i: int, j: int|
            0 <= i < queries.len() && queries[i].expr is Some && 0 <= j
                < queries[i].expr->Some_0@.len() ==> #[trigger] queries[i].expr->Some_0@[j]
                != '\n',
    ensures
        ({
            let file = batch::expr_file(queries, files, at)->Some_0;
            let targets = batch::revealing_files(queries, files, queries.len() as int);
            let position = targets.index_of(file);
            let line = reveals::reveal_line(
                batch::source_at(sources, position),
                batch::exprs_in(queries, files, file, batch::turn_of(queries, at)).len() as int,
            );
            let overridden = batch::reveal_overrides(queries, files, sources)[position];
            let call = reveals::reveal_call(queries[at].expr->Some_0@);
            &&& 0 <= position < targets.len()
            &&& overridden.file == file
            &&& reveals::newlines(before) + 1 == line
            &&& before.len() + call.len() <= overridden.content.len()
            &&& overridden.content.take((before.len() + call.len()) as int) == before + call
            &&& batch::site_of(queries, files, sources, at) == Some(
                batch::Site { file, line: line as u64 },
            )
        }),
{
    let n = queries.len() as int;
    let file = batch::expr_file(queries, files, at)->Some_0;
    let targets = batch::revealing_files(queries, files, n);
    let turn = batch::turn_of(queries, at);
    batch::lemma_all_reveal(queries, files, at);
    let position = targets.index_of(file);
    let exprs = batch::exprs_in(queries, files, file, n);
    let index = batch::exprs_in(queries, files, file, turn).len() as int;
    lemma_exprs_prefix(queries, files, file, turn, n);
    lemma_exprs_prefix(queries, files, file, turn + 1, n);
    assert(exprs[index] == queries[at].expr->Some_0@) by {
        assert(exprs.take(index + 1)[index] == exprs[index]);
    }
    lemma_exprs_flat(queries, files, file, n);
    let source = batch::source_at(sources, position);
    reveals::law_reveal_lines(source, exprs, index);
    let before = reveals::with_reveals(source, exprs.take(index));
    lemma_reveals_prefix(source, exprs, index + 1);
    before
}

/// The expressions of the first turns stand before those of the later ones.
proof fn lemma_exprs_prefix(
    queries: Seq<batch::BatchQuery>,
    files: Seq<Option<FileId>>,
    file: FileId,
    m: int,
    n: int,
)
    requires
        m <= n,
    ensures
        batch::exprs_in(queries, files, file, m).len() <= batch::exprs_in(
            queries,
            files,
            file,
            n,
        ).len(),
        batch::exprs_in(queries, files, file, n).take(
            batch::exprs_in(queries, files, file, m).len() as int,
        ) == batch::exprs_in(queries, files, file, m),
    decreases n - m,
{
    let first = batch::exprs_in(queries, files, file, m);
    let all = batch::exprs_in(queries, files, file, n);
    if m < n {
        lemma_exprs_prefix(queries, files, file, m, n - 1);
        let most = batch::exprs_in(queries, files, file, n - 1);
        if n > 0 {
            assert(all.take(first.len() as int) =~= most.take(first.len() as int));
        }
    } else {
        assert(all.take(first.len() as int) =~= first);
    }
}

proof fn lemma_exprs_flat(
    queries: Seq<batch::BatchQuery>,
    files: Seq<Option<FileId>>,
    file: FileId,
    n: int,
)
    requires
        n <= queries.len(),
        forall|i: int, j: int|
            0 <= i < queries.len() && queries[i].expr is Some && 0 <= j
                < queries[i].expr->Some_0@.len() ==> #[trigger] queries[i].expr->Some_0@[j]
                != '\n',
    ensures
        ({
            let exprs = batch::exprs_in(queries, files, file, n);
            forall|i: int, j: int|
                0 <= i < exprs.len() && 0 <= j < exprs[i].len() ==> #[trigger] exprs[i][j] != '\n'
        }),
    decreases n,
{
    if n > 0 {
        lemma_exprs_flat(queries, files, file, n - 1);
        batch::law_reveals_go_by_file_name(queries, queries.len() as int);
        let last = batch::turn(queries, n - 1);
        let before = batch::exprs_in(queries, files, file, n - 1);
        let exprs = batch::exprs_in(queries, files, file, n);
        assert forall|i: int, j: int| 0 <= i < exprs.len() && 0 <= j < exprs[i].len() implies
            #[trigger] exprs[i][j] != '\n' by {
            if i < before.len() {
                assert(exprs[i] == before[i]);
                assert(before[i][j] != '\n');
            } else {
                assert(queries[last].expr->Some_0@[j] != '\n');
            }
        }
    }
}

/// The text with the first reveals starts the text with all of them.
proof fn lemma_reveals_prefix(base: Seq<char>, exprs: Seq<Seq<char>>, n: int)
    requires
        0 <= n <= exprs.len(),
    ensures
        ({
            let first = reveals::with_reveals(base, exprs.take(n));
            let all = reveals::with_reveals(base, exprs);
            first.len() <= all.len() && all.take(first.len() as int) == first
        }),
    decreases exprs.len() - n,
{
    let call = |expr: Seq<char>| reveals::reveal_call(expr);
    if n == exprs.len() {
        assert(exprs.take(n) =~= exprs);
        let all = reveals::with_reveals(base, exprs);
        assert(all.take(all.len() as int) =~= all);
    } else {
        lemma_reveals_prefix(base, exprs, n + 1);
        assert(exprs.take(n + 1).map_values(call) =~= exprs.take(n).map_values(call).push(
            reveals::reveal_call(exprs[n]),
        ));
        text::lemma_concat_push(
            exprs.take(n).map_values(call),
            reveals::reveal_call(exprs[n]),
        );
        let first = reveals::with_reveals(base, exprs.take(n));
        let more = reveals::with_reveals(base, exprs.take(n + 1));
        let all = reveals::with_reveals(base, exprs);
        assert(more =~= first + reveals::reveal_call(exprs[n]));
        assert(all.take(first.len() as int) =~= more.take(first.len() as int));
        assert(more.take(first.len() as int) =~= first);
    }
}

/// No two expression queries share a site, so none is answered with the type of another.
pub proof fn law_sites_are_distinct(
    queries: Seq<batch::BatchQuery>,
    files: Seq<Option<FileId>>,
    sources: Seq<String>,
    first: int,
    second: int,
)
    requires
        0 <= first < queries.len(),
        0 <= second < queries.len(),
        first != second,
        batch::expr_file(queries, files, first) is Some,
        batch::expr_file(queries, files, second) is Some,
        forall|file: FileId, at: int|
            0 <= #[trigger] reveals::reveal_line(
                batch::source_at(sources, at),
                batch::exprs_in(queries, files, file, queries.len() as int).len() as int,
            ) <= u64::MAX,
    ensures
        batch::site_of(queries, files, sources, first) != batch::site_of(
            queries,
            files,
            sources,
            second,
        ),
{
    let n = queries.len() as int;
    let file = batch::expr_file(queries, files, second)->Some_0;
    if batch::expr_file(queries, files, first) == Some(file) {
        batch::lemma_all_reveal(queries, files, first);
        batch::lemma_all_reveal(queries, files, second);
        let one = batch::turn_of(queries, first);
        let other = batch::turn_of(queries, second);
        let position = batch::revealing_files(queries, files, n).index_of(file);
        let base = batch::source_at(sources, position);
        let all = batch::exprs_in(queries, files, file, n).len() as int;
        assert(0 <= reveals::reveal_line(base, all) <= u64::MAX);
        lemma_exprs_prefix(queries, files, file, one + 1, n);
        lemma_exprs_prefix(queries, files, file, other + 1, n);
        if one < other {
            lemma_exprs_prefix(queries, files, file, one + 1, other);
        } else {
            lemma_exprs_prefix(queries, files, file, other + 1, one);
        }
    }
}

} // verus!
