//! What holds of the queries that checks stop at: none is asked twice, and an answer
//! changes nothing that was found without it.

use vstd::prelude::*;

use crate::callee;
use crate::checker;
use crate::checker::RuleSelection;
use crate::inferred_return;
use crate::inferred_return::StopView;
use crate::syntax::{CmpOp, Node, NodeKind};
use crate::types;
use crate::types::{
    ClassId, FileId, FunctionId, KnownClass, LiteralKind, QueryView, TypeId, TypeKind, TypeStore,
    TypeVarBound,
};
use crate::unnecessary;

verus! {

// -- recorded answers -------------------------------------------------------------------

/// Whether a store holds the same types, classes and functions as another, and all of its
/// answers.
pub open spec fn extends(later: &TypeStore, earlier: &TypeStore) -> bool {
    &&& later.types == earlier.types
    &&& later.classes == earlier.classes
    &&& later.functions == earlier.functions
    &&& later.object == earlier.object
    &&& later.unknown == earlier.unknown
    &&& later.any == earlier.any
    &&& later.none == earlier.none
    &&& later.strict_generic_narrowing == earlier.strict_generic_narrowing
    &&& forall|query: QueryView| #[trigger]
        earlier.answer_of(query) is Some ==> later.answer_of(query) == earlier.answer_of(query)
}

proof fn lemma_later_wf(earlier: &TypeStore, later: &TypeStore)
    requires
        earlier.wf(),
        extends(later, earlier),
    ensures
        later.wf(),
{
    types::lemma_same_classes(earlier, later);
    assert forall|class: ClassId| #[trigger]
        later.known_of(class) == KnownClass::Type implies !later.numeric(class) by {
        assert(earlier.known_of(class) == KnownClass::Type);
    }
}

/// Whether an outcome that was reached stays with more answers.
pub open spec fn stays<T>(
    earlier: Result<T, QueryView>,
    later: Result<T, QueryView>,
) -> bool {
    earlier is Ok ==> later == earlier
}

proof fn lemma_inherits_stays(
    earlier: &TypeStore,
    later: &TypeStore,
    class: ClassId,
    known: KnownClass,
)
    requires
        extends(later, earlier),
    ensures
        later.inherits(class, known) == earlier.inherits(class, known),
{
    types::lemma_same_classes(earlier, later);
    assert(earlier.inherits(class, known) == later.inherits(class, known));
}

proof fn lemma_plain_stays(
    earlier: &TypeStore,
    later: &TypeStore,
    left: TypeId,
    right: TypeId,
    is_operator: bool,
    strict: bool,
)
    requires
        extends(later, earlier),
    ensures
        unnecessary::plain_comparable(later, left, right, is_operator, strict)
            == unnecessary::plain_comparable(earlier, left, right, is_operator, strict),
{
    assert(later.kind_of(left) == earlier.kind_of(left));
    assert(later.kind_of(right) == earlier.kind_of(right));
    if let (Some(a), Some(b)) = (
        unnecessary::instance_class(earlier, left),
        unnecessary::instance_class(earlier, right),
    ) {
        lemma_inherits_stays(earlier, later, a, KnownClass::Int);
        lemma_inherits_stays(earlier, later, a, KnownClass::Float);
        lemma_inherits_stays(earlier, later, a, KnownClass::Complex);
        lemma_inherits_stays(earlier, later, b, KnownClass::Int);
        lemma_inherits_stays(earlier, later, b, KnownClass::Float);
        lemma_inherits_stays(earlier, later, b, KnownClass::Complex);
    }
}

proof fn lemma_comparable_stays(
    earlier: &TypeStore,
    later: &TypeStore,
    left: TypeId,
    right: TypeId,
    is_operator: bool,
    strict: bool,
)
    requires
        earlier.wf(),
        extends(later, earlier),
    ensures
        unnecessary::comparable(later, left, right, is_operator, strict)
            == unnecessary::comparable(earlier, left, right, is_operator, strict),
    decreases left.0 + right.0,
{
    lemma_later_wf(earlier, later);
    types::lemma_parts_before(earlier, left);
    types::lemma_parts_before(earlier, right);
    assert(later.kind_of(left) == earlier.kind_of(left));
    assert(later.kind_of(right) == earlier.kind_of(right));
    match (earlier.kind_of(left), earlier.kind_of(right)) {
        (TypeKind::EnumComplement(inner), _) => {
            lemma_comparable_stays(earlier, later, inner, right, is_operator, true);
        },
        (_, TypeKind::EnumComplement(inner)) => {
            lemma_comparable_stays(earlier, later, left, inner, is_operator, true);
        },
        (TypeKind::Intersection(positive), _) => {
            assert forall|i: int| 0 <= i < positive@.len() implies unnecessary::dynamic(
                later,
                #[trigger] positive@[i],
            ) == unnecessary::dynamic(earlier, positive@[i]) && unnecessary::comparable(
                later,
                positive@[i],
                right,
                is_operator,
                true,
            ) == unnecessary::comparable(earlier, positive@[i], right, is_operator, true) by {
                lemma_comparable_stays(earlier, later, positive@[i], right, is_operator, true);
            }
        },
        (_, TypeKind::Intersection(positive)) => {
            assert forall|i: int| 0 <= i < positive@.len() implies unnecessary::dynamic(
                later,
                #[trigger] positive@[i],
            ) == unnecessary::dynamic(earlier, positive@[i]) && unnecessary::comparable(
                later,
                left,
                positive@[i],
                is_operator,
                true,
            ) == unnecessary::comparable(earlier, left, positive@[i], is_operator, true) by {
                lemma_comparable_stays(earlier, later, left, positive@[i], is_operator, true);
            }
        },
        _ => {
            lemma_plain_stays(earlier, later, left, right, is_operator, strict);
        },
    }
}

proof fn lemma_expanded_stays(earlier: &TypeStore, later: &TypeStore, ty: TypeId, depth: nat)
    requires
        extends(later, earlier),
    ensures
        unnecessary::expanded(later, ty, depth) == unnecessary::expanded(earlier, ty, depth),
    decreases unnecessary::MAX_EXPANSION + 1 - depth, 0nat,
{
    if depth <= unnecessary::MAX_EXPANSION {
        assert(later.kind_of(ty) == earlier.kind_of(ty));
        match earlier.kind_of(ty) {
            TypeKind::Union(elements) => {
                lemma_expanded_all_stays(earlier, later, elements@, depth + 1);
            },
            TypeKind::TypeAlias(value) => {
                lemma_expanded_stays(earlier, later, value, depth + 1);
            },
            TypeKind::TypeVar(TypeVarBound::UpperBound(bound)) => {
                lemma_expanded_stays(earlier, later, bound, depth + 1);
            },
            TypeKind::TypeVar(TypeVarBound::Constraints(constraints)) => {
                lemma_expanded_all_stays(earlier, later, constraints@, depth + 1);
            },
            _ => {},
        }
    }
}

proof fn lemma_expanded_all_stays(
    earlier: &TypeStore,
    later: &TypeStore,
    types: Seq<TypeId>,
    depth: nat,
)
    requires
        extends(later, earlier),
    ensures
        unnecessary::expanded_all(later, types, depth) == unnecessary::expanded_all(
            earlier,
            types,
            depth,
        ),
    decreases unnecessary::MAX_EXPANSION + 1 - depth, types.len() + 1,
{
    if types.len() > 0 {
        lemma_expanded_all_stays(earlier, later, types.drop_last(), depth);
        lemma_expanded_stays(earlier, later, types.last(), depth);
    }
}

proof fn lemma_overlapping_stays(
    earlier: &TypeStore,
    later: &TypeStore,
    left: TypeId,
    right: TypeId,
    is_operator: bool,
)
    requires
        earlier.wf(),
        extends(later, earlier),
    ensures
        unnecessary::overlapping(later, left, right, is_operator) == unnecessary::overlapping(
            earlier,
            left,
            right,
            is_operator,
        ),
{
    lemma_expanded_stays(earlier, later, left, 0);
    lemma_expanded_stays(earlier, later, right, 0);
    assert(later.kind_of(left) == earlier.kind_of(left));
    assert(later.kind_of(right) == earlier.kind_of(right));
    let a = unnecessary::subtypes(earlier, left);
    let b = unnecessary::subtypes(earlier, right);
    assert forall|i: int, j: int| 0 <= i < a.len() && 0 <= j < b.len() implies (
    #[trigger] unnecessary::comparable(later, a[i], b[j], is_operator, false))
        == unnecessary::comparable(earlier, a[i], b[j], is_operator, false) by {
        lemma_comparable_stays(earlier, later, a[i], b[j], is_operator, false);
    }
    if unnecessary::overlapping(earlier, left, right, is_operator) && !(unnecessary::never(
        earlier,
        left,
    ) || unnecessary::never(earlier, right)) {
        let (i, j): (int, int) = choose|i: int, j: int|
            0 <= i < a.len() && 0 <= j < b.len() && #[trigger] unnecessary::comparable(
                earlier,
                a[i],
                b[j],
                is_operator,
                false,
            );
        assert(unnecessary::comparable(
            later,
            unnecessary::subtypes(later, left)[i],
            unnecessary::subtypes(later, right)[j],
            is_operator,
            false,
        ));
    }
    if unnecessary::overlapping(later, left, right, is_operator) && !(unnecessary::never(
        later,
        left,
    ) || unnecessary::never(later, right)) {
        let (i, j): (int, int) = choose|i: int, j: int|
            0 <= i < unnecessary::subtypes(later, left).len() && 0 <= j < unnecessary::subtypes(
                later,
                right,
            ).len() && #[trigger] unnecessary::comparable(
                later,
                unnecessary::subtypes(later, left)[i],
                unnecessary::subtypes(later, right)[j],
                is_operator,
                false,
            );
        assert(unnecessary::comparable(later, a[i], b[j], is_operator, false));
        assert(unnecessary::comparable(
            earlier,
            unnecessary::subtypes(earlier, left)[i],
            unnecessary::subtypes(earlier, right)[j],
            is_operator,
            false,
        ));
    }
}

proof fn lemma_value_stays(earlier: &TypeStore, later: &TypeStore, ty: TypeId)
    requires
        extends(later, earlier),
    ensures
        stays(unnecessary::value_form(earlier, ty), unnecessary::value_form(later, ty)),
{
    assert(later.kind_of(ty) == earlier.kind_of(ty));
    match earlier.kind_of(ty) {
        TypeKind::LiteralValue { value: LiteralKind::Enum { class, member }, fallback } => {
            lemma_inherits_stays(earlier, later, class, KnownClass::Int);
            lemma_inherits_stays(earlier, later, class, KnownClass::Str);
            lemma_inherits_stays(earlier, later, class, KnownClass::Bytes);
        },
        TypeKind::NominalInstance(instance) => {
            lemma_inherits_stays(earlier, later, instance.class, KnownClass::Int);
            lemma_inherits_stays(earlier, later, instance.class, KnownClass::Str);
            lemma_inherits_stays(earlier, later, instance.class, KnownClass::Bytes);
        },
        _ => {},
    }
}

proof fn lemma_operand_stays(earlier: &TypeStore, later: &TypeStore, ty: TypeId)
    requires
        extends(later, earlier),
    ensures
        stays(unnecessary::operand_form(earlier, ty), unnecessary::operand_form(later, ty)),
{
    assert(later.kind_of(ty) == earlier.kind_of(ty));
    if let TypeKind::Union(elements) = earlier.kind_of(ty) {
        let before = elements@.map_values(
            |element: TypeId| unnecessary::value_form(earlier, element),
        );
        let after = elements@.map_values(|element: TypeId| unnecessary::value_form(later, element));
        if types::all_ok(before) is Ok {
            assert forall|i: int| 0 <= i < before.len() implies #[trigger] before[i] is Ok by {
                lemma_all_are_ok(before, i);
            }
            assert forall|i: int| 0 <= i < before.len() implies #[trigger] after[i] == before[i] by {
                lemma_value_stays(earlier, later, elements@[i]);
                assert(before[i] is Ok);
            }
            assert(after =~= before);
        }
    } else {
        lemma_value_stays(earlier, later, ty);
    }
}

/// A list of outcomes without a first error is all values.
proof fn lemma_all_are_ok<T, E>(items: Seq<Result<T, E>>, at: int)
    requires
        0 <= at < items.len(),
        types::all_ok(items) is Ok,
    ensures
        items[at] is Ok,
    decreases at,
{
    if items[at] is Err {
        assert forall|i: int| 0 <= i < at implies items[i] is Ok by {
            lemma_all_are_ok(items, i);
        }
        assert(types::first_error(items, at));
    }
}

proof fn lemma_elements_stay(earlier: &TypeStore, later: &TypeStore, ty: TypeId)
    requires
        extends(later, earlier),
    ensures
        unnecessary::elements_of(later, ty) == unnecessary::elements_of(earlier, ty),
        unnecessary::literal_union(later, ty) == unnecessary::literal_union(earlier, ty),
{
    assert(later.kind_of(ty) == earlier.kind_of(ty));
    let elements = unnecessary::elements_of(earlier, ty);
    assert forall|i: int| 0 <= i < elements.len() implies unnecessary::concrete_literal(
        later,
        #[trigger] elements[i],
    ) == unnecessary::concrete_literal(earlier, elements[i]) by {
        assert(later.kind_of(elements[i]) == earlier.kind_of(elements[i]));
    }
}

proof fn lemma_no_overlap_stays(
    earlier: &TypeStore,
    later: &TypeStore,
    left: TypeId,
    right: TypeId,
    is_operator: bool,
    static_test: bool,
)
    requires
        earlier.wf(),
        extends(later, earlier),
    ensures
        checker::no_overlap(later, left, right, is_operator, static_test) == checker::no_overlap(
            earlier,
            left,
            right,
            is_operator,
            static_test,
        ),
{
    lemma_elements_stay(earlier, later, left);
    lemma_elements_stay(earlier, later, right);
    lemma_overlapping_stays(earlier, later, left, right, is_operator);
    let a = unnecessary::elements_of(earlier, left);
    let b = unnecessary::elements_of(earlier, right);
    assert forall|i: int| 0 <= i < a.len() implies later.assignable(#[trigger] a[i], right)
        == earlier.assignable(a[i], right) by {}
    assert forall|i: int| 0 <= i < b.len() implies later.assignable(#[trigger] b[i], left)
        == earlier.assignable(b[i], left) by {}
}

proof fn lemma_comparison_stays(
    earlier: &TypeStore,
    later: &TypeStore,
    left: Node,
    op: CmpOp,
    right: Node,
)
    requires
        earlier.wf(),
        extends(later, earlier),
    ensures
        stays(
            checker::comparison_message(earlier, left, op, right),
            checker::comparison_message(later, left, op, right),
        ),
{
    if let (Some(l), Some(r)) = (left.ty, right.ty) {
        assert(later.kind_of(l) == earlier.kind_of(l));
        assert(later.kind_of(r) == earlier.kind_of(r));
        lemma_operand_stays(earlier, later, l);
        lemma_operand_stays(earlier, later, r);
        if let (Ok(a), Ok(b)) = (
            unnecessary::operand_form(earlier, l),
            unnecessary::operand_form(earlier, r),
        ) {
            lemma_no_overlap_stays(
                earlier,
                later,
                a,
                b,
                op == CmpOp::Is || op == CmpOp::IsNot,
                checker::static_condition(left, right),
            );
        }
    }
}

proof fn lemma_survives_stays(
    earlier: &TypeStore,
    later: &TypeStore,
    element: TypeId,
    reference: TypeId,
)
    requires
        earlier.wf(),
        extends(later, earlier),
    ensures
        checker::survives(later, element, reference) == checker::survives(
            earlier,
            element,
            reference,
        ),
{
    lemma_elements_stay(earlier, later, element);
    let elements = unnecessary::elements_of(earlier, element);
    assert forall|i: int| 0 <= i < elements.len() implies checker::may_contain(
        later,
        #[trigger] elements[i],
        reference,
    ) == checker::may_contain(earlier, elements[i], reference) by {
        lemma_comparable_stays(earlier, later, elements[i], reference, false, false);
        assert(later.kind_of(elements[i]) == earlier.kind_of(elements[i]));
        assert(later.kind_of(reference) == earlier.kind_of(reference));
    }
    if checker::survives(earlier, element, reference) {
        let i = choose|i: int|
            0 <= i < elements.len() && checker::may_contain(
                earlier,
                #[trigger] elements[i],
                reference,
            );
        assert(checker::may_contain(
            later,
            unnecessary::elements_of(later, element)[i],
            reference,
        ));
    }
    if checker::survives(later, element, reference) {
        let i = choose|i: int|
            0 <= i < unnecessary::elements_of(later, element).len() && checker::may_contain(
                later,
                #[trigger] unnecessary::elements_of(later, element)[i],
                reference,
            );
        assert(checker::may_contain(
            earlier,
            unnecessary::elements_of(earlier, element)[i],
            reference,
        ));
    }
}

proof fn lemma_contains_stays(
    earlier: &TypeStore,
    later: &TypeStore,
    op: CmpOp,
    left: Node,
    right: Node,
)
    requires
        earlier.wf(),
        extends(later, earlier),
    ensures
        stays(
            checker::contains_message(earlier, op, left, right),
            checker::contains_message(later, op, left, right),
        ),
{
    if let (Some(l), Some(r)) = (left.ty, right.ty) {
        assert(later.kind_of(l) == earlier.kind_of(l));
        assert(later.kind_of(r) == earlier.kind_of(r));
        assert(stays(
            unnecessary::element_form(earlier, r),
            unnecessary::element_form(later, r),
        ));
        if let Ok(Some(element)) = unnecessary::element_form(earlier, r) {
            lemma_expanded_stays(earlier, later, l, 0);
            let references = unnecessary::subtypes(earlier, l);
            assert forall|i: int| 0 <= i < references.len() implies checker::survives(
                later,
                element,
                #[trigger] references[i],
            ) == checker::survives(earlier, element, references[i]) by {
                lemma_survives_stays(earlier, later, element, references[i]);
            }
            if checker::never_contained(earlier, l, element) {
                assert(checker::never_contained(later, l, element)) by {
                    assert forall|i: int|
                        0 <= i < unnecessary::subtypes(later, l).len() implies !checker::survives(
                        later,
                        element,
                        #[trigger] unnecessary::subtypes(later, l)[i],
                    ) by {
                        assert(!checker::survives(
                            earlier,
                            element,
                            unnecessary::subtypes(earlier, l)[i],
                        ));
                        assert(references[i] == unnecessary::subtypes(later, l)[i]);
                    }
                }
            } else {
                let i = choose|i: int|
                    0 <= i < references.len() && checker::survives(
                        earlier,
                        element,
                        #[trigger] references[i],
                    );
                assert(checker::survives(later, element, unnecessary::subtypes(later, l)[i]));
            }
        }
    }
}

proof fn lemma_compare_stays(
    earlier: &TypeStore,
    later: &TypeStore,
    selection: RuleSelection,
    ops: Seq<CmpOp>,
    operands: Seq<Node>,
    from: int,
)
    requires
        0 <= from,
        earlier.wf(),
        extends(later, earlier),
    ensures
        stays(
            checker::compare_findings(earlier, selection, ops, operands, from),
            checker::compare_findings(later, selection, ops, operands, from),
        ),
    decreases ops.len() - from,
{
    if from < ops.len() && from + 1 < operands.len() {
        let (left, op, right) = (operands[from], ops[from], operands[from + 1]);
        lemma_comparison_stays(earlier, later, left, op, right);
        lemma_contains_stays(earlier, later, op, left, right);
        lemma_compare_stays(earlier, later, selection, ops, operands, from + 1);
    }
}

proof fn lemma_class_check_stays(earlier: &TypeStore, later: &TypeStore, call: Node)
    requires
        extends(later, earlier),
    ensures
        stays(
            checker::isinstance_message(earlier, call),
            checker::isinstance_message(later, call),
        ),
{
}

proof fn lemma_condition_stays(
    earlier: &TypeStore,
    later: &TypeStore,
    selection: RuleSelection,
    test: Node,
)
    requires
        extends(later, earlier),
    ensures
        checker::condition_findings(later, selection, test) == checker::condition_findings(
            earlier,
            selection,
            test,
        ),
    decreases test, 0nat,
{
    if test.kind is BoolOp || test.kind is Not {
        lemma_conditions_stay(earlier, later, selection, test.children@, 0);
    } else if let Some(ty) = checker::leaf_type(test) {
        lemma_expanded_stays(earlier, later, ty, 0);
        assert(later.kind_of(ty) == earlier.kind_of(ty));
        let parts = unnecessary::subtypes(earlier, ty);
        assert forall|i: int| 0 <= i < parts.len() implies later.kind_of(#[trigger] parts[i])
            == earlier.kind_of(parts[i]) && checker::coroutine(later, parts[i])
            == checker::coroutine(earlier, parts[i]) by {}
        assert(checker::always_function(later, ty) == checker::always_function(earlier, ty));
        assert(checker::always_coroutine(later, ty) == checker::always_coroutine(earlier, ty));
    }
}

proof fn lemma_conditions_stay(
    earlier: &TypeStore,
    later: &TypeStore,
    selection: RuleSelection,
    tests: Seq<Node>,
    from: int,
)
    requires
        0 <= from,
        extends(later, earlier),
    ensures
        checker::conditions_findings(later, selection, tests, from)
            == checker::conditions_findings(earlier, selection, tests, from),
    decreases tests, tests.len() - from,
{
    if from < tests.len() {
        lemma_condition_stays(earlier, later, selection, tests[from]);
        lemma_conditions_stay(earlier, later, selection, tests, from + 1);
    }
}

proof fn lemma_node_stays(
    earlier: &TypeStore,
    later: &TypeStore,
    selection: RuleSelection,
    node: Node,
    in_assert: bool,
)
    requires
        earlier.wf(),
        extends(later, earlier),
    ensures
        stays(
            checker::node_findings(earlier, selection, node, in_assert),
            checker::node_findings(later, selection, node, in_assert),
        ),
    decreases node, 0nat,
{
    lemma_conditions_stay(earlier, later, selection, checker::conditions(node), 0);
    match node.kind {
        NodeKind::Compare(ops) => {
            lemma_compare_stays(earlier, later, selection, ops@, node.children@, 0);
        },
        NodeKind::Call { keywords } => {
            lemma_class_check_stays(earlier, later, node);
        },
        _ => {},
    }
    lemma_nodes_stay(
        earlier,
        later,
        selection,
        node.children@,
        0,
        in_assert || node.kind is Assert,
    );
}

proof fn lemma_nodes_stay(
    earlier: &TypeStore,
    later: &TypeStore,
    selection: RuleSelection,
    nodes: Seq<Node>,
    from: int,
    in_assert: bool,
)
    requires
        0 <= from,
        earlier.wf(),
        extends(later, earlier),
    ensures
        stays(
            checker::nodes_findings(earlier, selection, nodes, from, in_assert),
            checker::nodes_findings(later, selection, nodes, from, in_assert),
        ),
    decreases nodes, nodes.len() - from,
{
    if from < nodes.len() {
        lemma_node_stays(earlier, later, selection, nodes[from], in_assert);
        lemma_nodes_stay(earlier, later, selection, nodes, from + 1, in_assert);
    }
}

/// What the pass found stays found: further answers change nothing about it.
pub proof fn law_findings_stay(
    earlier: &TypeStore,
    later: &TypeStore,
    selection: RuleSelection,
    body: Seq<Node>,
)
    requires
        earlier.wf(),
        extends(later, earlier),
    ensures
        stays(
            checker::module_findings(earlier, selection, body),
            checker::module_findings(later, selection, body),
        ),
{
    lemma_nodes_stay(earlier, later, selection, body, 0, false);
}

/// Whether an inference that ended stays with more answers; one that stopped at an open
/// query may go further.
pub open spec fn inference_stays<T>(
    earlier: Result<T, StopView>,
    later: Result<T, StopView>,
) -> bool {
    !(earlier matches Err(StopView::Open(_))) ==> later == earlier
}

/// The outcome of a list stays where the outcomes before its first open query do.
proof fn lemma_list_stays<T>(
    earlier: Seq<Result<T, StopView>>,
    later: Seq<Result<T, StopView>>,
)
    requires
        earlier.len() == later.len(),
        forall|i: int|
            0 <= i < earlier.len() ==> inference_stays(#[trigger] earlier[i], later[i]),
    ensures
        inference_stays(types::all_ok(earlier), types::all_ok(later)),
{
    match types::all_ok(earlier) {
        Ok(values) => {
            assert forall|i: int| 0 <= i < earlier.len() implies #[trigger] later[i]
                == earlier[i] by {
                lemma_all_are_ok(earlier, i);
                assert(inference_stays(earlier[i], later[i]));
            }
            assert(later =~= earlier);
        },
        Err(StopView::Inapplicable) => {
            let at = choose|at: int| types::first_error(earlier, at);
            assert(types::first_error(earlier, at));
            assert(earlier[at] == Err::<T, StopView>(StopView::Inapplicable));
            assert(inference_stays(earlier[at], later[at]));
            assert forall|i: int| 0 <= i < at implies later[i] is Ok by {
                assert(earlier[i] is Ok);
                assert(inference_stays(earlier[i], later[i]));
            }
            assert(types::first_error(later, at));
            types::lemma_first_error(later, at);
        },
        Err(StopView::Open(_)) => {},
    }
}

proof fn lemma_yields_stay(
    earlier: &TypeStore,
    later: &TypeStore,
    sites: Seq<inferred_return::YieldSite>,
)
    requires
        extends(later, earlier),
    ensures
        inference_stays(
            inferred_return::yield_union(earlier, sites),
            inferred_return::yield_union(later, sites),
        ),
{
    let before = sites.map_values(
        |site: inferred_return::YieldSite| inferred_return::yield_type(earlier, site),
    );
    let after = sites.map_values(
        |site: inferred_return::YieldSite| inferred_return::yield_type(later, site),
    );
    assert forall|i: int| 0 <= i < before.len() implies inference_stays(
        #[trigger] before[i],
        after[i],
    ) by {
        assert(before[i] == inferred_return::yield_type(earlier, sites[i]));
        assert(after[i] == inferred_return::yield_type(later, sites[i]));
    }
    lemma_list_stays(before, after);
}

proof fn lemma_return_stays(
    earlier: &TypeStore,
    later: &TypeStore,
    site: inferred_return::ReturnSite,
    visiting: Seq<FunctionId>,
)
    requires
        extends(later, earlier),
    ensures
        inference_stays(
            inferred_return::return_type(earlier, site, visiting),
            inferred_return::return_type(later, site, visiting),
        ),
    decreases inferred_return::MAX_CHAIN_DEPTH - visiting.len(), 1nat, 0nat,
{
    if let inferred_return::ReturnSite::Value { ty: Some(own), callee } = site {
        assert(later.kind_of(own) == earlier.kind_of(own));
        if let Some(ty) = callee {
            assert(later.kind_of(ty) == earlier.kind_of(ty));
            if let Some(function) = inferred_return::denoted_function(earlier, ty) {
                if visiting.len() < inferred_return::MAX_CHAIN_DEPTH && !visiting.contains(
                    function,
                ) {
                    lemma_inference_stays(earlier, later, function, visiting.push(function));
                }
            }
        }
    }
}

proof fn lemma_return_types_stay(
    earlier: &TypeStore,
    later: &TypeStore,
    sites: Seq<inferred_return::ReturnSite>,
    visiting: Seq<FunctionId>,
)
    requires
        extends(later, earlier),
    ensures
        ({
            let before = inferred_return::return_types(earlier, sites, visiting);
            let after = inferred_return::return_types(later, sites, visiting);
            &&& before.len() == after.len()
            &&& forall|i: int|
                0 <= i < before.len() ==> inference_stays(#[trigger] before[i], after[i])
        }),
    decreases inferred_return::MAX_CHAIN_DEPTH - visiting.len(), 2nat, sites.len(),
{
    if sites.len() > 0 {
        lemma_return_types_stay(earlier, later, sites.drop_last(), visiting);
        lemma_return_stays(earlier, later, sites.last(), visiting);
    }
}

proof fn lemma_inference_stays(
    earlier: &TypeStore,
    later: &TypeStore,
    id: FunctionId,
    visiting: Seq<FunctionId>,
)
    requires
        extends(later, earlier),
    ensures
        inference_stays(
            inferred_return::inferred(earlier, id, visiting),
            inferred_return::inferred(later, id, visiting),
        ),
    decreases inferred_return::MAX_CHAIN_DEPTH - visiting.len(), 4nat, 0nat,
{
    if let Some(function) = earlier.function_of(id) {
        assert(later.function_of(id) == Some(function));
        let yields = inferred_return::all_yields(function.body@, 0, false);
        lemma_yields_stay(earlier, later, yields.sites);
        let sites = inferred_return::all_returns(function.body@, 0);
        lemma_return_types_stay(earlier, later, sites, visiting);
        lemma_list_stays(
            inferred_return::return_types(earlier, sites, visiting),
            inferred_return::return_types(later, sites, visiting),
        );
        assert(inference_stays(
            inferred_return::return_union(earlier, function, visiting),
            inferred_return::return_union(later, function, visiting),
        ));
    }
}

/// What a reveal shows stays: further answers change nothing about it.
pub proof fn law_reveals_stay(earlier: &TypeStore, later: &TypeStore, ty: TypeId)
    requires
        extends(later, earlier),
    ensures
        stays(
            inferred_return::revealed(earlier, ty),
            inferred_return::revealed(later, ty),
        ),
{
    let subject = inferred_return::revealed_subject(earlier, ty);
    assert(later.kind_of(ty) == earlier.kind_of(ty));
    assert(later.kind_of(subject) == earlier.kind_of(subject));
    if let TypeKind::Callable { overloads, definition } = earlier.kind_of(subject) {
        if overloads@.len() == 1 {
            let result = overloads@[0].result;
            assert(later.kind_of(result) == earlier.kind_of(result));
        }
    }
    if let Some(function) = inferred_return::source_function(earlier, subject) {
        assert(inferred_return::source_function(later, subject) == Some(function));
        lemma_inference_stays(earlier, later, function, seq![function]);
    }
}

proof fn lemma_receiver_stays(earlier: &TypeStore, later: &TypeStore, receiver: TypeId)
    requires
        earlier.wf(),
        extends(later, earlier),
    ensures
        callee::receiver_home(later, receiver) == callee::receiver_home(earlier, receiver),
    decreases receiver.0,
{
    lemma_later_wf(earlier, later);
    types::lemma_parts_before(earlier, receiver);
    assert(later.kind_of(receiver) == earlier.kind_of(receiver));
    match earlier.kind_of(receiver) {
        TypeKind::TypeVar(TypeVarBound::UpperBound(bound)) => {
            lemma_receiver_stays(earlier, later, bound);
        },
        TypeKind::LiteralValue { value, fallback: Some(instance) } => {
            lemma_receiver_stays(earlier, later, instance);
        },
        _ => {},
    }
}

proof fn lemma_denoted_stays(earlier: &TypeStore, later: &TypeStore, ty: TypeId)
    requires
        earlier.wf(),
        extends(later, earlier),
    ensures
        callee::denoted(later, ty) == callee::denoted(earlier, ty),
    decreases ty.0, 1nat, 0nat,
{
    lemma_later_wf(earlier, later);
    types::lemma_parts_before(earlier, ty);
    assert(later.kind_of(ty) == earlier.kind_of(ty));
    match earlier.kind_of(ty) {
        TypeKind::BoundMethod { function, receiver, signatures } => {
            lemma_receiver_stays(earlier, later, receiver);
        },
        TypeKind::Union(elements) => {
            lemma_all_denoted_stays(earlier, later, elements@, ty.0 as int);
        },
        _ => {},
    }
}

proof fn lemma_all_denoted_stays(
    earlier: &TypeStore,
    later: &TypeStore,
    elements: Seq<TypeId>,
    bound: int,
)
    requires
        earlier.wf(),
        extends(later, earlier),
        0 <= bound,
        forall|i: int| 0 <= i < elements.len() ==> (#[trigger] elements[i]).0 < bound,
    ensures
        callee::all_denoted(later, elements, bound) == callee::all_denoted(
            earlier,
            elements,
            bound,
        ),
    decreases bound, 0nat, elements.len(),
{
    lemma_later_wf(earlier, later);
    if elements.len() > 0 {
        assert(elements.last().0 < bound);
        lemma_all_denoted_stays(earlier, later, elements.drop_last(), bound);
        lemma_denoted_stays(earlier, later, elements.last());
    }
}

proof fn lemma_call_return_stays(earlier: &TypeStore, later: &TypeStore, call: Node)
    requires
        extends(later, earlier),
    ensures
        stays(callee::call_return(earlier, call), callee::call_return(later, call)),
{
    if let Some(ty) = inferred_return::operand_type(call) {
        law_reveals_stay(earlier, later, ty);
        if let Ok(form) = inferred_return::revealed(earlier, ty) {
            assert(later.kind_of(form) == earlier.kind_of(form));
            if let TypeKind::Callable { overloads, definition } = earlier.kind_of(form) {
                if overloads@.len() == 1 {
                    let result = overloads@[0].result;
                    assert(later.kind_of(result) == earlier.kind_of(result));
                }
            }
        }
    }
}

/// The definitions of a callee stay too.
pub proof fn law_definitions_stay(
    earlier: &TypeStore,
    later: &TypeStore,
    file: FileId,
    call: Node,
    definitions: Seq<callee::ResolvedDefinition>,
)
    requires
        earlier.wf(),
        extends(later, earlier),
    ensures
        stays(
            callee::call_definitions(earlier, file, call, definitions),
            callee::call_definitions(later, file, call, definitions),
        ),
{
    if call.children@.len() > 0 {
        let func = call.children@[0];
        if let Some(own) = func.ty {
            assert(later.kind_of(own) == earlier.kind_of(own));
        }
        if func.children@.len() > 0 {
            lemma_call_return_stays(earlier, later, func.children@[0]);
        }
        if let Some(bound) = callee::bound_call(file, definitions) {
            lemma_call_return_stays(earlier, later, bound);
        }
        if let Ok(Some(callee)) = callee::callee_form(earlier, file, func, definitions) {
            lemma_denoted_stays(earlier, later, callee);
        }
    }
}

// -- open queries -----------------------------------------------------------------------

/// Whether the type checker has built no type for a query.
pub open spec fn unmet(store: &TypeStore, query: QueryView) -> bool {
    !(store.answer_of(query) matches Some(Some(_)))
}

/// Whether an outcome that is an error hands back a query without a type.
pub open spec fn stops_unmet<T>(store: &TypeStore, outcome: Result<T, QueryView>) -> bool {
    outcome matches Err(query) ==> unmet(store, query)
}

/// An operand stops only at a query without a type.
proof fn lemma_operand_stops(store: &TypeStore, ty: TypeId)
    ensures
        stops_unmet(store, unnecessary::operand_form(store, ty)),
{
    if let TypeKind::Union(elements) = store.kind_of(ty) {
        let items = elements@.map_values(
            |element: TypeId| unnecessary::value_form(store, element),
        );
        if types::all_ok(items) is Err {
            let at = choose|at: int| types::first_error(items, at);
            assert(types::first_error(items, at));
            assert(items[at] == unnecessary::value_form(store, elements@[at]));
        }
    }
}

proof fn lemma_compare_stops(
    store: &TypeStore,
    selection: RuleSelection,
    ops: Seq<CmpOp>,
    operands: Seq<Node>,
    from: int,
)
    requires
        0 <= from,
    ensures
        stops_unmet(
            store,
            checker::compare_findings(store, selection, ops, operands, from),
        ),
    decreases ops.len() - from,
{
    if from < ops.len() && from + 1 < operands.len() {
        if let Some(ty) = operands[from].ty {
            lemma_operand_stops(store, ty);
        }
        if let Some(ty) = operands[from + 1].ty {
            lemma_operand_stops(store, ty);
        }
        lemma_compare_stops(store, selection, ops, operands, from + 1);
    }
}

proof fn lemma_node_stops(
    store: &TypeStore,
    selection: RuleSelection,
    node: Node,
    in_assert: bool,
)
    ensures
        stops_unmet(store, checker::node_findings(store, selection, node, in_assert)),
    decreases node, 0nat,
{
    if let NodeKind::Compare(ops) = node.kind {
        lemma_compare_stops(store, selection, ops@, node.children@, 0);
    }
    lemma_nodes_stop(store, selection, node.children@, 0, in_assert || node.kind is Assert);
}

proof fn lemma_nodes_stop(
    store: &TypeStore,
    selection: RuleSelection,
    nodes: Seq<Node>,
    from: int,
    in_assert: bool,
)
    requires
        0 <= from,
    ensures
        stops_unmet(store, checker::nodes_findings(store, selection, nodes, from, in_assert)),
    decreases nodes, nodes.len() - from,
{
    if from < nodes.len() {
        lemma_node_stops(store, selection, nodes[from], in_assert);
        lemma_nodes_stop(store, selection, nodes, from + 1, in_assert);
    }
}

/// The pass never asks again for a type that was built: it stops only at a query that has
/// none, so every type that is recorded takes it further.
pub proof fn law_pass_asks_only_once(
    store: &TypeStore,
    selection: RuleSelection,
    body: Seq<Node>,
)
    ensures
        stops_unmet(store, checker::module_findings(store, selection, body)),
{
    lemma_nodes_stop(store, selection, body, 0, false);
}

/// Whether a stopped inference hands back a query without a type.
pub open spec fn infers_unmet<T>(store: &TypeStore, outcome: Result<T, StopView>) -> bool {
    outcome matches Err(StopView::Open(query)) ==> unmet(store, query)
}

proof fn lemma_yields_stop(store: &TypeStore, sites: Seq<inferred_return::YieldSite>)
    ensures
        infers_unmet(store, inferred_return::yield_union(store, sites)),
{
    let items = sites.map_values(
        |site: inferred_return::YieldSite| inferred_return::yield_type(store, site),
    );
    if types::all_ok(items) is Err {
        let at = choose|at: int| types::first_error(items, at);
        assert(types::first_error(items, at));
        assert(items[at] == inferred_return::yield_type(store, sites[at]));
    }
}

proof fn lemma_return_types_stop(
    store: &TypeStore,
    sites: Seq<inferred_return::ReturnSite>,
    visiting: Seq<FunctionId>,
    at: int,
)
    requires
        0 <= at < sites.len(),
    ensures
        inferred_return::return_types(store, sites, visiting).len() == sites.len(),
        infers_unmet(store, inferred_return::return_types(store, sites, visiting)[at]),
    decreases inferred_return::MAX_CHAIN_DEPTH - visiting.len(), 2nat, sites.len(),
{
    let before = sites.drop_last();
    if before.len() > 0 {
        lemma_return_types_stop(store, before, visiting, if at < before.len() {
            at
        } else {
            0
        });
    } else {
        assert(inferred_return::return_types(store, before, visiting).len() == 0);
    }
    if at == before.len() {
        lemma_return_stops(store, sites.last(), visiting);
    }
}

proof fn lemma_return_stops(
    store: &TypeStore,
    site: inferred_return::ReturnSite,
    visiting: Seq<FunctionId>,
)
    ensures
        infers_unmet(store, inferred_return::return_type(store, site, visiting)),
    decreases inferred_return::MAX_CHAIN_DEPTH - visiting.len(), 1nat, 0nat,
{
    if let inferred_return::ReturnSite::Value { ty: Some(own), callee: Some(ty) } = site {
        if let Some(function) = inferred_return::denoted_function(store, ty) {
            if visiting.len() < inferred_return::MAX_CHAIN_DEPTH && !visiting.contains(function) {
                lemma_inference_stops(store, function, visiting.push(function));
            }
        }
    }
}

proof fn lemma_inference_stops(store: &TypeStore, id: FunctionId, visiting: Seq<FunctionId>)
    ensures
        infers_unmet(store, inferred_return::inferred(store, id, visiting)),
    decreases inferred_return::MAX_CHAIN_DEPTH - visiting.len(), 4nat, 0nat,
{
    if let Some(function) = store.function_of(id) {
        lemma_yields_stop(store, inferred_return::all_yields(function.body@, 0, false).sites);
        let sites = inferred_return::all_returns(function.body@, 0);
        let items = inferred_return::return_types(store, sites, visiting);
        if types::all_ok(items) is Err {
            let at = choose|at: int| types::first_error(items, at);
            assert(types::first_error(items, at));
            if sites.len() == 0 {
                assert(items.len() == 0);
            } else {
                lemma_return_types_stop(store, sites, visiting, 0);
                lemma_return_types_stop(store, sites, visiting, at);
            }
        }
    }
}

/// A reveal never asks again for a type that was built.
pub proof fn law_reveal_asks_only_once(store: &TypeStore, ty: TypeId)
    ensures
        stops_unmet(store, inferred_return::revealed(store, ty)),
{
    let subject = inferred_return::revealed_subject(store, ty);
    if let Some(function) = inferred_return::source_function(store, subject) {
        lemma_inference_stops(store, function, seq![function]);
    }
}

/// Neither do the definitions of a callee.
pub proof fn law_callee_asks_only_once(
    store: &TypeStore,
    file: FileId,
    call: Node,
    definitions: Seq<callee::ResolvedDefinition>,
)
    ensures
        stops_unmet(store, callee::call_definitions(store, file, call, definitions)),
{
    if call.children@.len() > 0 {
        let func = call.children@[0];
        if func.children@.len() > 0 {
            let receiver = func.children@[0];
            if let Some(ty) = inferred_return::operand_type(receiver) {
                law_reveal_asks_only_once(store, ty);
            }
        }
        if let Some(bound) = callee::bound_call(file, definitions) {
            if let Some(ty) = inferred_return::operand_type(bound) {
                law_reveal_asks_only_once(store, ty);
            }
        }
    }
}

} // verus!
