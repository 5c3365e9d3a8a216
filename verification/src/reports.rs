//! When the rules report, in terms of the data of a store and the answers on record.

use vstd::prelude::*;

use crate::checker;
use crate::facts;
use crate::syntax::{CmpOp, Node, NodeKind};
use crate::types;
use crate::types::{
    ClassId, ClassInfoFunction, EnumMember, Instance, KnownClass, LiteralKind, QueryView, TupleSpec,
    TypeId, TypeKind, TypeStore,
};
use crate::unnecessary;

verus! {

// -- texts ------------------------------------------------------------------------------

/// What is said of two types without overlap.
pub open spec fn no_overlap_text(
    subject: Seq<char>,
    value: Seq<char>,
    left: Seq<char>,
    right: Seq<char>,
) -> Seq<char> {
    subject + " will always evaluate to "@ + value + " since the types \""@ + left + "\" and \""@
        + right + "\" have no overlap"@
}

/// How a type is shown in messages.
pub open spec fn shown(store: &TypeStore, ty: TypeId) -> Seq<char> {
    if facts::holds(store, ty) {
        store.types@[ty.0 as int].display@
    } else {
        Seq::empty()
    }
}

// -- operand forms ----------------------------------------------------------------------

/// The members of an enum whose values are ints, strings or bytes.
pub open spec fn valued_members(store: &TypeStore, class: ClassId) -> Option<Seq<EnumMember>> {
    if class.0 < store.classes@.len() && (facts::in_mro(store, class, KnownClass::Int)
        || facts::in_mro(store, class, KnownClass::Str) || facts::in_mro(
        store,
        class,
        KnownClass::Bytes,
    )) {
        match store.classes@[class.0 as int].members {
            Some(members) => Some(members@),
            None => None,
        }
    } else {
        None
    }
}

/// Which answer a query has, if it has one.
pub open spec fn answers(
    store: &TypeStore,
    query: QueryView,
    outcome: Result<TypeId, QueryView>,
) -> bool {
    &&& forall|ty: TypeId|
        facts::recorded(store, query, Some(ty)) ==> outcome == Ok::<TypeId, QueryView>(ty)
    &&& facts::unasked(store, query) ==> outcome == Err::<TypeId, QueryView>(query)
}

proof fn lemma_answers(store: &TypeStore, query: QueryView)
    ensures
        answers(store, query, store.built(query)),
{
    assert forall|ty: TypeId| facts::recorded(store, query, Some(ty)) implies store.built(query)
        == Ok::<TypeId, QueryView>(ty) by {
        facts::law_the_first_record_answers(store, query, Some(ty));
    }
    facts::law_the_first_record_answers(store, query, None);
}

/// An instance of an enum with values stands for the union of all its members' values, in
/// their order; a literal of such an enum for the value of the first member of its name;
/// anything else but a union for itself.
pub proof fn law_enums_stand_for_their_values(store: &TypeStore, ty: TypeId)
    requires
        facts::holds(store, ty),
    ensures
        match facts::kind(store, ty) {
            TypeKind::NominalInstance(instance) => match valued_members(store, instance.class) {
                Some(members) if members.len() > 0 => answers(
                    store,
                    QueryView::Union(Seq::new(members.len(), |i: int| members[i].value)),
                    unnecessary::operand_form(store, ty),
                ),
                _ => unnecessary::operand_form(store, ty) == Ok::<TypeId, QueryView>(ty),
            },
            TypeKind::LiteralValue { value: LiteralKind::Enum { class, member }, .. } => {
                match valued_members(store, class) {
                    Some(members) => {
                        &&& forall|i: int|
                            first_named(members, member@, i) ==> unnecessary::operand_form(store, ty)
                                == Ok::<TypeId, QueryView>(members[i].value)
                        &&& (forall|i: int|
                            0 <= i < members.len() ==> (#[trigger] members[i]).name@ != member@)
                            ==> unnecessary::operand_form(store, ty) == Ok::<TypeId, QueryView>(ty)
                    },
                    None => unnecessary::operand_form(store, ty) == Ok::<TypeId, QueryView>(ty),
                }
            },
            TypeKind::Union(_) => true,
            _ => unnecessary::operand_form(store, ty) == Ok::<TypeId, QueryView>(ty),
        },
{
    match facts::kind(store, ty) {
        TypeKind::NominalInstance(instance) => {
            lemma_valued(store, instance.class);
            if let Some(members) = valued_members(store, instance.class) {
                let values = Seq::new(members.len(), |i: int| members[i].value);
                assert(members.map_values(|m: EnumMember| m.value) =~= values);
                lemma_answers(store, QueryView::Union(values));
            }
        },
        TypeKind::LiteralValue { value: LiteralKind::Enum { class, member }, .. } => {
            lemma_valued(store, class);
            if let Some(members) = valued_members(store, class) {
                lemma_member(members, member@, 0);
                assert forall|i: int| first_named(members, member@, i) implies
                    unnecessary::operand_form(store, ty) == Ok::<TypeId, QueryView>(
                    members[i].value,
                ) by {
                    lemma_member_at(members, member@, 0, i);
                }
            }
        },
        _ => {},
    }
}

/// The member at `i` is the first of the name.
pub open spec fn first_named(members: Seq<EnumMember>, name: Seq<char>, i: int) -> bool {
    &&& 0 <= i < members.len()
    &&& members[i].name@ == name
    &&& forall|j: int| 0 <= j < i ==> (#[trigger] members[j]).name@ != name
}

proof fn lemma_valued(store: &TypeStore, class: ClassId)
    ensures
        unnecessary::value_based(store, class) && unnecessary::enum_members(store, class) is Some
            <==> valued_members(store, class) is Some,
        valued_members(store, class) is Some ==> valued_members(store, class)
            == unnecessary::enum_members(store, class),
{
    facts::law_readers_read_the_fields(
        store,
        store.object,
        store.object,
        class,
        types::FunctionId(0),
        KnownClass::Int,
    );
    facts::law_readers_read_the_fields(
        store,
        store.object,
        store.object,
        class,
        types::FunctionId(0),
        KnownClass::Str,
    );
    facts::law_readers_read_the_fields(
        store,
        store.object,
        store.object,
        class,
        types::FunctionId(0),
        KnownClass::Bytes,
    );
}

proof fn lemma_member(members: Seq<EnumMember>, name: Seq<char>, from: int)
    requires
        0 <= from,
    ensures
        (forall|i: int| from <= i < members.len() ==> (#[trigger] members[i]).name@ != name)
            ==> unnecessary::member_value(members, name, from) is None,
    decreases members.len() - from,
{
    if from < members.len() {
        lemma_member(members, name, from + 1);
    }
}

proof fn lemma_member_at(members: Seq<EnumMember>, name: Seq<char>, from: int, at: int)
    requires
        0 <= from <= at < members.len(),
        members[at].name@ == name,
        forall|j: int| from <= j < at ==> (#[trigger] members[j]).name@ != name,
    ensures
        unnecessary::member_value(members, name, from) == Some(members[at].value),
    decreases at - from,
{
    if from < at {
        lemma_member_at(members, name, from + 1, at);
    }
}

/// A union stands for the union of what its elements stand for, one by one and in order;
/// the first element that waits for an answer holds it up.
pub proof fn law_unions_stand_for_their_elements(
    store: &TypeStore,
    ty: TypeId,
    forms: Seq<TypeId>,
)
    requires
        facts::holds(store, ty),
        facts::kind(store, ty) matches TypeKind::Union(elements) && elements@.len() == forms.len()
            && forall|i: int|
            0 <= i < forms.len() ==> !(store.kind_of(#[trigger] elements@[i]) is Union)
                && unnecessary::operand_form(store, elements@[i]) == Ok::<TypeId, QueryView>(
                forms[i],
            ),
    ensures
        answers(store, QueryView::Union(forms), unnecessary::operand_form(store, ty)),
{
    if let TypeKind::Union(elements) = facts::kind(store, ty) {
        let items = elements@.map_values(
            |element: TypeId| unnecessary::value_form(store, element),
        );
        assert forall|i: int| 0 <= i < items.len() implies #[trigger] items[i] == Ok::<
            TypeId,
            QueryView,
        >(forms[i]) by {
            assert(unnecessary::operand_form(store, elements@[i]) == unnecessary::value_form(
                store,
                elements@[i],
            ));
        }
        types::lemma_all_ok(items, forms);
        lemma_answers(store, QueryView::Union(forms));
    }
}

/// A union with an element that has no form yet asks for what the first such element needs.
pub proof fn law_unions_ask_for_their_elements(
    store: &TypeStore,
    ty: TypeId,
    at: int,
    query: QueryView,
)
    requires
        facts::holds(store, ty),
        facts::kind(store, ty) matches TypeKind::Union(elements) && 0 <= at < elements@.len() && !(
        store.kind_of(elements@[at]) is Union) && unnecessary::operand_form(store, elements@[at])
            == Err::<TypeId, QueryView>(query) && forall|i: int|
            0 <= i < at ==> !(store.kind_of(#[trigger] elements@[i]) is Union)
                && unnecessary::operand_form(store, elements@[i]) is Ok,
    ensures
        unnecessary::operand_form(store, ty) == Err::<TypeId, QueryView>(query),
{
    if let TypeKind::Union(elements) = facts::kind(store, ty) {
        let items = elements@.map_values(
            |element: TypeId| unnecessary::value_form(store, element),
        );
        assert forall|i: int| 0 <= i <= at implies #[trigger] items[i]
            == unnecessary::operand_form(store, elements@[i]) by {}
        assert(types::first_error(items, at));
        types::lemma_first_error(items, at);
    }
}

// -- comparisons ------------------------------------------------------------------------

/// The type or, of a union, each of its elements.
pub open spec fn parts(store: &TypeStore, ty: TypeId) -> Seq<TypeId> {
    if facts::holds(store, ty) {
        match facts::kind(store, ty) {
            TypeKind::Union(elements) => elements@,
            _ => seq![ty],
        }
    } else {
        seq![ty]
    }
}

/// Every part is a literal with a value.
pub open spec fn all_literals(store: &TypeStore, ty: TypeId) -> bool {
    forall|i: int|
        0 <= i < parts(store, ty).len() ==> facts::is_literal(
            store,
            #[trigger] parts(store, ty)[i],
        ) && !(facts::kind(store, parts(store, ty)[i]) matches TypeKind::LiteralValue {
            value: LiteralKind::LiteralString,
            ..
        })
}

/// A part of the one type is assignable to the other type.
pub open spec fn part_assigns(store: &TypeStore, from: TypeId, to: TypeId) -> bool {
    exists|i: int|
        0 <= i < parts(store, from).len() && facts::assigns(
            store,
            #[trigger] parts(store, from)[i],
            to,
        )
}

/// Some subtype of the one type is comparable with some subtype of the other.
pub open spec fn subtypes_meet(
    store: &TypeStore,
    left: TypeId,
    right: TypeId,
    is_operator: bool,
) -> bool {
    exists|a: TypeId, b: TypeId|
        unnecessary::subtypes(store, left).contains(a) && unnecessary::subtypes(
            store,
            right,
        ).contains(b) && #[trigger] unnecessary::comparable(store, a, b, is_operator, false)
}

pub open spec fn is_never(store: &TypeStore, ty: TypeId) -> bool {
    facts::holds(store, ty) && facts::kind(store, ty) is Never
}

/// `module.attr`.
pub open spec fn attribute_of(expr: Node, module: Seq<char>, attr: Seq<char>) -> bool {
    &&& expr.kind matches NodeKind::Attribute(own) && own@ == attr
    &&& expr.children@.len() > 0
    &&& expr.children@[0].kind matches NodeKind::Name(name) && name@ == module
}

/// The platform and version tests whose outcome is fixed per run.
pub open spec fn platform_test(left: Node, right: Node) -> bool {
    match right.kind {
        NodeKind::Tuple => attribute_of(left, "sys"@, "version_info"@),
        NodeKind::NumberLiteral => left.kind is Subscript && left.children@.len() > 0
            && attribute_of(left.children@[0], "sys"@, "version_info"@),
        NodeKind::StringLiteral => attribute_of(left, "sys"@, "platform"@) || attribute_of(
            left,
            "os"@,
            "name"@,
        ),
        _ => false,
    }
}

/// A comparison is reported exactly where its operands cannot be equal: literals that are
/// assignable in neither direction, unless the test is a platform test, and other types
/// none of whose subtypes meet. It is reported as what the operator then gives.
pub proof fn law_comparisons_report_what_cannot_be_equal(
    store: &TypeStore,
    left: Node,
    op: CmpOp,
    right: Node,
    l: TypeId,
    r: TypeId,
    a: TypeId,
    b: TypeId,
)
    requires
        store.wf(),
        left.ty == Some(l),
        right.ty == Some(r),
        facts::holds(store, l),
        facts::holds(store, r),
        !(facts::kind(store, l) is ModuleLiteral),
        !(facts::kind(store, r) is ModuleLiteral),
        unnecessary::operand_form(store, l) == Ok::<TypeId, QueryView>(a),
        unnecessary::operand_form(store, r) == Ok::<TypeId, QueryView>(b),
        op == CmpOp::Eq || op == CmpOp::NotEq || op == CmpOp::Is || op == CmpOp::IsNot,
    ensures
        ({
            let is_operator = op == CmpOp::Is || op == CmpOp::IsNot;
            let apart = if all_literals(store, a) && all_literals(store, b) {
                !platform_test(left, right) && !part_assigns(store, a, b) && !part_assigns(
                    store,
                    b,
                    a,
                )
            } else {
                !is_never(store, a) && !is_never(store, b) && !subtypes_meet(
                    store,
                    a,
                    b,
                    is_operator,
                )
            };
            let value = if op == CmpOp::Eq || op == CmpOp::Is {
                "False"@
            } else {
                "True"@
            };
            checker::comparison_message(store, left, op, right) == Ok::<
                Option<Seq<char>>,
                QueryView,
            >(
                if apart {
                    Some(
                        no_overlap_text(
                            "Condition"@,
                            value,
                            shown(store, a),
                            shown(store, b),
                        ),
                    )
                } else {
                    None
                },
            )
        }),
{
    let is_operator = op == CmpOp::Is || op == CmpOp::IsNot;
    lemma_literals(store, a);
    lemma_literals(store, b);
    lemma_part_assigns(store, a, b);
    lemma_part_assigns(store, b, a);
    lemma_meet(store, a, b, is_operator);
    lemma_platform(left, right);
}

proof fn lemma_platform(left: Node, right: Node)
    ensures
        checker::static_condition(left, right) == platform_test(left, right),
{
}

proof fn lemma_parts(store: &TypeStore, ty: TypeId)
    ensures
        unnecessary::elements_of(store, ty) == parts(store, ty),
{
}

proof fn lemma_literals(store: &TypeStore, ty: TypeId)
    ensures
        unnecessary::literal_union(store, ty) == all_literals(store, ty),
{
    lemma_parts(store, ty);
    if unnecessary::literal_union(store, ty) {
        assert forall|i: int| 0 <= i < parts(store, ty).len() implies facts::is_literal(
            store,
            #[trigger] parts(store, ty)[i],
        ) && !(facts::kind(store, parts(store, ty)[i]) matches TypeKind::LiteralValue {
            value: LiteralKind::LiteralString,
            ..
        }) by {
            assert(unnecessary::concrete_literal(store, unnecessary::elements_of(store, ty)[i]));
        }
    }
    if all_literals(store, ty) {
        assert forall|i: int|
            0 <= i < unnecessary::elements_of(
                store,
                ty,
            ).len() implies unnecessary::concrete_literal(
            store,
            #[trigger] unnecessary::elements_of(store, ty)[i],
        ) by {
            assert(facts::is_literal(store, parts(store, ty)[i]));
        }
    }
}

proof fn lemma_part_assigns(store: &TypeStore, from: TypeId, to: TypeId)
    ensures
        part_assigns(store, from, to) == exists|i: int|
            0 <= i < unnecessary::elements_of(store, from).len() && store.assignable(
                #[trigger] unnecessary::elements_of(store, from)[i],
                to,
            ),
{
    lemma_parts(store, from);
    if part_assigns(store, from, to) {
        let i = choose|i: int|
            0 <= i < parts(store, from).len() && facts::assigns(
                store,
                #[trigger] parts(store, from)[i],
                to,
            );
        assert(store.assignable(unnecessary::elements_of(store, from)[i], to));
    }
    if exists|i: int|
        0 <= i < unnecessary::elements_of(store, from).len() && store.assignable(
            #[trigger] unnecessary::elements_of(store, from)[i],
            to,
        ) {
        let i = choose|i: int|
            0 <= i < unnecessary::elements_of(store, from).len() && store.assignable(
                #[trigger] unnecessary::elements_of(store, from)[i],
                to,
            );
        assert(facts::assigns(store, parts(store, from)[i], to));
    }
}

proof fn lemma_meet(store: &TypeStore, a: TypeId, b: TypeId, is_operator: bool)
    ensures
        unnecessary::overlapping(store, a, b, is_operator) == (is_never(store, a) || is_never(
            store,
            b,
        ) || subtypes_meet(store, a, b, is_operator)),
{
    let one = unnecessary::subtypes(store, a);
    let two = unnecessary::subtypes(store, b);
    if subtypes_meet(store, a, b, is_operator) {
        let (x, y): (TypeId, TypeId) = choose|x: TypeId, y: TypeId|
            one.contains(x) && two.contains(y) && #[trigger] unnecessary::comparable(
                store,
                x,
                y,
                is_operator,
                false,
            );
        let (i, j) = (one.index_of(x), two.index_of(y));
        assert(unnecessary::comparable(store, one[i], two[j], is_operator, false));
    }
    if exists|i: int, j: int|
        0 <= i < one.len() && 0 <= j < two.len() && #[trigger] unnecessary::comparable(
            store,
            one[i],
            two[j],
            is_operator,
            false,
        ) {
        let (i, j): (int, int) = choose|i: int, j: int|
            0 <= i < one.len() && 0 <= j < two.len() && #[trigger] unnecessary::comparable(
                store,
                one[i],
                two[j],
                is_operator,
                false,
            );
        assert(one.contains(one[i]) && two.contains(two[j]));
        assert(unnecessary::comparable(store, one[i], two[j], is_operator, false));
    }
}

/// A test of a value for `None` by `is` or `is not` is reported where `None` is not
/// assignable to its type, whatever class it is of.
pub proof fn law_impossible_none_tests_are_reported(
    store: &TypeStore,
    left: Node,
    op: CmpOp,
    right: Node,
    l: TypeId,
    left_class: ClassId,
    r: TypeId,
    right_class: ClassId,
)
    requires
        store.wf(),
        op == CmpOp::Is || op == CmpOp::IsNot,
        left.ty == Some(l),
        right.ty == Some(r),
        facts::instance_of(store, l, left_class),
        !facts::is_class(store, left_class, KnownClass::Type),
        valued_members(store, left_class) is None,
        facts::instance_of(store, r, right_class),
        facts::is_class(store, right_class, KnownClass::NoneType),
        valued_members(store, right_class) is None,
        facts::number_rank(store, right_class) is None,
        !facts::related(store, l, left_class, r, right_class),
        !facts::assigns(store, r, l),
    ensures
        checker::comparison_message(store, left, op, right) == Ok::<Option<Seq<char>>, QueryView>(
            Some(
                no_overlap_text(
                    "Condition"@,
                    if op == CmpOp::Is {
                        "False"@
                    } else {
                        "True"@
                    },
                    shown(store, l),
                    shown(store, r),
                ),
            ),
        ),
{
    law_enums_stand_for_their_values(store, l);
    law_enums_stand_for_their_values(store, r);
    law_comparisons_report_what_cannot_be_equal(store, left, op, right, l, r, l, r);
    facts::law_none_is_compared_by_assignability(store, l, left_class, r, right_class, false);
    facts::law_expansion(store, l, 0);
    facts::law_expansion(store, r, 0);
    assert(!facts::is_literal(store, parts(store, l)[0]));
    assert forall|a: TypeId, b: TypeId|
        unnecessary::subtypes(store, l).contains(a) && unnecessary::subtypes(store, r).contains(
            b,
        ) implies !#[trigger] unnecessary::comparable(store, a, b, true, false) by {
        assert(a == l && b == r);
    }
}

// -- containment ------------------------------------------------------------------------

/// The element types of a tuple as they are asked for: all fixed ones in order, then the
/// repeated one.
pub open spec fn all_elements(spec: TupleSpec, asked: Seq<TypeId>) -> bool {
    &&& asked.len() == spec.fixed@.len() + (if spec.variable is Some {
        1int
    } else {
        0int
    })
    &&& forall|i: int| 0 <= i < spec.fixed@.len() ==> #[trigger] asked[i] == spec.fixed@[i]
    &&& spec.variable matches Some(variable) ==> asked[spec.fixed@.len() as int] == variable
}

/// The names of the containers that take part.
pub open spec fn standard_container(name: Seq<char>) -> bool {
    seq![
        "list"@,
        "set"@,
        "frozenset"@,
        "deque"@,
        "tuple"@,
        "dict"@,
        "defaultdict"@,
        "OrderedDict"@,
    ].contains(name)
}

proof fn lemma_container(name: Seq<char>)
    ensures
        unnecessary::container_name(name) == standard_container(name),
{
    let names = seq![
        "list"@,
        "set"@,
        "frozenset"@,
        "deque"@,
        "tuple"@,
        "dict"@,
        "defaultdict"@,
        "OrderedDict"@,
    ];
    assert(names[0] == "list"@ && names[1] == "set"@ && names[2] == "frozenset"@ && names[3]
        == "deque"@ && names[4] == "tuple"@ && names[5] == "dict"@ && names[6] == "defaultdict"@
        && names[7] == "OrderedDict"@);
    if standard_container(name) {
        let i = names.index_of(name);
        assert(names[i] == name);
    }
    if unnecessary::container_name(name) {
        if name == "list"@ {
            assert(names[0] == name);
        } else if name == "set"@ {
            assert(names[1] == name);
        } else if name == "frozenset"@ {
            assert(names[2] == name);
        } else if name == "deque"@ {
            assert(names[3] == name);
        } else if name == "tuple"@ {
            assert(names[4] == name);
        } else if name == "dict"@ {
            assert(names[5] == name);
        } else if name == "defaultdict"@ {
            assert(names[6] == name);
        } else {
            assert(names[7] == name);
        }
    }
}

/// The elements of a tuple are the union of all its element types; those of another
/// standard container are its first type argument; anything else has none.
pub proof fn law_elements_of_containers(
    store: &TypeStore,
    container: TypeId,
    instance: Instance,
    asked: Seq<TypeId>,
)
    requires
        facts::holds(store, container),
        facts::kind(store, container) == TypeKind::NominalInstance(instance),
        instance.tuple matches Some(spec) ==> all_elements(spec, asked),
    ensures
        ({
            let takes_part = instance.class.0 < store.classes@.len() && ({
                let class = store.classes@[instance.class.0 as int];
                class.stdlib && standard_container(class.name@)
            });
            let element = unnecessary::element_form(store, container);
            &&& !takes_part ==> element == Ok::<Option<TypeId>, QueryView>(None)
            &&& takes_part && instance.tuple is Some ==> {
                &&& forall|ty: TypeId|
                    facts::recorded(store, QueryView::Union(asked), Some(ty)) ==> element == Ok::<
                        Option<TypeId>,
                        QueryView,
                    >(Some(ty))
                &&& facts::unasked(store, QueryView::Union(asked)) ==> element == Err::<
                    Option<TypeId>,
                    QueryView,
                >(QueryView::Union(asked))
            }
            &&& takes_part && instance.tuple is None ==> element == Ok::<Option<TypeId>, QueryView>(
                match instance.arguments {
                    Some(arguments) => if arguments@.len() > 0 {
                        Some(arguments@[0])
                    } else {
                        None
                    },
                    None => None,
                },
            )
        }),
{
    if instance.class.0 < store.classes@.len() {
        lemma_container(store.classes@[instance.class.0 as int].name@);
    }
    if let Some(spec) = instance.tuple {
        assert(unnecessary::tuple_elements(spec) =~= asked);
        lemma_answers(store, QueryView::Union(asked));
        assert forall|ty: TypeId|
            facts::recorded(store, QueryView::Union(asked), Some(ty)) implies store.built(
            QueryView::Union(asked),
        ) == Ok::<TypeId, QueryView>(ty) by {}
    }
}

/// Anything but an instance has no elements.
pub proof fn law_only_instances_have_elements(store: &TypeStore, container: TypeId)
    requires
        facts::holds(store, container) ==> !(facts::kind(store, container) is NominalInstance),
    ensures
        unnecessary::element_form(store, container) == Ok::<Option<TypeId>, QueryView>(None),
{
}

pub open spec fn is_none_instance(store: &TypeStore, ty: TypeId) -> bool {
    facts::holds(store, ty) && (facts::kind(store, ty) matches TypeKind::NominalInstance(instance)
        && facts::is_class(store, instance.class, KnownClass::NoneType))
}

/// A value of type `value` may be one of the elements of type `element`.
pub open spec fn may_be_element(store: &TypeStore, element: TypeId, value: TypeId) -> bool {
    ||| facts::is_dynamic(store, element)
    ||| unnecessary::comparable(store, element, value, false, false)
    ||| facts::assigns(store, element, value) && (facts::is_literal(store, element)
        || is_none_instance(store, element) || (facts::holds(store, element) && (facts::kind(
        store,
        element,
    ) is ClassLiteral || facts::kind(store, element) is GenericAlias)))
    ||| facts::assigns(store, value, element) && (facts::is_literal(store, value)
        || is_none_instance(store, value))
}

/// A membership test is reported exactly where no subtype of the left type may be one of
/// the elements; as `False` for `in`, as `True` for `not in`.
pub proof fn law_membership_reports_what_cannot_be_in(
    store: &TypeStore,
    op: CmpOp,
    left: Node,
    right: Node,
    l: TypeId,
    r: TypeId,
    element: TypeId,
)
    requires
        store.wf(),
        left.ty == Some(l),
        right.ty == Some(r),
        !is_never(store, l),
        !is_never(store, r),
        unnecessary::element_form(store, r) == Ok::<Option<TypeId>, QueryView>(Some(element)),
        op == CmpOp::In || op == CmpOp::NotIn,
    ensures
        ({
            let possible = exists|value: TypeId, part: TypeId|
                unnecessary::subtypes(store, l).contains(value) && parts(store, element).contains(
                    part,
                ) && #[trigger] may_be_element(store, part, value);
            checker::contains_message(store, op, left, right) == Ok::<
                Option<Seq<char>>,
                QueryView,
            >(
                if possible {
                    None
                } else {
                    Some(
                        no_overlap_text(
                            "Expression"@,
                            if op == CmpOp::In {
                                "False"@
                            } else {
                                "True"@
                            },
                            shown(store, l),
                            shown(store, element),
                        ),
                    )
                },
            )
        }),
{
    let values = unnecessary::subtypes(store, l);
    let elements = unnecessary::elements_of(store, element);
    lemma_parts(store, element);
    let possible = exists|value: TypeId, part: TypeId|
        values.contains(value) && parts(store, element).contains(part)
            && #[trigger] may_be_element(store, part, value);
    if possible {
        let (value, part): (TypeId, TypeId) = choose|value: TypeId, part: TypeId|
            values.contains(value) && parts(store, element).contains(part)
                && #[trigger] may_be_element(store, part, value);
        let (i, j) = (values.index_of(value), elements.index_of(part));
        lemma_may_be_element(store, part, value);
        assert(checker::may_contain(store, elements[j], value));
        assert(checker::survives(store, element, values[i]));
    } else {
        assert forall|i: int| 0 <= i < values.len() implies !checker::survives(
            store,
            element,
            #[trigger] values[i],
        ) by {
            if checker::survives(store, element, values[i]) {
                let j = choose|j: int|
                    0 <= j < elements.len() && checker::may_contain(
                        store,
                        #[trigger] elements[j],
                        values[i],
                    );
                lemma_may_be_element(store, elements[j], values[i]);
                assert(values.contains(values[i]) && parts(store, element).contains(elements[j]));
                assert(may_be_element(store, elements[j], values[i]));
            }
        }
    }
}

proof fn lemma_may_be_element(store: &TypeStore, element: TypeId, value: TypeId)
    ensures
        may_be_element(store, element, value) == checker::may_contain(store, element, value),
{
}

/// A membership test against a tuple is not reported where the left type may equal one of
/// the tuple's element types, fixed or repeated, that the type checker's union keeps.
pub proof fn law_members_of_tuples_are_not_reported(
    store: &TypeStore,
    op: CmpOp,
    left: Node,
    right: Node,
    l: TypeId,
    r: TypeId,
    instance: Instance,
    asked: Seq<TypeId>,
    union: TypeId,
    at: int,
)
    requires
        store.wf(),
        left.ty == Some(l),
        right.ty == Some(r),
        facts::holds(store, l),
        facts::holds(store, r),
        !is_never(store, l),
        op == CmpOp::In || op == CmpOp::NotIn,
        facts::kind(store, r) == TypeKind::NominalInstance(instance),
        instance.class.0 < store.classes@.len(),
        store.classes@[instance.class.0 as int].stdlib,
        store.classes@[instance.class.0 as int].name@ == "tuple"@,
        instance.tuple matches Some(spec) && all_elements(spec, asked),
        facts::recorded(store, QueryView::Union(asked), Some(union)),
        0 <= at < asked.len(),
        parts(store, union).contains(asked[at]),
        unnecessary::subtypes(store, l).contains(l),
        unnecessary::comparable(store, asked[at], l, false, false),
    ensures
        checker::contains_message(store, op, left, right) == Ok::<Option<Seq<char>>, QueryView>(
            None,
        ),
{
    law_elements_of_containers(store, r, instance, asked);
    lemma_container("tuple"@);
    law_membership_reports_what_cannot_be_in(store, op, left, right, l, r, union);
    assert(may_be_element(store, asked[at], l));
}

/// A membership test without types, or of `Never`, or against anything without elements,
/// is not reported.
pub proof fn law_other_memberships_are_exempt(
    store: &TypeStore,
    op: CmpOp,
    left: Node,
    right: Node,
)
    requires
        left.ty is None || right.ty is None || is_never(store, left.ty->0) || is_never(
            store,
            right.ty->0,
        ) || unnecessary::element_form(store, right.ty->0) == Ok::<Option<TypeId>, QueryView>(None),
    ensures
        checker::contains_message(store, op, left, right) == Ok::<Option<Seq<char>>, QueryView>(
            None,
        ),
{
}

/// What is open for an operand or a container is asked for, the left operand first; no
/// comparison with a module or without types asks or is reported.
pub proof fn law_open_operands_are_asked_for(
    store: &TypeStore,
    op: CmpOp,
    left: Node,
    right: Node,
    l: TypeId,
    r: TypeId,
    query: QueryView,
)
    requires
        left.ty == Some(l),
        right.ty == Some(r),
        facts::holds(store, l),
        facts::holds(store, r),
    ensures
        ({
            let module = facts::kind(store, l) is ModuleLiteral || facts::kind(
                store,
                r,
            ) is ModuleLiteral;
            let (a, b) = (unnecessary::operand_form(store, l), unnecessary::operand_form(store, r));
            let compared = checker::comparison_message(store, left, op, right);
            &&& module ==> compared == Ok::<Option<Seq<char>>, QueryView>(None)
            &&& !module && a == Err::<TypeId, QueryView>(query) ==> compared == Err::<
                Option<Seq<char>>,
                QueryView,
            >(query)
            &&& !module && a is Ok && b == Err::<TypeId, QueryView>(query) ==> compared == Err::<
                Option<Seq<char>>,
                QueryView,
            >(query)
            &&& !is_never(store, l) && !is_never(store, r) && unnecessary::element_form(store, r)
                == Err::<Option<TypeId>, QueryView>(query) ==> checker::contains_message(
                store,
                op,
                left,
                right,
            ) == Err::<Option<Seq<char>>, QueryView>(query)
        }),
        checker::comparison_message(store, Node { ty: None, ..left }, op, right) == Ok::<
            Option<Seq<char>>,
            QueryView,
        >(None),
        checker::comparison_message(store, left, op, Node { ty: None, ..right }) == Ok::<
            Option<Seq<char>>,
            QueryView,
        >(None),
{
}

// -- class checks -----------------------------------------------------------------------

/// The call is `isinstance(x, c)` or `issubclass(x, c)`.
pub open spec fn checks_class(call: Node, function: ClassInfoFunction) -> bool {
    &&& call.kind matches NodeKind::Call { keywords } && keywords == 0
    &&& call.children@.len() == 3
    &&& call.children@[0].kind matches NodeKind::Name(name) && name@ == match function {
        ClassInfoFunction::IsInstance => "isinstance"@,
        ClassInfoFunction::IsSubclass => "issubclass"@,
    }
}

/// The words for a class check.
pub open spec fn class_check_words(
    function: ClassInfoFunction,
    outcome: Seq<char>,
    subject: Seq<char>,
    class: Seq<char>,
) -> Seq<char> {
    match function {
        ClassInfoFunction::IsInstance => "Unnecessary isinstance call; \""@ + subject + outcome
            + "an instance of \""@ + class + "\""@,
        ClassInfoFunction::IsSubclass => "Unnecessary issubclass call; \""@ + subject + outcome
            + "a subclass of \""@ + class + "\""@,
    }
}

/// The answers that a class check goes by are on record: the constraints of its classinfo
/// in both polarities, the subject narrowed by the one, and by the negation of the other.
pub open spec fn narrowing_recorded(
    store: &TypeStore,
    function: ClassInfoFunction,
    subject: TypeId,
    classinfo: TypeId,
    constraint: TypeId,
    excluded: TypeId,
    positive: TypeId,
    rest: TypeId,
    negative: TypeId,
) -> bool {
    let strict = store.strict_generic_narrowing;
    &&& facts::recorded(
        store,
        QueryView::Constraint { function, classinfo, positive: true, generic_filtering: !strict },
        Some(constraint),
    )
    &&& facts::recorded(
        store,
        QueryView::Constraint { function, classinfo, positive: false, generic_filtering: false },
        Some(excluded),
    )
    &&& strict ==> facts::recorded(
        store,
        QueryView::Intersection { left: subject, right: constraint },
        Some(positive),
    )
    &&& !strict ==> facts::recorded(
        store,
        QueryView::FilterGeneric { subject, constraint },
        Some(positive),
    )
    &&& facts::recorded(store, QueryView::Negation(excluded), Some(rest))
    &&& facts::recorded(
        store,
        QueryView::Intersection { left: subject, right: rest },
        Some(negative),
    )
}

/// A class check is reported exactly where the type checker answered `Never` for one of its
/// two outcomes: as never true where that is the subject narrowed by the class, as always
/// true where it is the subject without the class. The class is shown as its instances.
pub proof fn law_class_checks_report_impossible_outcomes(
    store: &TypeStore,
    call: Node,
    function: ClassInfoFunction,
    subject: TypeId,
    classinfo: TypeId,
    constraint: TypeId,
    excluded: TypeId,
    positive: TypeId,
    rest: TypeId,
    negative: TypeId,
    class: Option<TypeId>,
)
    requires
        checks_class(call, function),
        call.children@[1].ty == Some(subject),
        call.children@[2].ty == Some(classinfo),
        narrowing_recorded(
            store,
            function,
            subject,
            classinfo,
            constraint,
            excluded,
            positive,
            rest,
            negative,
        ),
        facts::recorded(
            store,
            QueryView::Constraint {
                function: ClassInfoFunction::IsInstance,
                classinfo,
                positive: true,
                generic_filtering: true,
            },
            class,
        ),
    ensures
        ({
            let against = match class {
                Some(class) => class,
                None => constraint,
            };
            checker::isinstance_message(store, call) == Ok::<Option<Seq<char>>, QueryView>(
                if is_never(store, negative) {
                    Some(
                        class_check_words(
                            function,
                            "\" is always "@,
                            shown(store, subject),
                            shown(store, against),
                        ),
                    )
                } else if is_never(store, positive) {
                    Some(
                        class_check_words(
                            function,
                            "\" is never "@,
                            shown(store, subject),
                            shown(store, against),
                        ),
                    )
                } else {
                    None
                },
            )
        }),
{
    let strict = store.strict_generic_narrowing;
    lemma_class_check_names();
    facts::law_the_first_record_answers(
        store,
        QueryView::Constraint { function, classinfo, positive: true, generic_filtering: !strict },
        Some(constraint),
    );
    facts::law_the_first_record_answers(
        store,
        QueryView::Constraint { function, classinfo, positive: false, generic_filtering: false },
        Some(excluded),
    );
    facts::law_the_first_record_answers(
        store,
        QueryView::Intersection { left: subject, right: constraint },
        Some(positive),
    );
    facts::law_the_first_record_answers(
        store,
        QueryView::FilterGeneric { subject, constraint },
        Some(positive),
    );
    facts::law_the_first_record_answers(store, QueryView::Negation(excluded), Some(rest));
    facts::law_the_first_record_answers(
        store,
        QueryView::Intersection { left: subject, right: rest },
        Some(negative),
    );
    facts::law_the_first_record_answers(
        store,
        QueryView::Constraint {
            function: ClassInfoFunction::IsInstance,
            classinfo,
            positive: true,
            generic_filtering: true,
        },
        class,
    );
}

proof fn lemma_class_check_names()
    ensures
        "isinstance"@ != "issubclass"@,
{
    reveal_strlit("isinstance");
    reveal_strlit("issubclass");
    assert("isinstance"@[2] == 'i' && "issubclass"@[2] == 's');
}

/// The queries of a class check are asked one after the other: the first that is not on
/// record is asked for, and a classinfo without a constraint ends the check.
pub proof fn law_class_checks_ask_for_what_is_missing(
    store: &TypeStore,
    call: Node,
    function: ClassInfoFunction,
    subject: TypeId,
    classinfo: TypeId,
)
    requires
        checks_class(call, function),
        call.children@[1].ty == Some(subject),
        call.children@[2].ty == Some(classinfo),
    ensures
        ({
            let strict = store.strict_generic_narrowing;
            let first = QueryView::Constraint {
                function,
                classinfo,
                positive: true,
                generic_filtering: !strict,
            };
            let second = QueryView::Constraint {
                function,
                classinfo,
                positive: false,
                generic_filtering: false,
            };
            let message = checker::isinstance_message(store, call);
            &&& facts::unasked(store, first) ==> message == Err::<Option<Seq<char>>, QueryView>(
                first,
            )
            &&& facts::recorded(store, first, None) ==> message == Ok::<
                Option<Seq<char>>,
                QueryView,
            >(None)
            &&& forall|constraint: TypeId|
                facts::recorded(store, first, Some(constraint)) ==> {
                    &&& facts::unasked(store, second) ==> message == Err::<
                        Option<Seq<char>>,
                        QueryView,
                    >(second)
                    &&& facts::recorded(store, second, None) ==> message == Ok::<
                        Option<Seq<char>>,
                        QueryView,
                    >(None)
                }
        }),
{
    let strict = store.strict_generic_narrowing;
    let first = QueryView::Constraint {
        function,
        classinfo,
        positive: true,
        generic_filtering: !strict,
    };
    let second = QueryView::Constraint {
        function,
        classinfo,
        positive: false,
        generic_filtering: false,
    };
    lemma_class_check_names();
    facts::law_the_first_record_answers(store, first, None);
    facts::law_the_first_record_answers(store, second, None);
    assert forall|constraint: TypeId|
        facts::recorded(store, first, Some(constraint)) implies store.asked(first) == Ok::<
        Option<TypeId>,
        QueryView,
    >(Some(constraint)) by {
        facts::law_the_first_record_answers(store, first, Some(constraint));
    }
}

/// Past the constraints a class check asks for its two outcomes in turn, and for the class
/// only where one of them is impossible.
pub proof fn law_class_checks_ask_for_their_outcomes(
    store: &TypeStore,
    call: Node,
    function: ClassInfoFunction,
    subject: TypeId,
    classinfo: TypeId,
    constraint: TypeId,
    excluded: TypeId,
    positive: TypeId,
    rest: TypeId,
    negative: TypeId,
)
    requires
        checks_class(call, function),
        call.children@[1].ty == Some(subject),
        call.children@[2].ty == Some(classinfo),
        facts::recorded(
            store,
            QueryView::Constraint {
                function,
                classinfo,
                positive: true,
                generic_filtering: !store.strict_generic_narrowing,
            },
            Some(constraint),
        ),
        facts::recorded(
            store,
            QueryView::Constraint { function, classinfo, positive: false, generic_filtering: false },
            Some(excluded),
        ),
    ensures
        ({
            let first = if store.strict_generic_narrowing {
                QueryView::Intersection { left: subject, right: constraint }
            } else {
                QueryView::FilterGeneric { subject, constraint }
            };
            let second = QueryView::Negation(excluded);
            let third = QueryView::Intersection { left: subject, right: rest };
            let last = QueryView::Constraint {
                function: ClassInfoFunction::IsInstance,
                classinfo,
                positive: true,
                generic_filtering: true,
            };
            let message = checker::isinstance_message(store, call);
            let impossible = is_never(store, positive) || is_never(store, negative);
            &&& unbuilt(store, first) ==> message == Err::<Option<Seq<char>>, QueryView>(first)
            &&& facts::recorded(store, first, Some(positive)) ==> {
                &&& unbuilt(store, second) ==> message == Err::<Option<Seq<char>>, QueryView>(
                    second,
                )
                &&& facts::recorded(store, second, Some(rest)) ==> {
                    &&& unbuilt(store, third) ==> message == Err::<Option<Seq<char>>, QueryView>(
                        third,
                    )
                    &&& facts::recorded(store, third, Some(negative)) ==> {
                        &&& !impossible ==> message == Ok::<Option<Seq<char>>, QueryView>(None)
                        &&& impossible && facts::unasked(store, last) ==> message == Err::<
                            Option<Seq<char>>,
                            QueryView,
                        >(last)
                    }
                }
            }
        }),
{
    let strict = store.strict_generic_narrowing;
    lemma_class_check_names();
    facts::law_the_first_record_answers(
        store,
        QueryView::Constraint { function, classinfo, positive: true, generic_filtering: !strict },
        Some(constraint),
    );
    facts::law_the_first_record_answers(
        store,
        QueryView::Constraint { function, classinfo, positive: false, generic_filtering: false },
        Some(excluded),
    );
    facts::law_the_first_record_answers(
        store,
        QueryView::Intersection { left: subject, right: constraint },
        Some(positive),
    );
    facts::law_the_first_record_answers(
        store,
        QueryView::FilterGeneric { subject, constraint },
        Some(positive),
    );
    facts::law_the_first_record_answers(store, QueryView::Negation(excluded), Some(rest));
    facts::law_the_first_record_answers(
        store,
        QueryView::Intersection { left: subject, right: rest },
        Some(negative),
    );
    facts::law_the_first_record_answers(
        store,
        QueryView::Constraint {
            function: ClassInfoFunction::IsInstance,
            classinfo,
            positive: true,
            generic_filtering: true,
        },
        None,
    );
}

/// The type checker has built nothing for the query.
pub open spec fn unbuilt(store: &TypeStore, query: QueryView) -> bool {
    facts::unasked(store, query) || facts::recorded(store, query, None)
}

/// Any other call, and a class check without types, is not reported.
pub proof fn law_other_calls_are_exempt(store: &TypeStore, call: Node)
    requires
        (!checks_class(call, ClassInfoFunction::IsInstance) && !checks_class(
            call,
            ClassInfoFunction::IsSubclass,
        )) || call.children@[1].ty is None || call.children@[2].ty is None,
    ensures
        checker::isinstance_message(store, call) == Ok::<Option<Seq<char>>, QueryView>(None),
{
}

// -- conditions -------------------------------------------------------------------------

/// The values of the type are coroutine objects.
pub open spec fn is_coroutine(store: &TypeStore, ty: TypeId) -> bool {
    facts::holds(store, ty) && (facts::kind(store, ty) matches TypeKind::NominalInstance(instance)
        && facts::is_class(store, instance.class, KnownClass::CoroutineType))
}

/// A condition is reported exactly where every subtype of its type is a function, or every
/// one a coroutine, and the type is not `Never`.
pub proof fn law_conditions_report_functions_and_coroutines(store: &TypeStore, ty: TypeId)
    ensures
        ({
            let functions = forall|sub: TypeId| #[trigger]
                unnecessary::subtypes(store, ty).contains(sub) ==> facts::holds(store, sub)
                    && facts::callable_kind(facts::kind(store, sub));
            let coroutines = forall|sub: TypeId| #[trigger]
                unnecessary::subtypes(store, ty).contains(sub) ==> is_coroutine(store, sub);
            checker::condition_message(store, ty) == if is_never(store, ty) {
                None
            } else if functions {
                Some("Conditional expression references function which always evaluates to True"@)
            } else if coroutines {
                Some("Conditional expression references coroutine which always evaluates to True"@)
            } else {
                None
            }
        }),
{
    let subs = unnecessary::subtypes(store, ty);
    let functions = forall|sub: TypeId| #[trigger]
        subs.contains(sub) ==> facts::holds(store, sub) && facts::callable_kind(
            facts::kind(store, sub),
        );
    let coroutines = forall|sub: TypeId| #[trigger]
        subs.contains(sub) ==> is_coroutine(store, sub);
    assert(functions == checker::always_function(store, ty)) by {
        if functions {
            assert forall|i: int| 0 <= i < subs.len() implies unnecessary::function_or_overloaded(
                store.kind_of(#[trigger] subs[i]),
            ) by {
                assert(subs.contains(subs[i]));
            }
        }
        if checker::always_function(store, ty) {
            assert forall|sub: TypeId| #[trigger] subs.contains(sub) implies facts::holds(
                store,
                sub,
            ) && facts::callable_kind(facts::kind(store, sub)) by {
                let i = subs.index_of(sub);
                assert(unnecessary::function_or_overloaded(store.kind_of(subs[i])));
            }
        }
    }
    assert(coroutines == checker::always_coroutine(store, ty)) by {
        if coroutines {
            assert forall|i: int| 0 <= i < subs.len() implies checker::coroutine(
                store,
                #[trigger] subs[i],
            ) by {
                assert(subs.contains(subs[i]));
            }
        }
        if checker::always_coroutine(store, ty) {
            assert forall|sub: TypeId| #[trigger] subs.contains(sub) implies is_coroutine(
                store,
                sub,
            ) by {
                let i = subs.index_of(sub);
                assert(checker::coroutine(store, subs[i]));
            }
        }
    }
}

} // verus!
