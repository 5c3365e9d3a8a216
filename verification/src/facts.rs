//! What the rules come down to in terms of the data of a store alone.
//!
//! The predicates here read the fields of a store and nothing else; the laws say what the
//! checks make of them.

use vstd::prelude::*;

use crate::types;
use crate::types::{
    ClassId, FunctionId, KnownClass, LiteralKind, QueryView, TypeId,
    TypeKind, TypeStore, TypeVarBound,
};
use crate::unnecessary;

verus! {

// -- the data ---------------------------------------------------------------------------

/// The store holds the type.
pub open spec fn holds(store: &TypeStore, ty: TypeId) -> bool {
    ty.0 < store.types@.len()
}

/// What the type is.
pub open spec fn kind(store: &TypeStore, ty: TypeId) -> TypeKind {
    store.types@[ty.0 as int].kind
}

/// The type checker listed `target` among the types that `source` is assignable to.
pub open spec fn assigns(store: &TypeStore, source: TypeId, target: TypeId) -> bool {
    holds(store, source) && store.types@[source.0 as int].assignable_to@.contains(target)
}

/// The store holds the class, and it is the known one.
pub open spec fn is_class(store: &TypeStore, class: ClassId, known: KnownClass) -> bool {
    class.0 < store.classes@.len() && store.classes@[class.0 as int].known == known
}

/// The known class stands in the MRO of the class.
pub open spec fn in_mro(store: &TypeStore, class: ClassId, known: KnownClass) -> bool {
    class.0 < store.classes@.len() && exists|i: int|
        0 <= i < store.classes@[class.0 as int].mro@.len() && is_class(
            store,
            #[trigger] store.classes@[class.0 as int].mro@[i],
            known,
        )
}

pub open spec fn in_stdlib(store: &TypeStore, class: ClassId) -> bool {
    class.0 < store.classes@.len() && store.classes@[class.0 as int].stdlib
}

/// The type is that of the instances of the class.
pub open spec fn instance_of(store: &TypeStore, ty: TypeId, class: ClassId) -> bool {
    holds(store, ty) && (kind(store, ty) matches TypeKind::NominalInstance(instance)
        && instance.class == class)
}

pub open spec fn is_literal(store: &TypeStore, ty: TypeId) -> bool {
    holds(store, ty) && kind(store, ty) is LiteralValue
}

/// The values of the type are instances of the class: an instance type, or a literal of it.
pub open spec fn value_of(store: &TypeStore, ty: TypeId, class: ClassId) -> bool {
    ||| instance_of(store, ty, class)
    ||| holds(store, ty) && (kind(store, ty) matches TypeKind::LiteralValue {
        fallback: Some(instance),
        ..
    } && instance_of(store, instance, class))
}

/// The type that a value of a class stands for when type arguments do not count.
pub open spec fn without_arguments(store: &TypeStore, ty: TypeId, class: ClassId) -> TypeId {
    if is_literal(store, ty) {
        ty
    } else if class.0 < store.classes@.len() {
        store.classes@[class.0 as int].instance
    } else {
        store.unknown
    }
}

/// Values of two classes one of which is assignable to the other, type arguments aside.
pub open spec fn related(
    store: &TypeStore,
    left: TypeId,
    left_class: ClassId,
    right: TypeId,
    right_class: ClassId,
) -> bool {
    let a = without_arguments(store, left, left_class);
    let b = without_arguments(store, right, right_class);
    assigns(store, a, b) || assigns(store, b, a)
}

/// The first numeric class of int, float and complex that is in the MRO.
pub open spec fn number_rank(store: &TypeStore, class: ClassId) -> Option<int> {
    if in_mro(store, class, KnownClass::Int) {
        Some(0)
    } else if in_mro(store, class, KnownClass::Float) {
        Some(1)
    } else if in_mro(store, class, KnownClass::Complex) {
        Some(2)
    } else {
        None
    }
}

/// Numbers of different rank.
pub open spec fn different_ranks(store: &TypeStore, a: ClassId, b: ClassId) -> bool {
    number_rank(store, a) is Some && number_rank(store, b) is Some && number_rank(store, a)
        != number_rank(store, b)
}

/// The class of the type defines `__eq__`, by more than being a dataclass.
pub open spec fn has_eq(store: &TypeStore, ty: TypeId, class: ClassId) -> bool {
    &&& holds(store, ty)
    &&& store.types@[ty.0 as int].defines_eq
    &&& class.0 < store.classes@.len() && (store.classes@[class.0 as int].body matches Some(body)
        && body.dataclass) ==> store.classes@[class.0 as int].body->Some_0.binds_eq
}

/// The type checker's answer to a query that is on record: the first one counts.
pub open spec fn recorded(store: &TypeStore, query: QueryView, answer: Option<TypeId>) -> bool {
    exists|i: int| recorded_at(store, query, answer, i)
}

pub open spec fn recorded_at(
    store: &TypeStore,
    query: QueryView,
    answer: Option<TypeId>,
    i: int,
) -> bool {
    &&& 0 <= i < store.answers@.len()
    &&& store.answers@[i].0@ == query
    &&& store.answers@[i].1 == answer
    &&& forall|j: int| 0 <= j < i ==> (#[trigger] store.answers@[j]).0@ != query
}

/// A query that is not on record.
pub open spec fn unasked(store: &TypeStore, query: QueryView) -> bool {
    forall|i: int| 0 <= i < store.answers@.len() ==> (#[trigger] store.answers@[i]).0@ != query
}

// -- the data and its readers -----------------------------------------------------------

/// The readers of a store say what its fields hold; outside the lists they say the least.
pub proof fn law_readers_read_the_fields(
    store: &TypeStore,
    ty: TypeId,
    other: TypeId,
    class: ClassId,
    function: FunctionId,
    known: KnownClass,
)
    ensures
        holds(store, ty) ==> store.kind_of(ty) == kind(store, ty),
        !holds(store, ty) ==> store.kind_of(ty) is Opaque,
        store.assignable(ty, other) == assigns(store, ty, other),
        class.0 < store.classes@.len() ==> store.class_of(class) == Some(
            store.classes@[class.0 as int],
        ),
        class.0 >= store.classes@.len() ==> store.class_of(class) is None,
        function.0 < store.functions@.len() ==> store.function_of(function) == Some(
            store.functions@[function.0 as int],
        ),
        function.0 >= store.functions@.len() ==> store.function_of(function) is None,
        known != KnownClass::Other ==> (store.known_of(class) == known) == is_class(
            store,
            class,
            known,
        ),
        known != KnownClass::Other ==> store.inherits(class, known) == in_mro(store, class, known),
        holds(store, ty) ==> types::display_of(store, ty)
            == store.types@[ty.0 as int].display@ && types::long_display_of(store, ty)
            == store.types@[ty.0 as int].long_display@,
{
    if known != KnownClass::Other {
        lemma_mro(store, class, known);
    }
}

proof fn lemma_mro(store: &TypeStore, class: ClassId, known: KnownClass)
    requires
        known != KnownClass::Other,
    ensures
        store.inherits(class, known) == in_mro(store, class, known),
{
    if let Some(node) = store.class_of(class) {
        if store.inherits(class, known) {
            let i = choose|i: int|
                0 <= i < node.mro@.len() && store.known_of(#[trigger] node.mro@[i]) == known;
            assert(is_class(store, store.classes@[class.0 as int].mro@[i], known));
        }
        if in_mro(store, class, known) {
            let i = choose|i: int|
                0 <= i < store.classes@[class.0 as int].mro@.len() && is_class(
                    store,
                    #[trigger] store.classes@[class.0 as int].mro@[i],
                    known,
                );
            assert(store.known_of(node.mro@[i]) == known);
        }
    }
}

proof fn lemma_ranks(store: &TypeStore, class: ClassId)
    ensures
        unnecessary::numeric_rank(store, class) == number_rank(store, class),
{
    lemma_mro(store, class, KnownClass::Int);
    lemma_mro(store, class, KnownClass::Float);
    lemma_mro(store, class, KnownClass::Complex);
}

/// The answer to a query is the first one on record; without one the query is open, and so
/// is a query for a type that the type checker could not build.
pub proof fn law_the_first_record_answers(
    store: &TypeStore,
    query: QueryView,
    answer: Option<TypeId>,
)
    ensures
        recorded(store, query, answer) ==> store.asked(query) == Ok::<Option<TypeId>, QueryView>(
            answer,
        ),
        recorded(store, query, answer) && answer is Some ==> store.built(query) == Ok::<
            TypeId,
            QueryView,
        >(answer->0),
        recorded(store, query, None) ==> store.built(query) == Err::<TypeId, QueryView>(query),
        unasked(store, query) ==> store.asked(query) == Err::<Option<TypeId>, QueryView>(query)
            && store.built(query) == Err::<TypeId, QueryView>(query),
{
    if recorded(store, query, answer) {
        let i = choose|i: int| recorded_at(store, query, answer, i);
        lemma_first_answer(store, query, 0, i);
    }
    if recorded(store, query, None) {
        let i = choose|i: int| recorded_at(store, query, None, i);
        lemma_first_answer(store, query, 0, i);
    }
    if unasked(store, query) {
        lemma_no_answer(store, query, 0);
    }
}

proof fn lemma_first_answer(store: &TypeStore, query: QueryView, from: int, at: int)
    requires
        0 <= from <= at < store.answers@.len(),
        store.answers@[at].0@ == query,
        forall|j: int| from <= j < at ==> (#[trigger] store.answers@[j]).0@ != query,
    ensures
        types::first_answer(store.answers@, query, from) == Some(store.answers@[at].1),
    decreases at - from,
{
    if from < at {
        lemma_first_answer(store, query, from + 1, at);
    }
}

proof fn lemma_no_answer(store: &TypeStore, query: QueryView, from: int)
    requires
        0 <= from,
        unasked(store, query),
    ensures
        types::first_answer(store.answers@, query, from) is None,
    decreases store.answers@.len() - from,
{
    if from < store.answers@.len() {
        lemma_no_answer(store, query, from + 1);
    }
}

// -- comparability ----------------------------------------------------------------------

/// Neither type takes part in comparisons as something else: no enum complement, no
/// intersection.
pub open spec fn plain(store: &TypeStore, ty: TypeId) -> bool {
    holds(store, ty) ==> !(kind(store, ty) is EnumComplement) && !(kind(
        store,
        ty,
    ) is Intersection)
}

/// A value of a class that is no class object.
pub open spec fn ordinary_value(store: &TypeStore, ty: TypeId, class: ClassId) -> bool {
    value_of(store, ty, class) && (instance_of(store, ty, class) ==> !is_class(
        store,
        class,
        KnownClass::Type,
    ))
}

/// Values of related classes are comparable.
pub proof fn law_related_values_are_comparable(
    store: &TypeStore,
    left: TypeId,
    left_class: ClassId,
    right: TypeId,
    right_class: ClassId,
    is_operator: bool,
    strict: bool,
)
    requires
        store.wf(),
        ordinary_value(store, left, left_class),
        value_of(store, right, right_class),
        related(store, left, left_class, right, right_class),
    ensures
        unnecessary::comparable(store, left, right, is_operator, strict),
{
}

/// Numbers of different rank are comparable, except for a literal and a narrowed number.
pub proof fn law_ranks_are_promoted(
    store: &TypeStore,
    left: TypeId,
    left_class: ClassId,
    right: TypeId,
    right_class: ClassId,
    is_operator: bool,
    strict: bool,
)
    requires
        store.wf(),
        ordinary_value(store, left, left_class),
        value_of(store, right, right_class),
        different_ranks(store, left_class, right_class),
        !(strict && (is_literal(store, left) || is_literal(store, right))),
    ensures
        unnecessary::comparable(store, left, right, is_operator, strict),
{
    lemma_ranks(store, left_class);
    lemma_ranks(store, right_class);
}

/// Under `is` and `is not` a value of a class, of the standard library or not, is comparable
/// with `None` exactly where `None` is assignable to its type; unrelated classes otherwise.
pub proof fn law_none_is_compared_by_assignability(
    store: &TypeStore,
    left: TypeId,
    left_class: ClassId,
    right: TypeId,
    right_class: ClassId,
    strict: bool,
)
    requires
        store.wf(),
        ordinary_value(store, left, left_class),
        instance_of(store, right, right_class),
        is_class(store, right_class, KnownClass::NoneType),
        !related(store, left, left_class, right, right_class),
        !different_ranks(store, left_class, right_class) || (strict && is_literal(store, left)),
    ensures
        unnecessary::comparable(store, left, right, true, strict) == assigns(store, right, left),
{
    lemma_ranks(store, left_class);
    lemma_ranks(store, right_class);
}

/// A `bool` and an int may be equal where the int is no literal, or a literal that is the
/// number of the bool; any other two unrelated classes of the standard library may not.
pub proof fn law_unrelated_stdlib_values(
    store: &TypeStore,
    left: TypeId,
    left_class: ClassId,
    right: TypeId,
    right_class: ClassId,
    is_operator: bool,
    strict: bool,
)
    requires
        store.wf(),
        ordinary_value(store, left, left_class),
        value_of(store, right, right_class),
        in_stdlib(store, left_class),
        in_stdlib(store, right_class),
        !related(store, left, left_class, right, right_class),
        !different_ranks(store, left_class, right_class) || (strict && (is_literal(store, left)
            || is_literal(store, right))),
        !(is_operator && is_class(store, right_class, KnownClass::NoneType) && instance_of(
            store,
            right,
            right_class,
        )),
    ensures
        unnecessary::comparable(store, left, right, is_operator, strict) == if is_class(
            store,
            left_class,
            KnownClass::Bool,
        ) && is_class(store, right_class, KnownClass::Int) {
            may_be_number(store, left, right)
        } else if is_class(store, left_class, KnownClass::Int) && is_class(
            store,
            right_class,
            KnownClass::Bool,
        ) {
            may_be_number(store, right, left)
        } else {
            false
        },
{
    lemma_ranks(store, left_class);
    lemma_ranks(store, right_class);
}

/// The number that a literal stands for.
pub open spec fn literal_number(store: &TypeStore, ty: TypeId) -> Option<int> {
    match kind(store, ty) {
        TypeKind::LiteralValue { value: LiteralKind::Int(n), .. } => Some(n as int),
        TypeKind::LiteralValue { value: LiteralKind::Bool(true), .. } => Some(1),
        TypeKind::LiteralValue { value: LiteralKind::Bool(false), .. } => Some(0),
        _ => None,
    }
}

/// A bool of the one type may be an int of the other.
pub open spec fn may_be_number(store: &TypeStore, flag: TypeId, number: TypeId) -> bool {
    literal_number(store, number) matches Some(n) ==> match kind(store, flag) {
        TypeKind::LiteralValue { value: LiteralKind::Bool(true), .. } => n == 1,
        TypeKind::LiteralValue { value: LiteralKind::Bool(false), .. } => n == 0,
        _ => n == 0 || n == 1,
    }
}

/// Unrelated values one of which is of a class outside the standard library are comparable
/// exactly where the left class has an `__eq__`.
pub proof fn law_unrelated_values_need_eq(
    store: &TypeStore,
    left: TypeId,
    left_class: ClassId,
    right: TypeId,
    right_class: ClassId,
    is_operator: bool,
    strict: bool,
)
    requires
        store.wf(),
        ordinary_value(store, left, left_class),
        value_of(store, right, right_class),
        !in_stdlib(store, left_class) || !in_stdlib(store, right_class),
        !related(store, left, left_class, right, right_class),
        !different_ranks(store, left_class, right_class) || (strict && (is_literal(store, left)
            || is_literal(store, right))),
        !(is_operator && is_class(store, right_class, KnownClass::NoneType) && instance_of(
            store,
            right,
            right_class,
        )),
    ensures
        unnecessary::comparable(store, left, right, is_operator, strict) == has_eq(
            store,
            left,
            left_class,
        ),
{
    lemma_ranks(store, left_class);
    lemma_ranks(store, right_class);
}

/// The kinds whose values are functions.
pub open spec fn callable_kind(kind: TypeKind) -> bool {
    match kind {
        TypeKind::FunctionLiteral(_) | TypeKind::BoundMethod { .. } | TypeKind::KnownBoundMethod
        | TypeKind::WrapperDescriptor | TypeKind::Callable { .. } | TypeKind::DataclassDecorator
        | TypeKind::DataclassTransformer => true,
        _ => false,
    }
}

/// `Any` and `Unknown` are comparable with everything that is plain; `Never` with nothing
/// else; a module only with itself; a function with anything else.
pub proof fn law_special_types(
    store: &TypeStore,
    left: TypeId,
    right: TypeId,
    is_operator: bool,
    strict: bool,
)
    requires
        store.wf(),
        holds(store, left),
        holds(store, right),
        plain(store, left),
        plain(store, right),
    ensures
        ({
            let (a, b) = (kind(store, left), kind(store, right));
            let answer = unnecessary::comparable(store, left, right, is_operator, strict);
            let dynamic = a is Dynamic || b is Dynamic;
            let never = a is Never || b is Never;
            let module = a is ModuleLiteral || b is ModuleLiteral;
            &&& dynamic ==> answer
            &&& !dynamic && never ==> !answer
            &&& !dynamic && !never && module ==> (answer <==> match (a, b) {
                (TypeKind::ModuleLiteral(m), TypeKind::ModuleLiteral(n)) => m == n,
                _ => false,
            })
            &&& !dynamic && !never && !module && (callable_kind(a) || callable_kind(b)) ==> answer
        }),
{
}

/// An intersection is comparable where one of its concrete elements is, as a narrowed one,
/// or where it has none.
pub proof fn law_intersections_are_compared_by_element(
    store: &TypeStore,
    left: TypeId,
    right: TypeId,
    is_operator: bool,
    strict: bool,
)
    requires
        store.wf(),
        holds(store, left),
        holds(store, right),
    ensures
        kind(store, left) matches TypeKind::EnumComplement(inner) ==> unnecessary::comparable(
            store,
            left,
            right,
            is_operator,
            strict,
        ) == unnecessary::comparable(store, inner, right, is_operator, true),
        !(kind(store, left) is EnumComplement) ==> (kind(
            store,
            right,
        ) matches TypeKind::EnumComplement(inner) ==> unnecessary::comparable(
            store,
            left,
            right,
            is_operator,
            strict,
        ) == unnecessary::comparable(store, left, inner, is_operator, true)),
        !(kind(store, right) is EnumComplement) ==> (kind(
            store,
            left,
        ) matches TypeKind::Intersection(positive) ==> unnecessary::comparable(
            store,
            left,
            right,
            is_operator,
            strict,
        ) == (all_dynamic(store, positive@) || exists|i: int|
            0 <= i < positive@.len() && !is_dynamic(store, #[trigger] positive@[i])
                && unnecessary::comparable(store, positive@[i], right, is_operator, true))),
        plain(store, left) ==> (kind(
            store,
            right,
        ) matches TypeKind::Intersection(positive) ==> unnecessary::comparable(
            store,
            left,
            right,
            is_operator,
            strict,
        ) == (all_dynamic(store, positive@) || exists|i: int|
            0 <= i < positive@.len() && !is_dynamic(store, #[trigger] positive@[i])
                && unnecessary::comparable(store, left, positive@[i], is_operator, true))),
{
    types::lemma_parts_before(store, left);
    types::lemma_parts_before(store, right);
    if let TypeKind::Intersection(positive) = kind(store, left) {
        lemma_dynamic(store, positive@);
    }
    if let TypeKind::Intersection(positive) = kind(store, right) {
        lemma_dynamic(store, positive@);
    }
}

pub open spec fn is_dynamic(store: &TypeStore, ty: TypeId) -> bool {
    holds(store, ty) && kind(store, ty) is Dynamic
}

pub open spec fn all_dynamic(store: &TypeStore, types: Seq<TypeId>) -> bool {
    forall|i: int| 0 <= i < types.len() ==> is_dynamic(store, #[trigger] types[i])
}

proof fn lemma_dynamic(store: &TypeStore, types: Seq<TypeId>)
    ensures
        forall|i: int|
            0 <= i < types.len() ==> is_dynamic(store, #[trigger] types[i])
                == unnecessary::dynamic(store, types[i]),
{
}

/// The class of a class object; the second part tells whether it is known.
pub open spec fn class_object_of(store: &TypeStore, ty: TypeId, class: Option<ClassId>) -> bool {
    holds(store, ty) && match kind(store, ty) {
        TypeKind::ClassLiteral(own) => class == Some(own),
        TypeKind::GenericAlias(own) => class == Some(own),
        TypeKind::SubclassOf(own) => class == own,
        TypeKind::NominalInstance(instance) => class is None && is_class(
            store,
            instance.class,
            KnownClass::Type,
        ),
        _ => false,
    }
}

/// One of the classes lists the other among those it is a subclass of.
pub open spec fn subclasses(store: &TypeStore, a: ClassId, b: ClassId) -> bool {
    ||| a.0 < store.classes@.len() && store.classes@[a.0 as int].subclass_of@.contains(b)
    ||| b.0 < store.classes@.len() && store.classes@[b.0 as int].subclass_of@.contains(a)
}

/// The metaclass of the class has an `__eq__`.
pub open spec fn metaclass_has_eq(store: &TypeStore, class: Option<ClassId>) -> bool {
    class matches Some(class) && class.0 < store.classes@.len() && ({
        let meta = store.classes@[class.0 as int].metaclass_instance;
        holds(store, meta) && store.types@[meta.0 as int].defines_eq
    })
}

/// Class objects are comparable where one class is a subclass of the other or one of them
/// is not known; with anything else only through an `__eq__` of the metaclass.
pub proof fn law_class_objects_compare_by_class(
    store: &TypeStore,
    left: TypeId,
    a: Option<ClassId>,
    right: TypeId,
    b: Option<ClassId>,
    other: TypeId,
    other_class: ClassId,
    is_operator: bool,
    strict: bool,
)
    requires
        store.wf(),
        class_object_of(store, left, a),
        class_object_of(store, right, b),
        ordinary_value(store, other, other_class),
    ensures
        unnecessary::comparable(store, left, right, is_operator, strict) == (a is None || b is None
            || subclasses(store, a->0, b->0) || metaclass_has_eq(store, a)),
        unnecessary::comparable(store, left, other, is_operator, strict) == metaclass_has_eq(
            store,
            a,
        ),
{
}

/// The type of a class object: that of its class, or an unknown one.
pub open spec fn object_type(store: &TypeStore, class: Option<ClassId>) -> TypeId {
    match class {
        Some(class) if class.0 < store.classes@.len() => store.classes@[class.0 as int].object,
        _ => store.unknown,
    }
}

/// A value against a class object: related as types, or through an `__eq__` of its class.
pub proof fn law_values_against_class_objects(
    store: &TypeStore,
    left: TypeId,
    left_class: ClassId,
    right: TypeId,
    class: Option<ClassId>,
    is_operator: bool,
    strict: bool,
)
    requires
        store.wf(),
        ordinary_value(store, left, left_class),
        class_object_of(store, right, class),
        !(kind(store, right) is NominalInstance),
    ensures
        ({
            let own = without_arguments(store, left, left_class);
            let object = object_type(store, class);
            unnecessary::comparable(store, left, right, is_operator, strict) == (assigns(
                store,
                own,
                object,
            ) || assigns(store, object, own) || has_eq(store, left, left_class))
        }),
{
}

/// Nothing that is handled on its own: not dynamic, no `Never`, no module, nothing that can
/// be called, no intersection.
pub open spec fn ordinary(store: &TypeStore, ty: TypeId) -> bool {
    holds(store, ty) && match kind(store, ty) {
        TypeKind::Dynamic(_) | TypeKind::Never | TypeKind::ModuleLiteral(_)
        | TypeKind::Intersection(_) | TypeKind::EnumComplement(_) => false,
        own => !callable_kind(own),
    }
}

/// Neither a value of a class nor a class object.
pub open spec fn classless(store: &TypeStore, ty: TypeId) -> bool {
    &&& forall|class: ClassId| !#[trigger] value_of(store, ty, class)
    &&& forall|class: Option<ClassId>| !#[trigger] class_object_of(store, ty, class)
}

proof fn lemma_classless(store: &TypeStore, ty: TypeId)
    requires
        classless(store, ty),
    ensures
        unnecessary::instance_class(store, ty) is None,
        unnecessary::class_object(store, ty) is None,
{
    if let Some(class) = unnecessary::instance_class(store, ty) {
        assert(value_of(store, ty, class));
    }
    if let Some(class) = unnecessary::class_object(store, ty) {
        assert(class_object_of(store, ty, class));
    }
}

/// A class object against what is no class object: only through an `__eq__` of its
/// metaclass.
pub proof fn law_class_objects_against_other_types(
    store: &TypeStore,
    left: TypeId,
    class: Option<ClassId>,
    right: TypeId,
    is_operator: bool,
    strict: bool,
)
    requires
        store.wf(),
        class_object_of(store, left, class),
        ordinary(store, right),
        forall|class: Option<ClassId>| !#[trigger] class_object_of(store, right, class),
    ensures
        unnecessary::comparable(store, left, right, is_operator, strict) == metaclass_has_eq(
            store,
            class,
        ),
{
    if let Some(class) = unnecessary::class_object(store, right) {
        assert(class_object_of(store, right, class));
    }
}

/// What is neither a value, nor a class object, nor one of the special types on the left is
/// comparable with whatever is not special.
pub proof fn law_other_types_are_comparable(
    store: &TypeStore,
    left: TypeId,
    right: TypeId,
    is_operator: bool,
    strict: bool,
)
    requires
        store.wf(),
        ordinary(store, left),
        ordinary(store, right),
        classless(store, left),
    ensures
        unnecessary::comparable(store, left, right, is_operator, strict),
{
    lemma_classless(store, left);
}

/// A value against what is neither a value nor a class object nor special: only through an
/// `__eq__` of its class.
pub proof fn law_values_against_other_types(
    store: &TypeStore,
    left: TypeId,
    left_class: ClassId,
    right: TypeId,
    is_operator: bool,
    strict: bool,
)
    requires
        store.wf(),
        ordinary_value(store, left, left_class),
        ordinary(store, right),
        classless(store, right),
    ensures
        unnecessary::comparable(store, left, right, is_operator, strict) == has_eq(
            store,
            left,
            left_class,
        ),
{
    lemma_classless(store, right);
}

// -- stores -----------------------------------------------------------------------------

/// The types that a type is made of stand before it, and a union and a constrained type
/// variable have some.
pub open spec fn made_of_earlier(store: &TypeStore, ty: TypeId) -> bool {
    match kind(store, ty) {
        TypeKind::Union(parts) => parts@.len() > 0 && all_earlier(parts@, ty),
        TypeKind::TypeVar(TypeVarBound::Constraints(parts)) => parts@.len() > 0,
        TypeKind::Intersection(parts) => all_earlier(parts@, ty),
        TypeKind::EnumComplement(part) => part.0 < ty.0,
        TypeKind::TypeVar(TypeVarBound::UpperBound(part)) => part.0 < ty.0,
        TypeKind::LiteralValue { fallback: Some(part), .. } => part.0 < ty.0,
        _ => true,
    }
}

/// All of the types stand before another.
pub open spec fn all_earlier(parts: Seq<TypeId>, ty: TypeId) -> bool {
    forall|i: int| 0 <= i < parts.len() ==> (#[trigger] parts[i]).0 < ty.0
}

/// A store is well formed where its types are made of earlier ones, and the class `type`
/// is no number.
pub proof fn law_well_formed_stores(store: &TypeStore, ty: TypeId, class: ClassId)
    requires
        store.wf(),
    ensures
        holds(store, ty) ==> made_of_earlier(store, ty),
        is_class(store, class, KnownClass::Type) ==> number_rank(store, class) is None,
{
    if holds(store, ty) {
        assert(types::parts_before(store.types@[ty.0 as int].kind, ty.0 as int));
        match kind(store, ty) {
            TypeKind::Union(parts) => {
                assert forall|i: int| 0 <= i < parts@.len() implies (#[trigger] parts@[i]).0
                    < ty.0 by {}
            },
            TypeKind::Intersection(parts) => {
                assert forall|i: int| 0 <= i < parts@.len() implies (#[trigger] parts@[i]).0
                    < ty.0 by {}
            },
            _ => {},
        }
    }
    lemma_ranks(store, class);
    if is_class(store, class, KnownClass::Type) {
        assert(store.known_of(class) == KnownClass::Type);
    }
}

/// Nothing else is asked of a store.
pub proof fn law_stores_made_of_earlier_types(store: &TypeStore)
    requires
        forall|ty: TypeId| #[trigger] holds(store, ty) ==> made_of_earlier(store, ty),
        forall|class: ClassId| #[trigger]
            is_class(store, class, KnownClass::Type) ==> number_rank(store, class) is None,
    ensures
        store.wf(),
{
    assert forall|i: int| 0 <= i < store.types@.len() implies types::parts_before(
        #[trigger] store.types@[i].kind,
        i,
    ) by {
        let count: usize = store.types.len();
        let ty = TypeId(i as usize);
        assert(holds(store, ty));
        assert(made_of_earlier(store, ty));
    }
    assert forall|class: ClassId| #[trigger]
        store.known_of(class) == KnownClass::Type implies !store.numeric(class) by {
        lemma_ranks(store, class);
        assert(is_class(store, class, KnownClass::Type));
    }
}

/// The answer to a question for a callable is one with that signature and result, and no
/// other function behind it; of other answers nothing is asked.
pub proof fn law_answers_that_fit(store: &TypeStore, query: QueryView, answer: Option<TypeId>)
    ensures
        !(query is Callable) || answer is None ==> store.fits(query, answer),
        query matches QueryView::Callable { source, signature, result } ==> (
        answer matches Some(form) ==> (store.fits(query, answer) <==> holds(store, form) && (kind(
            store,
            form,
        ) matches TypeKind::Callable { overloads, definition } && overloads@.len() == 1
            && overloads@[0].signature == signature && overloads@[0].result == result && (definition
            is None || definition == Some(source))))),
{
    if let (QueryView::Callable { source, signature, result }, Some(form)) = (query, answer) {
        if let TypeKind::Callable { overloads, definition } = store.kind_of(form) {
            if overloads@.len() == 1 && overloads@[0].signature == signature
                && overloads@[0].result == result {
                assert(overloads@ =~= seq![types::Overload { signature, result }]);
            }
        }
    }
}

// -- subtypes ---------------------------------------------------------------------------

/// A union expands to what its elements expand to, an alias to what its value does, a type
/// variable to its bound or its constraints, or to `object`; anything else is its only
/// subtype. Below the depth limit this goes on.
pub proof fn law_expansion(store: &TypeStore, ty: TypeId, depth: nat)
    requires
        holds(store, ty),
    ensures
        depth > 8 ==> unnecessary::expanded(store, ty, depth) == seq![ty],
        depth <= 8 ==> match kind(store, ty) {
            TypeKind::Union(elements) => forall|sub: TypeId| #[trigger]
                unnecessary::expanded(store, ty, depth).contains(sub) <==> exists|i: int|
                    0 <= i < elements@.len() && unnecessary::expanded(
                        store,
                        #[trigger] elements@[i],
                        depth + 1,
                    ).contains(sub),
            TypeKind::TypeVar(TypeVarBound::Constraints(elements)) => forall|sub: TypeId|
                #[trigger]
                unnecessary::expanded(store, ty, depth).contains(sub) <==> exists|i: int|
                    0 <= i < elements@.len() && unnecessary::expanded(
                        store,
                        #[trigger] elements@[i],
                        depth + 1,
                    ).contains(sub),
            TypeKind::TypeAlias(value) => unnecessary::expanded(store, ty, depth)
                == unnecessary::expanded(store, value, depth + 1),
            TypeKind::TypeVar(TypeVarBound::UpperBound(bound)) => unnecessary::expanded(
                store,
                ty,
                depth,
            ) == unnecessary::expanded(store, bound, depth + 1),
            TypeKind::TypeVar(TypeVarBound::Unbounded) => unnecessary::expanded(store, ty, depth)
                == seq![store.object],
            _ => unnecessary::expanded(store, ty, depth) == seq![ty],
        },
        unnecessary::subtypes(store, ty) == unnecessary::expanded(store, ty, 0),
{
    reveal_with_fuel(unnecessary::expanded, 2);
    if depth <= 8 {
        match kind(store, ty) {
            TypeKind::Union(elements) => {
                lemma_expands_all(store, elements@, depth + 1);
                assert(unnecessary::expanded(store, ty, depth) == unnecessary::expanded_all(
                    store,
                    elements@,
                    depth + 1,
                ));
            },
            TypeKind::TypeVar(TypeVarBound::Constraints(elements)) => {
                lemma_expands_all(store, elements@, depth + 1);
                assert(unnecessary::expanded(store, ty, depth) == unnecessary::expanded_all(
                    store,
                    elements@,
                    depth + 1,
                ));
            },
            TypeKind::TypeAlias(value) => {
                assert(unnecessary::expanded(store, ty, depth) == unnecessary::expanded(
                    store,
                    value,
                    depth + 1,
                ));
            },
            TypeKind::TypeVar(TypeVarBound::UpperBound(bound)) => {
                assert(unnecessary::expanded(store, ty, depth) == unnecessary::expanded(
                    store,
                    bound,
                    depth + 1,
                ));
            },
            _ => {
                assert(unnecessary::expanded(store, ty, depth).len() == 1);
            },
        }
    }
}

proof fn lemma_expands_all(store: &TypeStore, types: Seq<TypeId>, depth: nat)
    ensures
        forall|sub: TypeId| #[trigger]
            unnecessary::expanded_all(store, types, depth).contains(sub) <==> exists|i: int|
                0 <= i < types.len() && unnecessary::expanded(
                    store,
                    #[trigger] types[i],
                    depth,
                ).contains(sub),
    decreases types.len(),
{
    reveal_with_fuel(unnecessary::expanded_all, 2);
    let all = unnecessary::expanded_all(store, types, depth);
    if types.len() > 0 {
        let before = types.drop_last();
        lemma_expands_all(store, before, depth);
        let first = unnecessary::expanded_all(store, before, depth);
        let last = unnecessary::expanded(store, types.last(), depth);
        assert(all == first + last);
        assert forall|sub: TypeId| #[trigger] all.contains(sub) <==> exists|i: int|
            0 <= i < types.len() && unnecessary::expanded(
                store,
                #[trigger] types[i],
                depth,
            ).contains(sub) by {
            if all.contains(sub) {
                let k = all.index_of(sub);
                if k < first.len() {
                    assert(first[k] == sub);
                    assert(first.contains(sub));
                    let i = choose|i: int|
                        0 <= i < before.len() && unnecessary::expanded(
                            store,
                            #[trigger] before[i],
                            depth,
                        ).contains(sub);
                    assert(types[i] == before[i]);
                } else {
                    assert(last[k - first.len()] == sub);
                    assert(unnecessary::expanded(
                        store,
                        types[types.len() - 1],
                        depth,
                    ).contains(sub));
                }
            }
            if exists|i: int|
                0 <= i < types.len() && unnecessary::expanded(
                    store,
                    #[trigger] types[i],
                    depth,
                ).contains(sub) {
                let i = choose|i: int|
                    0 <= i < types.len() && unnecessary::expanded(
                        store,
                        #[trigger] types[i],
                        depth,
                    ).contains(sub);
                if i < before.len() {
                    assert(before[i] == types[i]);
                    assert(first.contains(sub));
                    assert(all[first.index_of(sub)] == sub);
                } else {
                    assert(all[first.len() + last.index_of(sub)] == sub);
                }
            }
        }
    } else {
        assert(all =~= Seq::<TypeId>::empty());
    }
}

/// Types expand one after the other, and the elements of a union as such.
pub proof fn law_expansion_in_order(
    store: &TypeStore,
    types: Seq<TypeId>,
    last: TypeId,
    union: TypeId,
    depth: nat,
)
    ensures
        unnecessary::expanded_all(store, Seq::empty(), depth) == Seq::<TypeId>::empty(),
        unnecessary::expanded_all(store, types.push(last), depth) == unnecessary::expanded_all(
            store,
            types,
            depth,
        ) + unnecessary::expanded(store, last, depth),
        holds(store, union) && depth <= 8 ==> (kind(
            store,
            union,
        ) matches TypeKind::Union(elements) ==> unnecessary::expanded(store, union, depth)
            == unnecessary::expanded_all(store, elements@, depth + 1)),
        holds(store, union) && depth <= 8 ==> (kind(store, union) matches TypeKind::TypeVar(
            TypeVarBound::Constraints(elements),
        ) ==> unnecessary::expanded(store, union, depth) == unnecessary::expanded_all(
            store,
            elements@,
            depth + 1,
        )),
{
    reveal_with_fuel(unnecessary::expanded_all, 2);
    assert(types.push(last).drop_last() =~= types);
}

} // verus!
