//! When two types have values that may compare equal.

use vstd::prelude::*;

use crate::text::same_text;
use crate::types;
use crate::types::{
    contains_class, ClassId, DynamicKind, EnumMember, KnownClass, LiteralKind, Query, QueryView,
    TupleSpec, TypeId, TypeKind, TypeStore, TypeVarBound,
};

verus! {

// -- the shapes of types ----------------------------------------------------------------

pub open spec fn dynamic(store: &TypeStore, ty: TypeId) -> bool {
    store.kind_of(ty) is Dynamic
}

pub open spec fn never(store: &TypeStore, ty: TypeId) -> bool {
    store.kind_of(ty) is Never
}

/// A type whose values are functions: it is always truthy and comparable to anything.
pub open spec fn function_or_overloaded(kind: TypeKind) -> bool {
    ||| kind is FunctionLiteral
    ||| kind is BoundMethod
    ||| kind is KnownBoundMethod
    ||| kind is WrapperDescriptor
    ||| kind is Callable
    ||| kind is DataclassDecorator
    ||| kind is DataclassTransformer
}

/// The class of an instance type.
pub open spec fn nominal_class(store: &TypeStore, ty: TypeId) -> Option<ClassId> {
    match store.kind_of(ty) {
        TypeKind::NominalInstance(instance) => Some(instance.class),
        _ => None,
    }
}

/// The class of an instance type or of a literal.
pub open spec fn instance_class(store: &TypeStore, ty: TypeId) -> Option<ClassId> {
    match store.kind_of(ty) {
        TypeKind::NominalInstance(instance) => Some(instance.class),
        TypeKind::LiteralValue { value, fallback: Some(instance) } => nominal_class(store, instance),
        _ => None,
    }
}

/// The class of a class object. `Some(None)` is a class object of unknown class.
pub open spec fn class_object(store: &TypeStore, ty: TypeId) -> Option<Option<ClassId>> {
    match store.kind_of(ty) {
        TypeKind::ClassLiteral(class) => Some(Some(class)),
        TypeKind::GenericAlias(class) => Some(Some(class)),
        TypeKind::SubclassOf(class) => Some(class),
        TypeKind::NominalInstance(instance) => if store.known_of(instance.class)
            == KnownClass::Type {
            Some(None)
        } else {
            None
        },
        _ => None,
    }
}

pub open spec fn literal(store: &TypeStore, ty: TypeId) -> bool {
    store.kind_of(ty) is LiteralValue
}

pub open spec fn is_none_type(store: &TypeStore, ty: TypeId) -> bool {
    match nominal_class(store, ty) {
        Some(class) => store.known_of(class) == KnownClass::NoneType,
        None => false,
    }
}

/// The value of an int or bool literal.
pub open spec fn int_literal(store: &TypeStore, ty: TypeId) -> Option<int> {
    match store.kind_of(ty) {
        TypeKind::LiteralValue { value: LiteralKind::Int(n), fallback } => Some(n as int),
        TypeKind::LiteralValue { value: LiteralKind::Bool(b), fallback } => Some(
            if b {
                1
            } else {
                0
            },
        ),
        _ => None,
    }
}

pub open spec fn bool_literal(store: &TypeStore, ty: TypeId) -> Option<bool> {
    match store.kind_of(ty) {
        TypeKind::LiteralValue { value: LiteralKind::Bool(b), fallback } => Some(b),
        _ => None,
    }
}

/// Whether a standard-library stub declares the class.
pub open spec fn stdlib_class(store: &TypeStore, class: ClassId) -> bool {
    match store.class_of(class) {
        Some(node) => node.stdlib,
        None => false,
    }
}

/// Whether a class in the MRO of a type other than `object` defines `__eq__`.
pub open spec fn member_eq(store: &TypeStore, ty: TypeId) -> bool {
    ty.0 < store.types@.len() && store.types@[ty.0 as int].defines_eq
}

pub fn is_function_or_overloaded(store: &TypeStore, ty: TypeId) -> (answer: bool)
    ensures
        answer == function_or_overloaded(store.kind_of(ty)),
{
    matches!(
        store.kind(ty),
        TypeKind::FunctionLiteral(..) | TypeKind::BoundMethod { .. } | TypeKind::KnownBoundMethod
        | TypeKind::WrapperDescriptor | TypeKind::Callable { .. } | TypeKind::DataclassDecorator
        | TypeKind::DataclassTransformer
    )
}

pub(crate) fn is_dynamic(store: &TypeStore, ty: TypeId) -> (answer: bool)
    ensures
        answer == dynamic(store, ty),
{
    matches!(store.kind(ty), TypeKind::Dynamic(_))
}

pub(crate) fn is_unknown(store: &TypeStore, ty: TypeId) -> (answer: bool)
    ensures
        answer == (store.kind_of(ty) == TypeKind::Dynamic(DynamicKind::Unknown)),
{
    matches!(store.kind(ty), TypeKind::Dynamic(DynamicKind::Unknown))
}

pub(crate) fn is_never(store: &TypeStore, ty: TypeId) -> (answer: bool)
    ensures
        answer == never(store, ty),
{
    matches!(store.kind(ty), TypeKind::Never)
}

pub(crate) fn is_literal(store: &TypeStore, ty: TypeId) -> (answer: bool)
    ensures
        answer == literal(store, ty),
{
    matches!(store.kind(ty), TypeKind::LiteralValue { .. })
}

fn as_nominal_instance(store: &TypeStore, ty: TypeId) -> (class: Option<ClassId>)
    ensures
        class == nominal_class(store, ty),
{
    match store.kind(ty) {
        TypeKind::NominalInstance(instance) => Some(instance.class),
        _ => None,
    }
}

pub(crate) fn is_none(store: &TypeStore, ty: TypeId) -> (answer: bool)
    ensures
        answer == is_none_type(store, ty),
{
    match as_nominal_instance(store, ty) {
        Some(class) => store.known(class) == KnownClass::NoneType,
        None => false,
    }
}

/// A class object, for the comparison of class objects: the class it is, or `Some(None)`
/// for a class object of statically unknown class, which any other class object may equal.
pub fn as_class_object_class(store: &TypeStore, ty: TypeId) -> (class: Option<Option<ClassId>>)
    ensures
        class == class_object(store, ty),
{
    match store.kind(ty) {
        TypeKind::ClassLiteral(class) => Some(Some(*class)),
        TypeKind::GenericAlias(class) => Some(Some(*class)),
        TypeKind::SubclassOf(class) => Some(*class),
        TypeKind::NominalInstance(instance) => if store.known(instance.class) == KnownClass::Type {
            Some(None)
        } else {
            None
        },
        _ => None,
    }
}

/// The class of an instance; a literal counts as an instance of its class.
pub fn as_instance_for_comparison(store: &TypeStore, ty: TypeId) -> (class: Option<ClassId>)
    ensures
        class == instance_class(store, ty),
{
    match store.kind(ty) {
        TypeKind::NominalInstance(instance) => Some(instance.class),
        TypeKind::LiteralValue { value: _, fallback: Some(instance) } => as_nominal_instance(
            store,
            *instance,
        ),
        _ => None,
    }
}

/// Does any class in the MRO other than `object` define `__eq__`?
pub fn defines_member_skipping_object(store: &TypeStore, ty: TypeId) -> (answer: bool)
    ensures
        answer == member_eq(store, ty),
{
    ty.0 < store.types.len() && store.types[ty.0].defines_eq
}

/// Was the class declared in a standard-library stub?
pub fn is_typeshed_stdlib_class(store: &TypeStore, class: ClassId) -> (answer: bool)
    ensures
        answer == stdlib_class(store, class),
{
    match store.class(class) {
        Some(node) => node.stdlib,
        None => false,
    }
}

pub fn as_int_literal_value(store: &TypeStore, ty: TypeId) -> (value: Option<i64>)
    ensures
        match value {
            Some(n) => int_literal(store, ty) == Some(n as int),
            None => int_literal(store, ty) is None,
        },
{
    match store.kind(ty) {
        TypeKind::LiteralValue { value: LiteralKind::Int(n), .. } => Some(*n),
        TypeKind::LiteralValue { value: LiteralKind::Bool(b), .. } => Some(
            if *b {
                1
            } else {
                0
            },
        ),
        _ => None,
    }
}

pub fn as_bool_literal_value(store: &TypeStore, ty: TypeId) -> (value: Option<bool>)
    ensures
        value == bool_literal(store, ty),
{
    match store.kind(ty) {
        TypeKind::LiteralValue { value: LiteralKind::Bool(b), .. } => Some(*b),
        _ => None,
    }
}

// -- comparability ----------------------------------------------------------------------

/// One class is a subclass of the other, type arguments aside.
pub open spec fn related_classes(store: &TypeStore, left: ClassId, right: ClassId) -> bool {
    ||| store.class_of(left) matches Some(node) && node.subclass_of@.contains(right)
    ||| store.class_of(right) matches Some(node) && node.subclass_of@.contains(left)
}

/// Whether the metaclass of a class defines `__eq__`.
pub open spec fn metaclass_eq(store: &TypeStore, class: ClassId) -> bool {
    store.class_of(class) matches Some(node) && member_eq(store, node.metaclass_instance)
}

/// A class object may equal `right`: another class object of a related or unknown class,
/// or anything if its metaclass defines `__eq__`.
pub open spec fn class_object_comparable(
    store: &TypeStore,
    left: Option<ClassId>,
    right: TypeId,
) -> bool {
    ||| class_object(store, right) matches Some(other) && match (left, other) {
        (Some(a), Some(b)) => related_classes(store, a, b),
        _ => true,
    }
    ||| left matches Some(class) && metaclass_eq(store, class)
}

/// The type of the instances of a class, with unknown type arguments.
pub open spec fn instance_type(store: &TypeStore, class: ClassId) -> TypeId {
    match store.class_of(class) {
        Some(node) => node.instance,
        None => store.unknown,
    }
}

/// The type of a class object.
pub open spec fn class_type(store: &TypeStore, class: ClassId) -> TypeId {
    match store.class_of(class) {
        Some(node) => node.object,
        None => store.unknown,
    }
}

/// The type that stands for `ty` when type arguments do not count: a literal stays as it
/// is, an instance becomes the instance of its class with unknown arguments.
pub open spec fn despecialized(store: &TypeStore, ty: TypeId) -> Option<TypeId> {
    if literal(store, ty) {
        Some(ty)
    } else {
        match (instance_class(store, ty), class_object(store, ty)) {
            (Some(class), _) => Some(instance_type(store, class)),
            (None, Some(Some(class))) => Some(class_type(store, class)),
            (None, Some(None)) => Some(store.unknown),
            (None, None) => None,
        }
    }
}

/// The rank of a numeric class in the promotion order int, float, complex.
pub open spec fn numeric_rank(store: &TypeStore, class: ClassId) -> Option<int> {
    if store.inherits(class, KnownClass::Int) {
        Some(0)
    } else if store.inherits(class, KnownClass::Float) {
        Some(1)
    } else if store.inherits(class, KnownClass::Complex) {
        Some(2)
    } else {
        None
    }
}

/// Two numeric classes of different rank: one is promoted to the other.
pub open spec fn promoted(store: &TypeStore, left: ClassId, right: ClassId) -> bool {
    match (numeric_rank(store, left), numeric_rank(store, right)) {
        (Some(a), Some(b)) => a != b,
        _ => false,
    }
}

/// A bool and an int: a literal int must be 0 or 1, and then equal a literal bool.
pub open spec fn bool_int_comparable(store: &TypeStore, flag: TypeId, number: TypeId) -> bool {
    match int_literal(store, number) {
        None => true,
        Some(n) => match bool_literal(store, flag) {
            None => n == 0 || n == 1,
            Some(b) => n == if b {
                1int
            } else {
                0int
            },
        },
    }
}

/// Instances of two unrelated standard-library classes: only a bool and an int may be equal.
pub open spec fn stdlib_comparable(
    store: &TypeStore,
    left: TypeId,
    left_class: ClassId,
    right: TypeId,
    right_class: ClassId,
) -> bool {
    if store.known_of(left_class) == KnownClass::Bool && store.known_of(right_class)
        == KnownClass::Int {
        bool_int_comparable(store, left, right)
    } else if store.known_of(right_class) == KnownClass::Bool && store.known_of(left_class)
        == KnownClass::Int {
        bool_int_comparable(store, right, left)
    } else {
        false
    }
}

/// Whether the class body itself binds `__eq__`.
pub open spec fn body_eq(store: &TypeStore, class: ClassId) -> bool {
    store.class_of(class) matches Some(node) && node.body matches Some(body) && body.binds_eq
}

pub open spec fn is_dataclass(store: &TypeStore, class: ClassId) -> bool {
    store.class_of(class) matches Some(node) && node.body matches Some(body) && body.dataclass
}

/// A type with an `__eq__` of its own; the one synthesized for a dataclass does not count.
pub open spec fn custom_eq(store: &TypeStore, ty: TypeId, class: ClassId) -> bool {
    member_eq(store, ty) && (is_dataclass(store, class) ==> body_eq(store, class))
}

/// The two types are assignable to one another in either direction, type arguments aside.
pub open spec fn assignable_either_way(store: &TypeStore, left: TypeId, right: TypeId) -> bool {
    match (despecialized(store, left), despecialized(store, right)) {
        (Some(a), Some(b)) => store.assignable(a, b) || store.assignable(b, a),
        _ => false,
    }
}

/// An instance of `class` (of type `left`) may equal a value of type `right`.
///
/// `strict` marks an operand that a narrowing left: then no literal is promoted.
pub open spec fn instance_comparable(
    store: &TypeStore,
    left: TypeId,
    class: ClassId,
    right: TypeId,
    is_operator: bool,
    strict: bool,
) -> bool {
    let right_class = instance_class(store, right);
    let concrete = right_class is Some || class_object(store, right) is Some;
    let literals = literal(store, left) || literal(store, right);
    if concrete && assignable_either_way(store, left, right) {
        true
    } else if right_class is Some && !(strict && literals) && promoted(
        store,
        class,
        right_class->0,
    ) {
        true
    } else if concrete && is_operator && is_none_type(store, right) {
        store.assignable(right, left)
    } else if right_class is Some && stdlib_class(store, class) && stdlib_class(
        store,
        right_class->0,
    ) {
        stdlib_comparable(store, left, class, right, right_class->0)
    } else {
        custom_eq(store, left, class)
    }
}

/// Comparability of two types neither of which is an intersection.
pub open spec fn plain_comparable(
    store: &TypeStore,
    left: TypeId,
    right: TypeId,
    is_operator: bool,
    strict: bool,
) -> bool {
    if dynamic(store, left) || dynamic(store, right) {
        true
    } else if never(store, left) || never(store, right) {
        false
    } else if store.kind_of(left) is ModuleLiteral || store.kind_of(right) is ModuleLiteral {
        store.kind_of(left) == store.kind_of(right)
    } else if function_or_overloaded(store.kind_of(left)) || function_or_overloaded(
        store.kind_of(right),
    ) {
        true
    } else if class_object(store, left) is Some {
        class_object_comparable(store, class_object(store, left)->0, right)
    } else if instance_class(store, left) is Some {
        instance_comparable(
            store,
            left,
            instance_class(store, left)->0,
            right,
            is_operator,
            strict,
        )
    } else {
        true
    }
}

/// Whether a value of type `left` may equal a value of type `right`.
///
/// An enum complement stands for its intersection, and an intersection for its concrete
/// positive elements, or for anything if it has none; what comes out of either is strict.
pub open spec fn comparable(
    store: &TypeStore,
    left: TypeId,
    right: TypeId,
    is_operator: bool,
    strict: bool,
) -> bool
    decreases left.0 + right.0,
    when store.wf()
{
    match (store.kind_of(left), store.kind_of(right)) {
        (TypeKind::EnumComplement(inner), _) => comparable(store, inner, right, is_operator, true),
        (_, TypeKind::EnumComplement(inner)) => comparable(store, left, inner, is_operator, true),
        (TypeKind::Intersection(positive), _) => {
            ||| forall|i: int| 0 <= i < positive@.len() ==> dynamic(store, #[trigger] positive@[i])
            ||| exists|i: int|
                0 <= i < positive@.len() && !dynamic(store, #[trigger] positive@[i]) && comparable(
                    store,
                    positive@[i],
                    right,
                    is_operator,
                    true,
                )
        },
        (_, TypeKind::Intersection(positive)) => {
            ||| forall|i: int| 0 <= i < positive@.len() ==> dynamic(store, #[trigger] positive@[i])
            ||| exists|i: int|
                0 <= i < positive@.len() && !dynamic(store, #[trigger] positive@[i]) && comparable(
                    store,
                    left,
                    positive@[i],
                    is_operator,
                    true,
                )
        },
        _ => plain_comparable(store, left, right, is_operator, strict),
    }
}

fn classes_related(store: &TypeStore, left: ClassId, right: ClassId) -> (answer: bool)
    ensures
        answer == related_classes(store, left, right),
{
    let forward = match store.class(left) {
        Some(node) => contains_class(&node.subclass_of, right),
        None => false,
    };
    let backward = match store.class(right) {
        Some(node) => contains_class(&node.subclass_of, left),
        None => false,
    };
    forward || backward
}

fn is_class_object_comparable(store: &TypeStore, left: Option<ClassId>, right: TypeId) -> (answer:
    bool)
    ensures
        answer == class_object_comparable(store, left, right),
{
    if let Some(other) = as_class_object_class(store, right) {
        match (left, other) {
            (Some(a), Some(b)) => {
                if classes_related(store, a, b) {
                    return true;
                }
            },
            _ => {
                return true;
            },
        }
    }
    match left {
        Some(class) => match store.class(class) {
            Some(node) => defines_member_skipping_object(store, node.metaclass_instance),
            None => false,
        },
        None => false,
    }
}

fn instance_of(store: &TypeStore, class: ClassId) -> (ty: TypeId)
    ensures
        ty == instance_type(store, class),
{
    match store.class(class) {
        Some(node) => node.instance,
        None => store.unknown,
    }
}

fn despecialize(store: &TypeStore, ty: TypeId) -> (generic: Option<TypeId>)
    ensures
        generic == despecialized(store, ty),
{
    if is_literal(store, ty) {
        return Some(ty);
    }
    match (as_instance_for_comparison(store, ty), as_class_object_class(store, ty)) {
        (Some(class), _) => Some(instance_of(store, class)),
        (None, Some(Some(class))) => Some(
            match store.class(class) {
                Some(node) => node.object,
                None => store.unknown,
            },
        ),
        (None, Some(None)) => Some(store.unknown),
        (None, None) => None,
    }
}

fn is_assignable_either_way(store: &TypeStore, left: TypeId, right: TypeId) -> (answer: bool)
    ensures
        answer == assignable_either_way(store, left, right),
{
    match (despecialize(store, left), despecialize(store, right)) {
        (Some(a), Some(b)) => store.is_assignable_to(a, b) || store.is_assignable_to(b, a),
        _ => false,
    }
}

fn rank(store: &TypeStore, class: ClassId) -> (rank: Option<u8>)
    ensures
        match rank {
            Some(r) => numeric_rank(store, class) == Some(r as int),
            None => numeric_rank(store, class) is None,
        },
{
    if store.has_base(class, KnownClass::Int) {
        Some(0)
    } else if store.has_base(class, KnownClass::Float) {
        Some(1)
    } else if store.has_base(class, KnownClass::Complex) {
        Some(2)
    } else {
        None
    }
}

fn is_promoted(store: &TypeStore, left: ClassId, right: ClassId) -> (answer: bool)
    ensures
        answer == promoted(store, left, right),
{
    match (rank(store, left), rank(store, right)) {
        (Some(a), Some(b)) => a != b,
        _ => false,
    }
}

fn is_bool_int_comparable(store: &TypeStore, flag: TypeId, number: TypeId) -> (answer: bool)
    ensures
        answer == bool_int_comparable(store, flag, number),
{
    let Some(int_value) = as_int_literal_value(store, number) else {
        return true;
    };
    if int_value != 0 && int_value != 1 {
        return false;
    }
    let Some(bool_value) = as_bool_literal_value(store, flag) else {
        return true;
    };
    bool_value == (int_value == 1)
}

fn is_stdlib_comparable(
    store: &TypeStore,
    left: TypeId,
    left_class: ClassId,
    right: TypeId,
    right_class: ClassId,
) -> (answer: bool)
    ensures
        answer == stdlib_comparable(store, left, left_class, right, right_class),
{
    let left_known = store.known(left_class);
    let right_known = store.known(right_class);
    if left_known == KnownClass::Bool && right_known == KnownClass::Int {
        is_bool_int_comparable(store, left, right)
    } else if right_known == KnownClass::Bool && left_known == KnownClass::Int {
        is_bool_int_comparable(store, right, left)
    } else {
        false
    }
}

/// Does the class body itself bind `__eq__`? (This tells an explicit `__eq__` on a
/// dataclass from the synthesized one.)
pub fn defines_eq_in_body(store: &TypeStore, class: ClassId) -> (answer: bool)
    ensures
        answer == body_eq(store, class),
{
    match store.class(class) {
        Some(node) => match node.body {
            Some(body) => body.binds_eq,
            None => false,
        },
        None => false,
    }
}

fn has_custom_eq(store: &TypeStore, ty: TypeId, class: ClassId) -> (answer: bool)
    ensures
        answer == custom_eq(store, ty, class),
{
    if !defines_member_skipping_object(store, ty) {
        return false;
    }
    let dataclass = match store.class(class) {
        Some(node) => match node.body {
            Some(body) => body.dataclass,
            None => false,
        },
        None => false,
    };
    !dataclass || defines_eq_in_body(store, class)
}

fn is_instance_comparable(
    store: &TypeStore,
    left: TypeId,
    class: ClassId,
    right: TypeId,
    is_operator: bool,
    strict: bool,
) -> (answer: bool)
    ensures
        answer == instance_comparable(store, left, class, right, is_operator, strict),
{
    let right_class = as_instance_for_comparison(store, right);
    let concrete = right_class.is_some() || as_class_object_class(store, right).is_some();
    if concrete {
        if is_assignable_either_way(store, left, right) {
            return true;
        }
        let literals = is_literal(store, left) || is_literal(store, right);
        if let Some(right_class) = right_class {
            if !(strict && literals) && is_promoted(store, class, right_class) {
                return true;
            }
        }
        if is_operator && is_none(store, right) {
            return store.is_assignable_to(right, left);
        }
        if let Some(right_class) = right_class {
            if is_typeshed_stdlib_class(store, class) && is_typeshed_stdlib_class(
                store,
                right_class,
            ) {
                return is_stdlib_comparable(store, left, class, right, right_class);
            }
        }
    }
    has_custom_eq(store, left, class)
}

fn is_plain_comparable(
    store: &TypeStore,
    left: TypeId,
    right: TypeId,
    is_operator: bool,
    strict: bool,
) -> (answer: bool)
    ensures
        answer == plain_comparable(store, left, right, is_operator, strict),
{
    if is_dynamic(store, left) || is_dynamic(store, right) {
        return true;
    }
    if is_never(store, left) || is_never(store, right) {
        return false;
    }
    match (store.kind(left), store.kind(right)) {
        (TypeKind::ModuleLiteral(a), TypeKind::ModuleLiteral(b)) => {
            return *a == *b;
        },
        (TypeKind::ModuleLiteral(_), _) => {
            return false;
        },
        (_, TypeKind::ModuleLiteral(_)) => {
            return false;
        },
        _ => {},
    }
    if is_function_or_overloaded(store, left) || is_function_or_overloaded(store, right) {
        return true;
    }
    if let Some(class) = as_class_object_class(store, left) {
        return is_class_object_comparable(store, class, right);
    }
    if let Some(class) = as_instance_for_comparison(store, left) {
        return is_instance_comparable(store, left, class, right, is_operator, strict);
    }
    true
}

/// May a value of type `left` equal a value of type `right`?
///
/// `strict_numeric` is set when a side came out of a narrowing (an intersection or an enum
/// complement): a narrowed `float` is the strict class, which does not overlap an int
/// literal, while an annotated `float` is the promoted `int | float`, which does.
pub fn is_type_comparable_impl(
    store: &TypeStore,
    left: TypeId,
    right: TypeId,
    assume_is_operator: bool,
    strict_numeric: bool,
) -> (answer: bool)
    requires
        store.wf(),
    ensures
        answer == comparable(store, left, right, assume_is_operator, strict_numeric),
    decreases left.0 + right.0,
{
    if let TypeKind::EnumComplement(inner) = store.kind(left) {
        return is_type_comparable_impl(store, *inner, right, assume_is_operator, true);
    }
    if let TypeKind::EnumComplement(inner) = store.kind(right) {
        return is_type_comparable_impl(store, left, *inner, assume_is_operator, true);
    }
    if let TypeKind::Intersection(positive) = store.kind(left) {
        let mut concrete = false;
        let mut i: usize = 0;
        while i < positive.len()
            invariant
                i <= positive@.len(),
                store.wf(),
                !(store.kind_of(right) is EnumComplement),
                store.kind_of(left) == TypeKind::Intersection(*positive),
                concrete == exists|j: int| 0 <= j < i && !dynamic(store, #[trigger] positive@[j]),
                forall|j: int|
                    0 <= j < i && !dynamic(store, #[trigger] positive@[j]) ==> !comparable(
                        store,
                        positive@[j],
                        right,
                        assume_is_operator,
                        true,
                    ),
            decreases positive@.len() - i,
        {
            if !is_dynamic(store, positive[i]) {
                concrete = true;
                proof {
                    types::lemma_parts_before(store, left);
                    assert(positive@[i as int].0 < left.0);
                }
                if is_type_comparable_impl(store, positive[i], right, assume_is_operator, true) {
                    assert(!dynamic(store, positive@[i as int]));
                    return true;
                }
            }
            i += 1;
        }
        return !concrete;
    }
    if let TypeKind::Intersection(positive) = store.kind(right) {
        let mut concrete = false;
        let mut i: usize = 0;
        while i < positive.len()
            invariant
                i <= positive@.len(),
                store.wf(),
                !(store.kind_of(left) is EnumComplement),
                !(store.kind_of(left) is Intersection),
                store.kind_of(right) == TypeKind::Intersection(*positive),
                concrete == exists|j: int| 0 <= j < i && !dynamic(store, #[trigger] positive@[j]),
                forall|j: int|
                    0 <= j < i && !dynamic(store, #[trigger] positive@[j]) ==> !comparable(
                        store,
                        left,
                        positive@[j],
                        assume_is_operator,
                        true,
                    ),
            decreases positive@.len() - i,
        {
            if !is_dynamic(store, positive[i]) {
                concrete = true;
                proof {
                    types::lemma_parts_before(store, right);
                    assert(positive@[i as int].0 < right.0);
                }
                if is_type_comparable_impl(store, left, positive[i], assume_is_operator, true) {
                    assert(!dynamic(store, positive@[i as int]));
                    return true;
                }
            }
            i += 1;
        }
        return !concrete;
    }
    is_plain_comparable(store, left, right, assume_is_operator, strict_numeric)
}

/// May a value of type `left` equal a value of type `right`? Unrelated standard-library
/// classes are taken to be never equal before the `__eq__` of the left class is looked at.
pub fn is_type_comparable(
    store: &TypeStore,
    left: TypeId,
    right: TypeId,
    assume_is_operator: bool,
) -> (answer: bool)
    requires
        store.wf(),
    ensures
        answer == comparable(store, left, right, assume_is_operator, false),
{
    is_type_comparable_impl(store, left, right, assume_is_operator, false)
}

// -- unions and type variables ----------------------------------------------------------

/// The elements of a union; any other type is its only element.
pub open spec fn elements_of(store: &TypeStore, ty: TypeId) -> Seq<TypeId> {
    match store.kind_of(ty) {
        TypeKind::Union(elements) => elements@,
        _ => seq![ty],
    }
}

/// How many unions, aliases and type variables are looked through on one path.
pub const MAX_EXPANSION: usize = 8;

/// The subtypes of `ty` under `depth` expansions: union members and the values of type
/// aliases, with type variables replaced by their bounds or constraints.
pub open spec fn expanded(store: &TypeStore, ty: TypeId, depth: nat) -> Seq<TypeId>
    decreases MAX_EXPANSION + 1 - depth, 0nat,
{
    if depth > MAX_EXPANSION {
        seq![ty]
    } else {
        match store.kind_of(ty) {
            TypeKind::Union(elements) => expanded_all(store, elements@, depth + 1),
            TypeKind::TypeAlias(value) => expanded(store, value, depth + 1),
            TypeKind::TypeVar(TypeVarBound::Unbounded) => seq![store.object],
            TypeKind::TypeVar(TypeVarBound::UpperBound(bound)) => expanded(store, bound, depth + 1),
            TypeKind::TypeVar(TypeVarBound::Constraints(constraints)) => expanded_all(
                store,
                constraints@,
                depth + 1,
            ),
            _ => seq![ty],
        }
    }
}

/// The subtypes of all of `types`, in order.
pub open spec fn expanded_all(store: &TypeStore, types: Seq<TypeId>, depth: nat) -> Seq<TypeId>
    decreases MAX_EXPANSION + 1 - depth, types.len() + 1,
{
    if types.len() == 0 {
        Seq::empty()
    } else {
        expanded_all(store, types.drop_last(), depth) + expanded(store, types.last(), depth)
    }
}

/// The subtypes of `ty`.
pub open spec fn subtypes(store: &TypeStore, ty: TypeId) -> Seq<TypeId> {
    expanded(store, ty, 0)
}

fn expand_all(store: &TypeStore, types: &Vec<TypeId>, into: &mut Vec<TypeId>, depth: usize)
    requires
        depth <= MAX_EXPANSION + 1,
    ensures
        final(into)@ == old(into)@ + expanded_all(store, types@, depth as nat),
    decreases MAX_EXPANSION + 1 - depth, 1nat,
{
    let mut i: usize = 0;
    while i < types.len()
        invariant
            i <= types@.len(),
            depth <= MAX_EXPANSION + 1,
            into@ == old(into)@ + expanded_all(store, types@.take(i as int), depth as nat),
        decreases types@.len() - i,
    {
        expand(store, types[i], into, depth);
        i += 1;
        assert(types@.take(i as int).drop_last() == types@.take(i - 1));
        assert(into@ == old(into)@ + expanded_all(store, types@.take(i as int), depth as nat));
    }
    assert(types@.take(i as int) == types@);
}

fn expand(store: &TypeStore, ty: TypeId, into: &mut Vec<TypeId>, depth: usize)
    requires
        depth <= MAX_EXPANSION + 1,
    ensures
        final(into)@ == old(into)@ + expanded(store, ty, depth as nat),
    decreases MAX_EXPANSION + 1 - depth, 0nat,
{
    if depth > MAX_EXPANSION {
        into.push(ty);
        return;
    }
    match store.kind(ty) {
        TypeKind::Union(elements) => expand_all(store, elements, into, depth + 1),
        TypeKind::TypeAlias(value) => expand(store, *value, into, depth + 1),
        TypeKind::TypeVar(TypeVarBound::Unbounded) => into.push(store.object),
        TypeKind::TypeVar(TypeVarBound::UpperBound(bound)) => expand(
            store,
            *bound,
            into,
            depth + 1,
        ),
        TypeKind::TypeVar(TypeVarBound::Constraints(constraints)) => expand_all(
            store,
            constraints,
            into,
            depth + 1,
        ),
        _ => into.push(ty),
    }
}

/// Union members, with type variables replaced by their bounds and expanded into their
/// constraints, and type aliases by their values.
pub fn expand_subtypes(store: &TypeStore, ty: TypeId) -> (result: Vec<TypeId>)
    ensures
        result@ == subtypes(store, ty),
{
    let mut result: Vec<TypeId> = Vec::new();
    expand(store, ty, &mut result, 0);
    result
}

pub(crate) fn copy_types(types: &Vec<TypeId>) -> (copy: Vec<TypeId>)
    ensures
        copy@ == types@,
{
    let mut copy: Vec<TypeId> = Vec::new();
    let mut i: usize = 0;
    while i < types.len()
        invariant
            i <= types@.len(),
            copy@ == types@.take(i as int),
        decreases types@.len() - i,
    {
        copy.push(types[i]);
        i += 1;
    }
    copy
}

pub fn union_elements(store: &TypeStore, ty: TypeId) -> (result: Vec<TypeId>)
    ensures
        result@ == elements_of(store, ty),
{
    match store.kind(ty) {
        TypeKind::Union(elements) => copy_types(elements),
        _ => {
            let mut result: Vec<TypeId> = Vec::new();
            result.push(ty);
            result
        },
    }
}

/// Some subtype of `left` is comparable to some subtype of `right`; `Never` overlaps
/// with anything.
pub open spec fn overlapping(
    store: &TypeStore,
    left: TypeId,
    right: TypeId,
    is_operator: bool,
) -> bool {
    ||| never(store, left)
    ||| never(store, right)
    ||| exists|i: int, j: int|
        0 <= i < subtypes(store, left).len() && 0 <= j < subtypes(store, right).len()
            && #[trigger] comparable(
            store,
            subtypes(store, left)[i],
            subtypes(store, right)[j],
            is_operator,
            false,
        )
}

/// The two types overlap if any pair of their expanded subtypes is comparable.
pub fn types_overlap(
    store: &TypeStore,
    left: TypeId,
    right: TypeId,
    assume_is_operator: bool,
) -> (answer: bool)
    requires
        store.wf(),
    ensures
        answer == overlapping(store, left, right, assume_is_operator),
{
    if is_never(store, left) || is_never(store, right) {
        return true;
    }
    let left_subtypes = expand_subtypes(store, left);
    let right_subtypes = expand_subtypes(store, right);
    let mut i: usize = 0;
    while i < left_subtypes.len()
        invariant
            i <= left_subtypes@.len(),
            store.wf(),
            left_subtypes@ == subtypes(store, left),
            right_subtypes@ == subtypes(store, right),
            forall|a: int, b: int|
                0 <= a < i && 0 <= b < right_subtypes@.len() ==> !#[trigger] comparable(
                    store,
                    left_subtypes@[a],
                    right_subtypes@[b],
                    assume_is_operator,
                    false,
                ),
        decreases left_subtypes@.len() - i,
    {
        let mut j: usize = 0;
        while j < right_subtypes.len()
            invariant
                i < left_subtypes@.len(),
                j <= right_subtypes@.len(),
                store.wf(),
                left_subtypes@ == subtypes(store, left),
                right_subtypes@ == subtypes(store, right),
                forall|b: int|
                    0 <= b < j ==> !#[trigger] comparable(
                        store,
                        left_subtypes@[i as int],
                        right_subtypes@[b],
                        assume_is_operator,
                        false,
                    ),
            decreases right_subtypes@.len() - j,
        {
            if is_type_comparable(store, left_subtypes[i], right_subtypes[j], assume_is_operator) {
                assert(comparable(
                    store,
                    subtypes(store, left)[i as int],
                    subtypes(store, right)[j as int],
                    assume_is_operator,
                    false,
                ));
                return true;
            }
            j += 1;
        }
        i += 1;
    }
    false
}

// -- literals and enums -----------------------------------------------------------------

/// A literal type with a concrete value; `LiteralString` has none.
pub open spec fn concrete_literal(store: &TypeStore, ty: TypeId) -> bool {
    match store.kind_of(ty) {
        TypeKind::LiteralValue { value, fallback } => !(value is LiteralString),
        _ => false,
    }
}

/// Every element of the type carries a concrete literal value.
pub open spec fn literal_union(store: &TypeStore, ty: TypeId) -> bool {
    forall|i: int|
        0 <= i < elements_of(store, ty).len() ==> concrete_literal(
            store,
            #[trigger] elements_of(store, ty)[i],
        )
}

/// Does every subtype carry a concrete literal value? (`LiteralString` and `None` do not.)
pub fn is_literal_type_or_union(store: &TypeStore, ty: TypeId) -> (answer: bool)
    ensures
        answer == literal_union(store, ty),
{
    let elements = union_elements(store, ty);
    let mut i: usize = 0;
    while i < elements.len()
        invariant
            i <= elements@.len(),
            elements@ == elements_of(store, ty),
            forall|j: int| 0 <= j < i ==> concrete_literal(store, #[trigger] elements@[j]),
        decreases elements@.len() - i,
    {
        let concrete = match store.kind(elements[i]) {
            TypeKind::LiteralValue { value, .. } => !matches!(value, LiteralKind::LiteralString),
            _ => false,
        };
        if !concrete {
            assert(!concrete_literal(store, elements_of(store, ty)[i as int]));
            return false;
        }
        i += 1;
    }
    true
}

/// An enum class whose members are ints, strings or bytes.
pub open spec fn value_based(store: &TypeStore, class: ClassId) -> bool {
    ||| store.inherits(class, KnownClass::Int)
    ||| store.inherits(class, KnownClass::Str)
    ||| store.inherits(class, KnownClass::Bytes)
}

/// The members of an enum class.
pub open spec fn enum_members(store: &TypeStore, class: ClassId) -> Option<Seq<EnumMember>> {
    match store.class_of(class) {
        Some(node) => match node.members {
            Some(members) => Some(members@),
            None => None,
        },
        None => None,
    }
}

/// The value type of the first member of the name at or after position `from`.
pub open spec fn member_value(members: Seq<EnumMember>, name: Seq<char>, from: int) -> Option<
    TypeId,
>
    decreases members.len() - from,
{
    if from < 0 || from >= members.len() {
        None
    } else if members[from].name@ == name {
        Some(members[from].value)
    } else {
        member_value(members, name, from + 1)
    }
}

/// The type a comparison sees in place of `ty`: an enum literal of a value-based enum
/// becomes the value type of its member, an instance of such an enum the union of the
/// value types of all its members.
pub open spec fn value_form(store: &TypeStore, ty: TypeId) -> Result<TypeId, QueryView> {
    match store.kind_of(ty) {
        TypeKind::LiteralValue { value: LiteralKind::Enum { class, member }, fallback } => {
            match enum_members(store, class) {
                Some(members) if value_based(store, class) => match member_value(
                    members,
                    member@,
                    0,
                ) {
                    Some(value) => Ok(value),
                    None => Ok(ty),
                },
                _ => Ok(ty),
            }
        },
        TypeKind::NominalInstance(instance) => {
            match enum_members(store, instance.class) {
                Some(members) if value_based(store, instance.class) && members.len() > 0 => {
                    store.built(QueryView::Union(members.map_values(|m: EnumMember| m.value)))
                },
                _ => Ok(ty),
            }
        },
        _ => Ok(ty),
    }
}

/// The type a comparison sees in place of an operand: its value form, for a union the
/// union of the value forms of its elements.
pub open spec fn operand_form(store: &TypeStore, ty: TypeId) -> Result<TypeId, QueryView> {
    match store.kind_of(ty) {
        TypeKind::Union(elements) => match types::all_ok(
            elements@.map_values(|element: TypeId| value_form(store, element)),
        ) {
            Ok(forms) => store.built(QueryView::Union(forms)),
            Err(query) => Err(query),
        },
        _ => value_form(store, ty),
    }
}

fn is_value_based(store: &TypeStore, class: ClassId) -> (answer: bool)
    ensures
        answer == value_based(store, class),
{
    store.has_base(class, KnownClass::Int) || store.has_base(class, KnownClass::Str)
        || store.has_base(class, KnownClass::Bytes)
}

fn find_member(members: &Vec<EnumMember>, name: &String) -> (value: Option<TypeId>)
    ensures
        value == member_value(members@, name@, 0),
{
    let mut i: usize = 0;
    while i < members.len()
        invariant
            i <= members@.len(),
            member_value(members@, name@, 0) == member_value(members@, name@, i as int),
        decreases members@.len() - i,
    {
        if members[i].name == *name {
            return Some(members[i].value);
        }
        i += 1;
    }
    None
}

fn member_values(members: &Vec<EnumMember>) -> (values: Vec<TypeId>)
    ensures
        values@ == members@.map_values(|m: EnumMember| m.value),
{
    let mut values: Vec<TypeId> = Vec::new();
    let mut i: usize = 0;
    while i < members.len()
        invariant
            i <= members@.len(),
            values@ == members@.take(i as int).map_values(|m: EnumMember| m.value),
        decreases members@.len() - i,
    {
        values.push(members[i].value);
        i += 1;
        assert(members@.take(i as int).drop_last() == members@.take(i - 1));
    }
    assert(members@.take(i as int) == members@);
    values
}

fn replace_one(store: &TypeStore, ty: TypeId) -> (form: Result<TypeId, Query>)
    ensures
        types::outcome(form) == value_form(store, ty),
{
    match store.kind(ty) {
        TypeKind::LiteralValue { value: LiteralKind::Enum { class, member }, .. } => {
            if is_value_based(store, *class) {
                if let Some(node) = store.class(*class) {
                    if let Some(members) = &node.members {
                        if let Some(value) = find_member(members, member) {
                            return Ok(value);
                        }
                    }
                }
            }
            Ok(ty)
        },
        TypeKind::NominalInstance(instance) => {
            if is_value_based(store, instance.class) {
                if let Some(node) = store.class(instance.class) {
                    if let Some(members) = &node.members {
                        if members.len() > 0 {
                            return store.build(Query::Union(member_values(members)));
                        }
                    }
                }
            }
            Ok(ty)
        },
        _ => Ok(ty),
    }
}

/// Replaces int-, str- and bytes-based enum literals by the value types of their members,
/// and instances of such enums by the union of the value types of all members.
pub fn replace_enum_with_literal_value(store: &TypeStore, ty: TypeId) -> (form: Result<
    TypeId,
    Query,
>)
    ensures
        types::outcome(form) == operand_form(store, ty),
{
    match store.kind(ty) {
        TypeKind::Union(elements) => {
            let ghost items = elements@.map_values(|element: TypeId| value_form(store, element));
            let mut forms: Vec<TypeId> = Vec::new();
            let mut i: usize = 0;
            while i < elements.len()
                invariant
                    i <= elements@.len(),
                    items == elements@.map_values(|element: TypeId| value_form(store, element)),
                    store.kind_of(ty) == TypeKind::Union(*elements),
                    forms@.len() == i,
                    forall|j: int|
                        0 <= j < i ==> #[trigger] items[j] == Ok::<TypeId, QueryView>(forms@[j]),
                decreases elements@.len() - i,
            {
                match replace_one(store, elements[i]) {
                    Ok(form) => {
                        forms.push(form);
                    },
                    Err(query) => {
                        proof {
                            types::lemma_first_error(items, i as int);
                        }
                        return Err(query);
                    },
                }
                i += 1;
            }
            proof {
                types::lemma_all_ok(items, forms@);
            }
            store.build(Query::Union(forms))
        },
        _ => replace_one(store, ty),
    }
}

// -- containers -------------------------------------------------------------------------

/// The standard containers whose element type a membership test is checked against.
pub open spec fn container_name(name: Seq<char>) -> bool {
    ||| name == "list"@
    ||| name == "set"@
    ||| name == "frozenset"@
    ||| name == "deque"@
    ||| name == "tuple"@
    ||| name == "dict"@
    ||| name == "defaultdict"@
    ||| name == "OrderedDict"@
}

/// The element types of a tuple.
pub open spec fn tuple_elements(spec: TupleSpec) -> Seq<TypeId> {
    match spec.variable {
        Some(variable) => spec.fixed@.push(variable),
        None => spec.fixed@,
    }
}

/// What a membership test compares with: of a tuple the union of its elements, of any
/// other standard container its first type argument (of a dict the keys).
pub open spec fn element_form(store: &TypeStore, container: TypeId) -> Result<
    Option<TypeId>,
    QueryView,
> {
    match store.kind_of(container) {
        TypeKind::NominalInstance(instance) => match store.class_of(instance.class) {
            Some(class) if container_name(class.name@) && class.stdlib => {
                match (instance.tuple, instance.arguments) {
                    (Some(spec), _) => match store.built(QueryView::Union(tuple_elements(spec))) {
                        Ok(union) => Ok(Some(union)),
                        Err(query) => Err(query),
                    },
                    (None, Some(arguments)) if arguments@.len() > 0 => Ok(Some(arguments@[0])),
                    _ => Ok(None),
                }
            },
            _ => Ok(None),
        },
        _ => Ok(None),
    }
}

fn is_container_name(name: &String) -> (answer: bool)
    ensures
        answer == container_name(name@),
{
    let name = name.as_str();
    same_text(name, "list") || same_text(name, "set") || same_text(name, "frozenset") || same_text(
        name,
        "deque",
    ) || same_text(name, "tuple") || same_text(name, "dict") || same_text(name, "defaultdict")
        || same_text(name, "OrderedDict")
}

/// The element type of a specialized standard container: for `dict`-likes the key type,
/// for `tuple` the union of its elements. `None` for any other type.
pub fn container_element_type(store: &TypeStore, container: TypeId) -> (element: Result<
    Option<TypeId>,
    Query,
>)
    ensures
        types::outcome(element) == element_form(store, container),
{
    let TypeKind::NominalInstance(instance) = store.kind(container) else {
        return Ok(None);
    };
    let Some(class) = store.class(instance.class) else {
        return Ok(None);
    };
    if !is_container_name(&class.name) || !class.stdlib {
        return Ok(None);
    }
    if let Some(spec) = &instance.tuple {
        let mut elements = copy_types(&spec.fixed);
        if let Some(variable) = spec.variable {
            elements.push(variable);
        }
        return match store.build(Query::Union(elements)) {
            Ok(union) => Ok(Some(union)),
            Err(query) => Err(query),
        };
    }
    match &instance.arguments {
        Some(arguments) => if arguments.len() > 0 {
            Ok(Some(arguments[0]))
        } else {
            Ok(None)
        },
        None => Ok(None),
    }
}

} // verus!
