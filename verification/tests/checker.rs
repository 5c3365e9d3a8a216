use ty_unnecessary::checker::{
    check_comparison_pair, check_contains_pair, check_isinstance_call,
    check_unnecessary_diagnostics, is_static_platform_or_version_condition, Finding, Lint,
    RuleSelection,
};
use ty_unnecessary::syntax::{CmpOp, Node, NodeKind, TextRange};
use ty_unnecessary::types::{
    ClassId, ClassInfoFunction, ClassNode, DynamicKind, EnumMember, FunctionId, Instance,
    KnownClass, LiteralKind, ModuleId, Query, StaticClass, TupleSpec, TypeId, TypeKind, TypeNode,
    TypeStore, TypeVarBound,
};
use ty_unnecessary::unnecessary::{expand_subtypes, is_type_comparable, types_overlap};

// -- a store of builtins

const OBJECT: TypeId = TypeId(0);
const UNKNOWN: TypeId = TypeId(1);
const ANY: TypeId = TypeId(2);
const NONE: TypeId = TypeId(3);
const INT: TypeId = TypeId(4);
const STR: TypeId = TypeId(5);
const BOOL: TypeId = TypeId(6);
const FLOAT: TypeId = TypeId(7);
const COMPLEX: TypeId = TypeId(8);
const NEVER: TypeId = TypeId(9);
const ONE: TypeId = TypeId(10);
const TWO: TypeId = TypeId(11);
const TEXT_A: TypeId = TypeId(12);
const TEXT_B: TypeId = TypeId(13);
const FUNCTION: TypeId = TypeId(14);
const COROUTINE: TypeId = TypeId(15);
const MODULE: TypeId = TypeId(16);
const TRUE: TypeId = TypeId(17);

fn node_of(kind: TypeKind, display: &str) -> TypeNode {
    TypeNode {
        kind,
        assignable_to: Vec::new(),
        defines_eq: false,
        display: display.to_string(),
        long_display: display.to_string(),
    }
}

fn instance(class: usize) -> TypeKind {
    TypeKind::NominalInstance(Instance {
        class: ClassId(class),
        arguments: None,
        tuple: None,
    })
}

fn literal(value: LiteralKind, fallback: TypeId) -> TypeKind {
    TypeKind::LiteralValue {
        value,
        fallback: Some(fallback),
    }
}

fn class_of(name: &str, known: KnownClass, mro: &[usize], stdlib: bool, instance: TypeId) -> ClassNode {
    ClassNode {
        name: name.to_string(),
        known,
        mro: mro.iter().map(|i| ClassId(*i)).collect(),
        stdlib,
        metaclass_instance: OBJECT,
        body: Some(StaticClass {
            dataclass: false,
            binds_eq: false,
        }),
        members: None,
        subclass_of: mro.iter().map(|i| ClassId(*i)).collect(),
        instance,
        object: UNKNOWN,
        definition: None,
    }
}

fn allow(store: &mut TypeStore, source: TypeId, target: TypeId) {
    store.types[source.0].assignable_to.push(target);
}

fn push(store: &mut TypeStore, kind: TypeKind, display: &str) -> TypeId {
    let ty = store.add_type(node_of(kind, display)).unwrap();
    allow(store, ty, ty);
    allow(store, ty, OBJECT);
    ty
}

fn builtins() -> TypeStore {
    let mut store = TypeStore::new(OBJECT, UNKNOWN, ANY, NONE);
    push(&mut store, instance(0), "object");
    push(&mut store, TypeKind::Dynamic(DynamicKind::Unknown), "Unknown");
    push(&mut store, TypeKind::Dynamic(DynamicKind::Any), "Any");
    push(&mut store, instance(1), "None");
    push(&mut store, instance(2), "int");
    push(&mut store, instance(3), "str");
    push(&mut store, instance(4), "bool");
    push(&mut store, instance(5), "float");
    push(&mut store, instance(6), "complex");
    push(&mut store, TypeKind::Never, "Never");
    push(&mut store, literal(LiteralKind::Int(1), INT), "Literal[1]");
    push(&mut store, literal(LiteralKind::Int(2), INT), "Literal[2]");
    push(&mut store, literal(LiteralKind::Str, STR), "Literal[\"a\"]");
    push(&mut store, literal(LiteralKind::Str, STR), "Literal[\"b\"]");
    push(&mut store, TypeKind::FunctionLiteral(FunctionId(0)), "def f() -> int");
    push(&mut store, instance(7), "CoroutineType[Any, Any, int]");
    push(&mut store, TypeKind::ModuleLiteral(ModuleId(0)), "<module 'm'>");
    push(&mut store, literal(LiteralKind::Bool(true), BOOL), "Literal[True]");
    for literal in [ONE, TWO, BOOL, TRUE] {
        allow(&mut store, literal, INT);
    }
    allow(&mut store, TRUE, BOOL);
    for literal in [TEXT_A, TEXT_B] {
        allow(&mut store, literal, STR);
    }
    for (name, known, mro, instance) in [
        ("object", KnownClass::Other, vec![0], OBJECT),
        ("NoneType", KnownClass::NoneType, vec![1, 0], NONE),
        ("int", KnownClass::Int, vec![2, 0], INT),
        ("str", KnownClass::Str, vec![3, 0], STR),
        ("bool", KnownClass::Bool, vec![4, 2, 0], BOOL),
        ("float", KnownClass::Float, vec![5, 0], FLOAT),
        ("complex", KnownClass::Complex, vec![6, 0], COMPLEX),
        ("CoroutineType", KnownClass::CoroutineType, vec![7, 0], COROUTINE),
    ] {
        store.classes.push(class_of(name, known, &mro, true, instance));
    }
    store
}

/// A user class with its instance type.
fn user_class(store: &mut TypeStore, name: &str) -> TypeId {
    let class = store.classes.len();
    let ty = push(store, instance(class), name);
    store
        .classes
        .push(class_of(name, KnownClass::Other, &[class, 0], false, ty));
    ty
}

/// A union; it is its own simplified form.
fn union(store: &mut TypeStore, elements: &[TypeId], display: &str) -> TypeId {
    let ty = push(store, TypeKind::Union(elements.to_vec()), display);
    store.record(Query::Union(elements.to_vec()), Some(ty));
    ty
}

// -- syntax

fn node(kind: NodeKind, start: u32, end: u32, ty: Option<TypeId>, children: Vec<Node>) -> Node {
    let range = TextRange { start, end };
    Node {
        kind,
        range,
        outer: range,
        ty,
        region_ty: None,
        children,
    }
}

fn name(text: &str, start: u32, ty: TypeId) -> Node {
    let end = start + text.len() as u32;
    node(NodeKind::Name(text.to_string()), start, end, Some(ty), vec![])
}

fn compare(left: Node, op: CmpOp, right: Node) -> Node {
    let (start, end) = (left.range.start, right.range.end);
    node(NodeKind::Compare(vec![op]), start, end, None, vec![left, right])
}

fn statement(value: Node) -> Node {
    let range = value.range;
    node(NodeKind::ExprStmt, range.start, range.end, None, vec![value])
}

fn all_rules() -> RuleSelection {
    RuleSelection {
        isinstance: true,
        comparison: true,
        contains: true,
    }
}

fn findings(store: &TypeStore, body: Vec<Node>) -> Vec<Finding> {
    check_unnecessary_diagnostics(store, all_rules(), &body).unwrap()
}

fn compared(store: &TypeStore, left: TypeId, op: CmpOp, right: TypeId) -> Option<String> {
    check_comparison_pair(store, &name("x", 0, left), op, &name("y", 5, right)).unwrap()
}

// -- comparisons

#[test]
fn equality_without_overlap() {
    let store = builtins();
    assert_eq!(
        compared(&store, STR, CmpOp::Eq, ONE).as_deref(),
        Some("Condition will always evaluate to False since the types \"str\" and \"Literal[1]\" have no overlap")
    );
    assert_eq!(
        compared(&store, STR, CmpOp::NotEq, ONE).as_deref(),
        Some("Condition will always evaluate to True since the types \"str\" and \"Literal[1]\" have no overlap")
    );
    assert!(compared(&store, ONE, CmpOp::Eq, STR).is_some());
    assert!(compared(&store, INT, CmpOp::Eq, ONE).is_none());
}

#[test]
fn a_union_overlaps_through_one_member() {
    let mut store = builtins();
    let int_or_str = union(&mut store, &[INT, STR], "int | str");
    assert!(compared(&store, int_or_str, CmpOp::Eq, ONE).is_none());
    assert!(types_overlap(&store, int_or_str, TEXT_A, false));
    assert!(!types_overlap(&store, int_or_str, NONE, false));
}

#[test]
fn an_unbuilt_union_is_asked_for() {
    let mut store = builtins();
    let pair = push(&mut store, TypeKind::Union(vec![INT, STR]), "int | str");
    let asked = check_comparison_pair(&store, &name("x", 0, pair), CmpOp::Eq, &name("y", 5, ONE));
    let query = asked.unwrap_err();
    assert!(query.same(&Query::Union(vec![INT, STR])));
    store.record(query, Some(pair));
    assert!(compared(&store, pair, CmpOp::Eq, ONE).is_none());
}

#[test]
fn identity_with_none() {
    let mut store = builtins();
    let optional = union(&mut store, &[STR, NONE], "str | None");
    assert!(compared(&store, STR, CmpOp::Is, NONE).unwrap().contains("to False"));
    assert!(compared(&store, STR, CmpOp::IsNot, NONE).unwrap().contains("to True"));
    assert!(compared(&store, optional, CmpOp::Is, NONE).is_none());
    assert!(compared(&store, OBJECT, CmpOp::Is, NONE).is_none());
}

#[test]
fn a_bool_may_equal_zero_and_one() {
    let mut store = builtins();
    let zero = push(&mut store, literal(LiteralKind::Int(0), INT), "Literal[0]");
    assert!(compared(&store, BOOL, CmpOp::Eq, ONE).is_none());
    assert!(compared(&store, BOOL, CmpOp::Eq, zero).is_none());
    assert!(compared(&store, BOOL, CmpOp::Eq, TWO).is_some());
    assert!(compared(&store, TWO, CmpOp::Eq, BOOL).is_some());
    let no = push(&mut store, literal(LiteralKind::Bool(false), BOOL), "Literal[False]");
    for is_operator in [false, true] {
        for (flag, number, equal) in [
            (BOOL, zero, true),
            (BOOL, ONE, true),
            (BOOL, TWO, false),
            (TRUE, zero, false),
            (TRUE, ONE, true),
            (TRUE, TWO, false),
            (no, zero, true),
            (no, ONE, false),
            (no, TWO, false),
        ] {
            assert_eq!(is_type_comparable(&store, flag, number, is_operator), equal);
            assert_eq!(is_type_comparable(&store, number, flag, is_operator), equal);
        }
    }
}

#[test]
fn numbers_are_promoted() {
    let store = builtins();
    for (left, right) in [(FLOAT, INT), (COMPLEX, INT), (COMPLEX, FLOAT), (BOOL, FLOAT), (INT, FLOAT)] {
        assert!(compared(&store, left, CmpOp::Eq, right).is_none());
        assert!(compared(&store, right, CmpOp::Is, left).is_none());
    }
    for (left, right) in [(FLOAT, ONE), (ONE, FLOAT), (TRUE, COMPLEX), (COMPLEX, TRUE)] {
        assert!(compared(&store, left, CmpOp::Eq, right).is_none());
    }
}

#[test]
fn a_number_is_no_class_object() {
    let mut store = builtins();
    assert!(store.is_wf());
    store.classes.push(class_of("type", KnownClass::Type, &[8, 0], true, OBJECT));
    assert!(store.is_wf());
    for number in [2, 5, 6] {
        store.classes[8].mro = vec![ClassId(8), ClassId(number), ClassId(0)];
        assert!(!store.is_wf());
    }
}

#[test]
fn a_narrowed_float_is_strict() {
    let mut store = builtins();
    let narrowed = push(
        &mut store,
        TypeKind::Intersection(vec![UNKNOWN, FLOAT]),
        "Unknown & float",
    );
    assert!(compared(&store, narrowed, CmpOp::Eq, ONE).is_some());
    assert!(compared(&store, narrowed, CmpOp::Eq, INT).is_none());
    let complement = push(&mut store, TypeKind::EnumComplement(narrowed), "Unknown & float");
    assert!(compared(&store, complement, CmpOp::Eq, ONE).is_some());
}

#[test]
fn a_narrowed_unknown_stays_comparable() {
    let mut store = builtins();
    let narrowed = push(&mut store, TypeKind::Intersection(vec![UNKNOWN]), "Unknown & ~str");
    let empty = push(&mut store, TypeKind::Intersection(vec![]), "~str");
    for ty in [narrowed, empty] {
        assert!(compared(&store, ty, CmpOp::Eq, TWO).is_none());
        assert!(compared(&store, STR, CmpOp::Eq, ty).is_none());
    }
    for ty in [UNKNOWN, ANY] {
        assert!(is_type_comparable(&store, ty, STR, true));
        assert!(is_type_comparable(&store, STR, ty, true));
    }
}

#[test]
fn user_classes_need_an_eq() {
    let mut store = builtins();
    let a = user_class(&mut store, "A");
    let b = user_class(&mut store, "B");
    let with_eq = user_class(&mut store, "WithEq");
    store.types[with_eq.0].defines_eq = true;
    let data = user_class(&mut store, "DC");
    store.types[data.0].defines_eq = true;
    store.classes.last_mut().unwrap().body = Some(StaticClass {
        dataclass: true,
        binds_eq: false,
    });
    assert!(compared(&store, a, CmpOp::Eq, b).is_some());
    assert!(compared(&store, with_eq, CmpOp::Eq, a).is_none());
    assert!(compared(&store, data, CmpOp::Eq, b).is_some());
    store.classes.last_mut().unwrap().body = Some(StaticClass {
        dataclass: true,
        binds_eq: true,
    });
    assert!(compared(&store, data, CmpOp::Eq, b).is_none());
}

#[test]
fn class_objects_compare_by_their_classes() {
    let mut store = builtins();
    let int_class = push(&mut store, TypeKind::ClassLiteral(ClassId(2)), "<class 'int'>");
    let bool_class = push(&mut store, TypeKind::SubclassOf(Some(ClassId(4))), "type[bool]");
    let str_class = push(&mut store, TypeKind::GenericAlias(ClassId(3)), "<class 'str'>");
    let unknown_class = push(&mut store, TypeKind::SubclassOf(None), "type[Unknown]");
    assert!(is_type_comparable(&store, int_class, bool_class, false));
    assert!(is_type_comparable(&store, bool_class, int_class, false));
    assert!(!is_type_comparable(&store, int_class, str_class, false));
    assert!(is_type_comparable(&store, int_class, unknown_class, false));
    assert!(!is_type_comparable(&store, int_class, STR, false));
    store.classes[2].metaclass_instance = FLOAT;
    store.types[FLOAT.0].defines_eq = true;
    assert!(is_type_comparable(&store, int_class, str_class, false));
    assert!(!is_type_comparable(&store, str_class, int_class, false));
}

#[test]
fn literals_compare_by_value() {
    let store = builtins();
    assert!(compared(&store, TEXT_A, CmpOp::Eq, TEXT_B).is_some());
    assert!(compared(&store, TEXT_A, CmpOp::Eq, TEXT_A).is_none());
    assert!(compared(&store, TEXT_A, CmpOp::Eq, ONE).is_some());
}

#[test]
fn value_based_enums_compare_by_their_values() {
    let mut store = builtins();
    let color = store.classes.len();
    let color_ty = push(&mut store, instance(color), "Color");
    store
        .classes
        .push(class_of("Color", KnownClass::Other, &[color, 3, 0], false, color_ty));
    store.classes[color].members = Some(vec![
        EnumMember { name: "RED".to_string(), value: TEXT_A },
        EnumMember { name: "BLUE".to_string(), value: TEXT_B },
    ]);
    let red = push(
        &mut store,
        literal(
            LiteralKind::Enum { class: ClassId(color), member: "RED".to_string() },
            color_ty,
        ),
        "Literal[Color.RED]",
    );
    assert!(compared(&store, red, CmpOp::Eq, TEXT_A).is_none());
    let message = compared(&store, red, CmpOp::Eq, TEXT_B).unwrap();
    assert!(message.contains("\"Literal[\"a\"]\" and \"Literal[\"b\"]\""), "{message}");
    // an instance stands for the union of all values
    let values = union(&mut store, &[TEXT_A, TEXT_B], "Literal[\"a\", \"b\"]");
    assert!(compared(&store, color_ty, CmpOp::Eq, TEXT_B).is_none());
    let message = compared(&store, color_ty, CmpOp::Eq, ONE).unwrap();
    assert!(message.contains("Literal[\"a\", \"b\"]"), "{message}");
    assert_eq!(values.0 + 1, store.types.len());
}

#[test]
fn modules_are_exempt() {
    let store = builtins();
    assert!(compared(&store, MODULE, CmpOp::Eq, STR).is_none());
    assert!(compared(&store, STR, CmpOp::Is, MODULE).is_none());
    assert!(is_type_comparable(&store, MODULE, MODULE, false));
    assert!(!is_type_comparable(&store, MODULE, STR, false));
}

#[test]
fn an_operator_and_its_negation_are_reported_together() {
    let mut store = builtins();
    let maybe = union(&mut store, &[INT, STR], "int | str");
    store.record(Query::Union(vec![INT, STR]), Some(maybe));
    let all = [STR, ONE, INT, BOOL, NONE, TEXT_A, TEXT_B, MODULE, UNKNOWN, ANY, NEVER, maybe];
    for (op, negated) in [(CmpOp::Eq, CmpOp::NotEq), (CmpOp::Is, CmpOp::IsNot)] {
        let mut reported = 0;
        for left in all {
            for right in all {
                let message = compared(&store, left, op, right);
                let other = compared(&store, left, negated, right);
                assert_eq!(
                    message.map(|text| text.replacen("evaluate to False", "evaluate to True", 1)),
                    other
                );
                reported += usize::from(other.is_some());
            }
        }
        assert!(reported > 0);
    }
}

#[test]
fn dynamic_and_untyped_operands_are_exempt() {
    let store = builtins();
    for op in [CmpOp::Eq, CmpOp::NotEq, CmpOp::Is, CmpOp::IsNot] {
        for other in [INT, STR, NONE, TEXT_A, ONE, FUNCTION, OBJECT, MODULE, NEVER] {
            for dynamic in [ANY, UNKNOWN] {
                assert!(compared(&store, dynamic, op, other).is_none());
                assert!(compared(&store, other, op, dynamic).is_none());
            }
        }
        let mut untyped = name("x", 0, STR);
        untyped.ty = None;
        let one = name("y", 5, ONE);
        assert!(check_comparison_pair(&store, &untyped, op, &one).unwrap().is_none());
        assert!(check_comparison_pair(&store, &one, op, &untyped).unwrap().is_none());
    }
}

#[test]
fn static_conditions_are_exempt() {
    let store = builtins();
    let attribute = |module: &str, attr: &str, ty: TypeId| {
        let value = name(module, 0, MODULE);
        node(NodeKind::Attribute(attr.to_string()), 0, 12, Some(ty), vec![value])
    };
    let text = node(NodeKind::StringLiteral, 16, 23, Some(TEXT_B), vec![]);
    let number = node(NodeKind::NumberLiteral, 16, 17, Some(ONE), vec![]);
    let tuple = node(NodeKind::Tuple, 16, 22, None, vec![]);
    let platform = attribute("sys", "platform", TEXT_A);
    assert!(is_static_platform_or_version_condition(&platform, &text));
    assert!(is_static_platform_or_version_condition(&attribute("os", "name", TEXT_A), &text));
    let version = attribute("sys", "version_info", TEXT_A);
    assert!(is_static_platform_or_version_condition(&version, &tuple));
    assert!(!is_static_platform_or_version_condition(&version, &number));
    let item = node(NodeKind::Subscript, 0, 15, None, vec![version]);
    assert!(is_static_platform_or_version_condition(&item, &number));
    assert!(!is_static_platform_or_version_condition(&item, &tuple));
    assert!(!is_static_platform_or_version_condition(&attribute("os", "platform", TEXT_A), &text));
    let checked = check_comparison_pair(&store, &platform, CmpOp::Eq, &text).unwrap();
    assert!(checked.is_none());
    let plain = check_comparison_pair(&store, &name("p", 0, TEXT_A), CmpOp::Eq, &text).unwrap();
    assert!(plain.is_some());
}

#[test]
fn type_variables_and_aliases_are_expanded() {
    let mut store = builtins();
    let free = push(&mut store, TypeKind::TypeVar(TypeVarBound::Unbounded), "T");
    let bound = push(&mut store, TypeKind::TypeVar(TypeVarBound::UpperBound(STR)), "S");
    let constrained = push(
        &mut store,
        TypeKind::TypeVar(TypeVarBound::Constraints(vec![INT, STR])),
        "AnyStr",
    );
    let alias = push(&mut store, TypeKind::TypeAlias(constrained), "Alias");
    assert_eq!(expand_subtypes(&store, free), vec![OBJECT]);
    assert_eq!(expand_subtypes(&store, bound), vec![STR]);
    assert_eq!(expand_subtypes(&store, alias), vec![INT, STR]);
    // an alias of itself ends
    let own = TypeId(store.types.len());
    push(&mut store, TypeKind::TypeAlias(own), "Loop");
    assert_eq!(expand_subtypes(&store, own), vec![own]);
}

// -- conditions

fn condition(store: &TypeStore, test: Node) -> Vec<Finding> {
    findings(store, vec![node(NodeKind::If, 0, 20, None, vec![test])])
}

#[test]
fn functions_and_coroutines_are_always_true() {
    let mut store = builtins();
    let found = condition(&store, name("f", 3, FUNCTION));
    assert_eq!(found.len(), 1);
    assert_eq!(found[0].lint, Lint::UnnecessaryComparison);
    assert_eq!(found[0].range, TextRange { start: 3, end: 4 });
    assert_eq!(
        found[0].message,
        "Conditional expression references function which always evaluates to True"
    );
    let found = condition(&store, name("c", 3, COROUTINE));
    assert_eq!(
        found[0].message,
        "Conditional expression references coroutine which always evaluates to True"
    );
    assert!(condition(&store, name("x", 3, INT)).is_empty());
    assert!(condition(&store, name("x", 3, NEVER)).is_empty());
    let mixed = union(&mut store, &[FUNCTION, INT], "f | int");
    assert!(condition(&store, name("x", 3, mixed)).is_empty());
}

#[test]
fn conditions_are_looked_through() {
    let store = builtins();
    let negated = node(NodeKind::Not, 3, 8, None, vec![name("f", 7, FUNCTION)]);
    assert_eq!(condition(&store, negated).len(), 1);
    let both = node(
        NodeKind::BoolOp,
        3,
        14,
        None,
        vec![
            name("f", 3, FUNCTION),
            node(NodeKind::Not, 8, 14, None, vec![name("g", 12, COROUTINE)]),
        ],
    );
    assert_eq!(condition(&store, both).len(), 2);
}

#[test]
fn the_own_region_of_a_condition_comes_first() {
    let store = builtins();
    let mut leaf = name("f", 3, NEVER);
    leaf.region_ty = Some(FUNCTION);
    assert_eq!(condition(&store, leaf).len(), 1);
    let untyped = node(NodeKind::Name("f".to_string()), 3, 4, None, vec![]);
    assert!(condition(&store, untyped).is_empty());
}

#[test]
fn every_kind_of_condition_is_checked() {
    let store = builtins();
    let f = || name("f", 3, FUNCTION);
    let x = || name("x", 10, INT);
    let loops = node(NodeKind::While, 0, 20, None, vec![f(), statement(x())]);
    assert_eq!(findings(&store, vec![loops]).len(), 1);
    let ternary = node(NodeKind::Ternary, 0, 20, None, vec![x(), f(), x()]);
    assert_eq!(findings(&store, vec![statement(ternary)]).len(), 1);
    let clause = node(NodeKind::Comprehension, 0, 20, None, vec![x(), x(), f(), x(), f()]);
    let list = node(NodeKind::OtherExpr, 0, 20, None, vec![x(), clause]);
    assert_eq!(findings(&store, vec![statement(list)]).len(), 2);
    let elif = node(NodeKind::ElifElse { has_test: true }, 5, 10, None, vec![f()]);
    let other = node(NodeKind::ElifElse { has_test: false }, 10, 15, None, vec![statement(f())]);
    let branches = node(NodeKind::If, 0, 20, None, vec![x(), statement(x()), elif, other]);
    assert_eq!(findings(&store, vec![branches]).len(), 1);
    // an expression statement is no condition
    assert!(findings(&store, vec![statement(f())]).is_empty());
}

// -- containment

fn container(store: &mut TypeStore, class_name: &str, stdlib: bool, arguments: Option<Vec<TypeId>>) -> TypeId {
    let class = store.classes.len();
    let ty = push(
        store,
        TypeKind::NominalInstance(Instance {
            class: ClassId(class),
            arguments,
            tuple: None,
        }),
        class_name,
    );
    store
        .classes
        .push(class_of(class_name, KnownClass::Other, &[class, 0], stdlib, ty));
    ty
}

fn contained(store: &TypeStore, op: CmpOp, left: TypeId, right: TypeId) -> Option<String> {
    check_contains_pair(store, op, &name("x", 0, left), &name("y", 5, right)).unwrap()
}

#[test]
fn membership_without_overlap() {
    let mut store = builtins();
    let ints = container(&mut store, "list", true, Some(vec![INT]));
    let both = union(&mut store, &[INT, STR], "int | str");
    assert_eq!(
        contained(&store, CmpOp::In, STR, ints).as_deref(),
        Some("Expression will always evaluate to False since the types \"str\" and \"int\" have no overlap")
    );
    assert!(contained(&store, CmpOp::NotIn, STR, ints).unwrap().contains("to True"));
    assert!(contained(&store, CmpOp::In, INT, ints).is_none());
    assert!(contained(&store, CmpOp::In, both, ints).is_none());
    assert!(contained(&store, CmpOp::In, NEVER, ints).is_none());
    assert!(contained(&store, CmpOp::In, STR, NEVER).is_none());
}

#[test]
fn only_standard_containers_take_part() {
    let mut store = builtins();
    for class_name in ["list", "set", "frozenset", "deque", "tuple", "dict", "defaultdict", "OrderedDict"] {
        let ty = container(&mut store, class_name, true, Some(vec![INT, STR]));
        assert!(contained(&store, CmpOp::In, STR, ty).is_some(), "{class_name}");
    }
    let own = container(&mut store, "Container", true, Some(vec![INT]));
    let foreign = container(&mut store, "list", false, Some(vec![INT]));
    let bare = container(&mut store, "list", true, None);
    for ty in [own, foreign, bare, INT] {
        assert!(contained(&store, CmpOp::In, STR, ty).is_none());
    }
}

#[test]
fn a_tuple_holds_the_union_of_its_elements() {
    let mut store = builtins();
    let elements = union(&mut store, &[INT, FLOAT], "int | float");
    let class = store.classes.len();
    let pair = push(
        &mut store,
        TypeKind::NominalInstance(Instance {
            class: ClassId(class),
            arguments: None,
            tuple: Some(TupleSpec {
                fixed: vec![INT],
                variable: Some(FLOAT),
            }),
        }),
        "tuple[int, *tuple[float, ...]]",
    );
    store
        .classes
        .push(class_of("tuple", KnownClass::Other, &[class, 0], true, pair));
    let message = contained(&store, CmpOp::In, STR, pair).unwrap();
    assert!(message.contains("\"str\" and \"int | float\""), "{message}");
    assert!(contained(&store, CmpOp::In, BOOL, pair).is_none());
    assert_eq!(elements.0 + 1, pair.0);
}

#[test]
fn literals_survive_through_assignability() {
    let mut store = builtins();
    let texts = container(&mut store, "list", true, Some(vec![TEXT_A]));
    assert!(contained(&store, CmpOp::In, STR, texts).is_none());
    assert!(contained(&store, CmpOp::In, TEXT_A, texts).is_none());
    assert!(contained(&store, CmpOp::In, TEXT_B, texts).is_some());
    let anything = container(&mut store, "list", true, Some(vec![ANY]));
    assert!(contained(&store, CmpOp::In, STR, anything).is_none());
}

// -- isinstance

fn class_check(function: &str, subject: TypeId, classinfo: TypeId) -> Node {
    node(
        NodeKind::Call { keywords: 0 },
        0,
        18,
        None,
        vec![
            name(function, 0, UNKNOWN),
            name("x", 11, subject),
            name("int", 14, classinfo),
        ],
    )
}

/// Records how a subject is narrowed by `int`.
fn narrow(store: &mut TypeStore, function: ClassInfoFunction, subject: TypeId, classinfo: TypeId, positive: TypeId, negative: TypeId) {
    let rest = push(store, TypeKind::Opaque, "~int");
    for (polarity, filtering) in [(true, true), (false, false)] {
        store.record(
            Query::Constraint {
                function,
                classinfo,
                positive: polarity,
                generic_filtering: filtering,
            },
            Some(INT),
        );
    }
    store.record(
        Query::Constraint {
            function: ClassInfoFunction::IsInstance,
            classinfo,
            positive: true,
            generic_filtering: true,
        },
        Some(INT),
    );
    store.record(
        Query::FilterGeneric {
            subject,
            constraint: INT,
        },
        Some(positive),
    );
    store.record(Query::Negation(INT), Some(rest));
    store.record(
        Query::Intersection {
            left: subject,
            right: rest,
        },
        Some(negative),
    );
}

#[test]
fn a_class_check_that_always_holds() {
    let mut store = builtins();
    let classinfo = push(&mut store, TypeKind::ClassLiteral(ClassId(2)), "<class 'int'>");
    narrow(&mut store, ClassInfoFunction::IsInstance, BOOL, classinfo, BOOL, NEVER);
    let message = check_isinstance_call(&store, &class_check("isinstance", BOOL, classinfo)).unwrap();
    assert_eq!(
        message.as_deref(),
        Some("Unnecessary isinstance call; \"bool\" is always an instance of \"int\"")
    );
}

#[test]
fn a_class_check_that_never_holds() {
    let mut store = builtins();
    let classinfo = push(&mut store, TypeKind::ClassLiteral(ClassId(2)), "<class 'int'>");
    narrow(&mut store, ClassInfoFunction::IsSubclass, STR, classinfo, NEVER, STR);
    let message = check_isinstance_call(&store, &class_check("issubclass", STR, classinfo)).unwrap();
    assert_eq!(
        message.as_deref(),
        Some("Unnecessary issubclass call; \"str\" is never a subclass of \"int\"")
    );
}

#[test]
fn an_ambiguous_class_check_is_not_reported() {
    let mut store = builtins();
    let classinfo = push(&mut store, TypeKind::ClassLiteral(ClassId(2)), "<class 'int'>");
    narrow(&mut store, ClassInfoFunction::IsInstance, OBJECT, classinfo, INT, OBJECT);
    let message = check_isinstance_call(&store, &class_check("isinstance", OBJECT, classinfo)).unwrap();
    assert!(message.is_none());
}

#[test]
fn only_bare_calls_with_two_arguments_are_class_checks() {
    let store = builtins();
    assert!(check_isinstance_call(&store, &class_check("alias", INT, INT)).unwrap().is_none());
    let mut three = class_check("isinstance", INT, INT);
    three.children.push(name("y", 20, INT));
    assert!(check_isinstance_call(&store, &three).unwrap().is_none());
    let mut keyword = class_check("isinstance", INT, INT);
    keyword.kind = NodeKind::Call { keywords: 1 };
    assert!(check_isinstance_call(&store, &keyword).unwrap().is_none());
    // a classinfo argument without a constraint
    let mut store = builtins();
    store.record(
        Query::Constraint {
            function: ClassInfoFunction::IsInstance,
            classinfo: STR,
            positive: true,
            generic_filtering: true,
        },
        None,
    );
    assert!(check_isinstance_call(&store, &class_check("isinstance", INT, STR)).unwrap().is_none());
}

#[test]
fn a_class_check_asks_one_query_after_the_other() {
    let mut store = builtins();
    let call = class_check("isinstance", BOOL, INT);
    let mut asked = 0;
    let message = loop {
        match check_isinstance_call(&store, &call) {
            Ok(message) => break message,
            Err(query) => {
                asked += 1;
                let answer = match &query {
                    Query::Constraint { .. } => INT,
                    Query::FilterGeneric { .. } => BOOL,
                    Query::Negation(_) => OBJECT,
                    _ => NEVER,
                };
                store.record(query, Some(answer));
            }
        }
    };
    assert_eq!(asked, 5);
    assert!(message.is_some());
}

#[test]
fn strict_narrowing_intersects() {
    let mut store = builtins();
    store.strict_generic_narrowing = true;
    let call = class_check("isinstance", BOOL, INT);
    store.record(
        Query::Constraint {
            function: ClassInfoFunction::IsInstance,
            classinfo: INT,
            positive: true,
            generic_filtering: false,
        },
        Some(INT),
    );
    store.record(
        Query::Constraint {
            function: ClassInfoFunction::IsInstance,
            classinfo: INT,
            positive: false,
            generic_filtering: false,
        },
        Some(INT),
    );
    let query = check_isinstance_call(&store, &call).unwrap_err();
    assert!(query.same(&Query::Intersection {
        left: BOOL,
        right: INT,
    }));
}

// -- the pass

fn bad_comparison(start: u32) -> Node {
    compare(name("x", start, STR), CmpOp::Eq, name("y", start + 5, ONE))
}

#[test]
fn the_pass_reports_in_source_order() {
    let store = builtins();
    let body = vec![
        node(
            NodeKind::FunctionDef,
            0,
            40,
            None,
            vec![statement(bad_comparison(10)), statement(bad_comparison(20))],
        ),
        statement(bad_comparison(50)),
    ];
    let starts: Vec<u32> = findings(&store, body).iter().map(|f| f.range.start).collect();
    assert_eq!(starts, vec![10, 20, 50]);
}

#[test]
fn further_answers_change_no_finding() {
    let mut store = builtins();
    let both = union(&mut store, &[INT, STR], "int | str");
    let body = || {
        vec![
            statement(bad_comparison(0)),
            statement(compare(name("x", 20, both), CmpOp::Eq, name("y", 25, NONE))),
        ]
    };
    let before = format!("{:?}", findings(&store, body()));
    store.record(Query::Negation(INT), Some(STR));
    store.record(Query::Union(vec![INT, STR]), Some(ANY));
    assert_eq!(format!("{:?}", findings(&store, body())), before);
    assert!(before.contains("int | str"));
}

#[test]
fn chained_comparisons_are_checked_pair_by_pair() {
    let store = builtins();
    let mut left = name("a", 1, STR);
    left.outer = TextRange { start: 0, end: 3 };
    let chain = node(
        NodeKind::Compare(vec![CmpOp::Eq, CmpOp::Order, CmpOp::Is]),
        0,
        30,
        None,
        vec![left, name("b", 7, ONE), name("c", 12, STR), name("d", 17, NONE)],
    );
    let found = findings(&store, vec![statement(chain)]);
    assert_eq!(found.len(), 2);
    assert_eq!(found[0].range, TextRange { start: 0, end: 8 });
    assert_eq!(found[1].range, TextRange { start: 12, end: 18 });
}

#[test]
fn asserts_are_exempt_but_for_conditions() {
    let store = builtins();
    let ternary = node(
        NodeKind::Ternary,
        10,
        30,
        None,
        vec![bad_comparison(10), name("f", 20, FUNCTION), name("z", 25, INT)],
    );
    let body = vec![node(
        NodeKind::Assert,
        0,
        40,
        None,
        vec![bad_comparison(7), ternary, class_check("isinstance", BOOL, INT)],
    )];
    let found = findings(&store, body);
    assert_eq!(found.len(), 1);
    assert!(found[0].message.contains("function"));
}

#[test]
fn rules_have_names() {
    assert_eq!(Lint::UnnecessaryIsinstance.name(), "unnecessary-isinstance");
    assert_eq!(Lint::UnnecessaryComparison.name(), "unnecessary-comparison");
    assert_eq!(Lint::UnnecessaryContains.name(), "unnecessary-contains");
}

#[test]
fn rules_are_off_unless_enabled() {
    let store = builtins();
    let off = RuleSelection {
        isinstance: false,
        comparison: false,
        contains: false,
    };
    let body = vec![
        statement(bad_comparison(0)),
        statement(class_check("isinstance", BOOL, INT)),
    ];
    assert!(check_unnecessary_diagnostics(&store, off, &body).unwrap().is_empty());
    let comparison = RuleSelection {
        isinstance: false,
        comparison: true,
        contains: false,
    };
    let found = check_unnecessary_diagnostics(&store, comparison, &body).unwrap();
    assert_eq!(found.len(), 1);
    assert!(comparison.enabled(Lint::UnnecessaryComparison));
    assert!(!comparison.enabled(Lint::UnnecessaryContains));
    assert!(!comparison.enabled(Lint::UnnecessaryIsinstance));
    // the class check needs types that nobody built yet
    assert!(check_unnecessary_diagnostics(&store, all_rules(), &body).is_err());
}
