use ty_unnecessary::callee::{
    callee_definitions, sole_call_binding, CalleeDefinition, DefinitionKind, ReceiverClass,
    ResolvedDefinition,
};
use ty_unnecessary::display::SelfOwner;
use ty_unnecessary::edges::{call_edge, call_sites, home_name};
use ty_unnecessary::inferred_return::{
    chained_call_return, inferred_return, returns_union, revealed_display, with_inferred_return,
    Stop,
};
use ty_unnecessary::span::{byte_place, span_range, span_type, BytePlace, Lines};
use ty_unnecessary::syntax::{Node, NodeKind, TextRange};
use ty_unnecessary::types::{
    ClassId, ClassNode, DynamicKind, FileId, FileRange, FunctionId, FunctionNode, Instance,
    KnownClass, LiteralKind, Overload, Query, SignatureId, TypeId, TypeKind, TypeNode, TypeStore,
    TypeVarBound,
};

const OBJECT: TypeId = TypeId(0);
const UNKNOWN: TypeId = TypeId(1);
const ANY: TypeId = TypeId(2);
const NONE: TypeId = TypeId(3);
const INT: TypeId = TypeId(4);
const STR: TypeId = TypeId(5);

fn push(store: &mut TypeStore, kind: TypeKind, display: &str) -> TypeId {
    store
        .add_type(TypeNode {
            kind,
            assignable_to: Vec::new(),
            defines_eq: false,
            display: display.to_string(),
            long_display: display.to_string(),
        })
        .unwrap()
}

fn instance(class: usize) -> TypeKind {
    TypeKind::NominalInstance(Instance {
        class: ClassId(class),
        arguments: None,
        tuple: None,
    })
}

fn base_store() -> TypeStore {
    let mut store = TypeStore::new(OBJECT, UNKNOWN, ANY, NONE);
    push(&mut store, TypeKind::Opaque, "object");
    push(&mut store, TypeKind::Dynamic(DynamicKind::Unknown), "Unknown");
    push(&mut store, TypeKind::Dynamic(DynamicKind::Any), "Any");
    push(&mut store, TypeKind::Opaque, "None");
    push(&mut store, TypeKind::Opaque, "int");
    push(&mut store, TypeKind::Opaque, "str");
    store
}

fn node(kind: NodeKind, ty: Option<TypeId>, children: Vec<Node>) -> Node {
    let range = TextRange { start: 0, end: 1 };
    Node {
        kind,
        range,
        outer: range,
        ty,
        region_ty: None,
        children,
    }
}

fn value(ty: TypeId) -> Node {
    node(NodeKind::OtherExpr, Some(ty), vec![])
}

fn giving(ty: TypeId) -> Node {
    node(NodeKind::Return, None, vec![value(ty)])
}

fn statement(expr: Node) -> Node {
    node(NodeKind::ExprStmt, None, vec![expr])
}

fn yields(ty: TypeId) -> Node {
    node(NodeKind::Yield, Some(UNKNOWN), vec![value(ty)])
}

fn place(file: usize, line: u32) -> FileRange {
    FileRange {
        file: FileId(file),
        range: TextRange {
            start: line,
            end: line + 1,
        },
    }
}

fn function(body: Vec<Node>, end_reachable: bool, is_generator: bool) -> FunctionNode {
    FunctionNode {
        overloaded: false,
        annotated: false,
        is_async: false,
        is_generator,
        body,
        end_reachable,
        signature: SignatureId(7),
        definition: place(0, 1),
    }
}

/// Adds a function and the type that denotes it.
fn add_function(store: &mut TypeStore, node: FunctionNode) -> TypeId {
    let id = FunctionId(store.functions.len());
    store.functions.push(node);
    push(store, TypeKind::FunctionLiteral(id), "def f()")
}

/// Answers every query with the display that the type checker would build.
fn reveal_text(store: &mut TypeStore, ty: TypeId) -> String {
    loop {
        match revealed_display(store, ty) {
            Ok(text) => return text,
            Err(query) => {
                let show = |ty: &TypeId| store.types[ty.0].display.clone();
                let display = match &query {
                    Query::Union(elements) => {
                        let mut parts: Vec<String> = Vec::new();
                        for element in elements {
                            if !parts.contains(&show(element)) {
                                parts.push(show(element));
                            }
                        }
                        if parts.is_empty() {
                            "Never".to_string()
                        } else {
                            parts.join(" | ")
                        }
                    }
                    Query::ElementOf(_) => "str".to_string(),
                    Query::Generator { yields, send, result } => {
                        format!("Generator[{}, {}, {}]", show(yields), show(send), show(result))
                    }
                    Query::AsyncGenerator { yields, send } => {
                        format!("AsyncGenerator[{}, {}]", show(yields), show(send))
                    }
                    Query::Callable { signature, result, .. } => {
                        assert_eq!(*signature, SignatureId(7));
                        format!("() -> {}", show(result))
                    }
                    other => panic!("{other:?}"),
                };
                let kind = match &query {
                    Query::Callable { signature, result, .. } => TypeKind::Callable {
                        overloads: vec![Overload {
                            signature: *signature,
                            result: *result,
                        }],
                        definition: None,
                    },
                    Query::Union(elements) if elements.len() == 1 => {
                        let only = elements[0];
                        store.record(query, Some(only));
                        continue;
                    }
                    _ => TypeKind::Opaque,
                };
                let built = push(store, kind, &display);
                store.record(query, Some(built));
            }
        }
    }
}

// -- inferred returns

#[test]
fn unannotated_functions_reveal_their_returns() {
    let mut store = base_store();
    let predicate = add_function(&mut store, function(vec![giving(INT)], false, false));
    let procedure = add_function(&mut store, function(vec![], true, false));
    let never = add_function(&mut store, function(vec![], false, false));
    let maybe = add_function(
        &mut store,
        function(
            vec![node(NodeKind::If, None, vec![value(INT), giving(INT)])],
            true,
            false,
        ),
    );
    let bare = add_function(
        &mut store,
        function(vec![node(NodeKind::Return, None, vec![])], false, false),
    );
    assert_eq!(reveal_text(&mut store, predicate), "() -> int");
    assert_eq!(reveal_text(&mut store, procedure), "() -> None");
    assert_eq!(reveal_text(&mut store, never), "() -> Never");
    assert_eq!(reveal_text(&mut store, maybe), "() -> int | None");
    assert_eq!(reveal_text(&mut store, bare), "() -> None");
}

#[test]
fn annotated_overloaded_and_async_functions_stay() {
    let mut store = base_store();
    for change in 0..3 {
        let mut node = function(vec![giving(INT)], false, false);
        match change {
            0 => node.annotated = true,
            1 => node.overloaded = true,
            _ => node.is_async = true,
        }
        let ty = add_function(&mut store, node);
        assert_eq!(revealed_display(&store, ty).unwrap(), "def f()");
    }
    assert_eq!(revealed_display(&store, INT).unwrap(), "int");
    assert_eq!(revealed_display(&store, TypeId(999)).unwrap(), "");
}

#[test]
fn nested_definitions_keep_their_returns_and_yields() {
    let mut store = base_store();
    let inner = node(NodeKind::FunctionDef, None, vec![giving(STR)]);
    let class = node(NodeKind::ClassDef, None, vec![giving(STR)]);
    let outer = add_function(&mut store, function(vec![inner, class, giving(INT)], false, false));
    assert_eq!(reveal_text(&mut store, outer), "() -> int");
    let inner = node(
        NodeKind::FunctionDef,
        None,
        vec![node(NodeKind::OtherStmt, None, vec![yields(STR)])],
    );
    let lambda = node(NodeKind::Lambda, Some(UNKNOWN), vec![yields(STR)]);
    let outer = add_function(
        &mut store,
        function(vec![inner, statement(lambda), statement(yields(INT))], true, true),
    );
    assert_eq!(reveal_text(&mut store, outer), "() -> Generator[int, Any, None]");
}

#[test]
fn generators_reveal_what_they_yield_and_return() {
    let mut store = base_store();
    let two = add_function(
        &mut store,
        function(vec![statement(yields(INT)), statement(yields(STR))], true, true),
    );
    let with_return = add_function(
        &mut store,
        function(vec![statement(yields(INT)), giving(STR)], false, true),
    );
    let bare = add_function(
        &mut store,
        function(vec![statement(node(NodeKind::Yield, Some(UNKNOWN), vec![]))], true, true),
    );
    assert_eq!(reveal_text(&mut store, two), "() -> Generator[int | str, Any, None]");
    assert_eq!(reveal_text(&mut store, with_return), "() -> Generator[int, Any, str]");
    assert_eq!(reveal_text(&mut store, bare), "() -> Generator[None, Any, None]");
}

#[test]
fn consumed_yields_make_the_send_type_unknown() {
    let mut store = base_store();
    let assigned = node(NodeKind::OtherStmt, None, vec![value(INT), yields(INT)]);
    let consumed = add_function(&mut store, function(vec![assigned], true, true));
    let tested = add_function(
        &mut store,
        function(vec![node(NodeKind::If, None, vec![yields(INT)])], true, true),
    );
    let nested = node(NodeKind::Yield, Some(UNKNOWN), vec![yields(INT)]);
    let doubled = add_function(&mut store, function(vec![statement(nested)], true, true));
    assert_eq!(reveal_text(&mut store, consumed), "() -> Generator[int, Unknown, None]");
    assert_eq!(reveal_text(&mut store, tested), "() -> Generator[int, Unknown, None]");
    assert!(reveal_text(&mut store, doubled).contains(", Unknown, None]"));
}

#[test]
fn yield_from_contributes_the_elements() {
    let mut store = base_store();
    let delegate = || statement(node(NodeKind::YieldFrom, Some(UNKNOWN), vec![value(ANY)]));
    let delegates = add_function(&mut store, function(vec![delegate()], true, true));
    let mixed = add_function(
        &mut store,
        function(vec![statement(yields(INT)), delegate()], true, true),
    );
    assert_eq!(reveal_text(&mut store, delegates), "() -> Generator[str, Unknown, None]");
    assert_eq!(reveal_text(&mut store, mixed), "() -> Generator[int | str, Unknown, None]");
}

#[test]
fn async_generators_have_no_return() {
    let mut store = base_store();
    let mut node = function(vec![statement(yields(INT))], true, true);
    node.is_async = true;
    let generator = add_function(&mut store, node);
    assert_eq!(reveal_text(&mut store, generator), "() -> AsyncGenerator[int, Any]");
}

#[test]
fn an_untyped_return_leaves_the_function_as_it_is() {
    let mut store = base_store();
    let untyped = node(NodeKind::Return, None, vec![node(NodeKind::OtherExpr, None, vec![])]);
    let ty = add_function(&mut store, function(vec![untyped], false, false));
    assert_eq!(revealed_display(&store, ty).unwrap(), "def f()");
}

fn returns_call(own: TypeId, callee: TypeId) -> Node {
    let call = node(
        NodeKind::Call { keywords: 0 },
        Some(own),
        vec![node(NodeKind::Name("g".to_string()), Some(callee), vec![])],
    );
    node(NodeKind::Return, None, vec![call])
}

#[test]
fn returned_calls_are_followed() {
    let mut store = base_store();
    let inner = add_function(&mut store, function(vec![giving(INT)], false, false));
    let outer = add_function(
        &mut store,
        function(vec![returns_call(UNKNOWN, inner)], false, false),
    );
    assert_eq!(reveal_text(&mut store, outer), "() -> int");
    // a call whose type is known stands for itself
    let known = add_function(
        &mut store,
        function(vec![returns_call(STR, inner)], false, false),
    );
    assert_eq!(reveal_text(&mut store, known), "() -> str");
}

#[test]
fn chains_of_returned_calls_end() {
    let mut store = base_store();
    // a function that returns a call of itself
    let own = TypeId(store.types.len());
    let recursive = add_function(
        &mut store,
        function(vec![returns_call(UNKNOWN, own)], false, false),
    );
    assert_eq!(recursive, own);
    assert_eq!(reveal_text(&mut store, recursive), "() -> Unknown");
    // ten functions, each returning a call of the one before
    let mut last = add_function(&mut store, function(vec![giving(INT)], false, false));
    let mut chain = vec![last];
    for _ in 0..9 {
        last = add_function(
            &mut store,
            function(vec![returns_call(UNKNOWN, last)], false, false),
        );
        chain.push(last);
    }
    assert_eq!(reveal_text(&mut store, chain[7]), "() -> int");
    assert_eq!(reveal_text(&mut store, chain[8]), "() -> Unknown");
    assert_eq!(reveal_text(&mut store, chain[9]), "() -> Unknown");
}

#[test]
fn bound_methods_and_properties_reveal_their_functions() {
    let mut store = base_store();
    store.functions.push(function(vec![giving(INT)], false, false));
    let bound = push(
        &mut store,
        TypeKind::BoundMethod {
            function: FunctionId(0),
            receiver: OBJECT,
            signatures: vec![SignatureId(7)],
        },
        "bound method",
    );
    let overloaded = push(
        &mut store,
        TypeKind::BoundMethod {
            function: FunctionId(0),
            receiver: OBJECT,
            signatures: vec![SignatureId(7), SignatureId(8)],
        },
        "overloaded method",
    );
    let getter = push(&mut store, TypeKind::FunctionLiteral(FunctionId(0)), "def get()");
    let property = push(&mut store, TypeKind::Property(Some(getter)), "property");
    let write_only = push(&mut store, TypeKind::Property(None), "write-only");
    assert_eq!(reveal_text(&mut store, bound), "() -> int");
    assert_eq!(reveal_text(&mut store, overloaded), "overloaded method");
    assert_eq!(reveal_text(&mut store, property), "() -> int");
    assert_eq!(reveal_text(&mut store, write_only), "write-only");
}

#[test]
fn callables_that_kept_their_definition_reveal_it() {
    let mut store = base_store();
    store.functions.push(function(vec![giving(INT)], false, false));
    let callable = |result: TypeId, definition: Option<FunctionId>| TypeKind::Callable {
        overloads: vec![Overload {
            signature: SignatureId(7),
            result,
        }],
        definition,
    };
    let kept = push(&mut store, callable(UNKNOWN, Some(FunctionId(0))), "kept");
    let known = push(&mut store, callable(STR, Some(FunctionId(0))), "known");
    let plain = push(&mut store, callable(UNKNOWN, None), "plain");
    assert_eq!(reveal_text(&mut store, kept), "() -> int");
    assert_eq!(reveal_text(&mut store, known), "known");
    assert_eq!(reveal_text(&mut store, plain), "plain");
    let form = with_inferred_return(&store, kept).unwrap();
    assert!(matches!(store.kind(form), TypeKind::Callable { .. }));
}

#[test]
fn revealing_twice_changes_nothing() {
    let mut store = base_store();
    let typed = add_function(&mut store, function(vec![giving(INT)], false, false));
    let text = reveal_text(&mut store, typed);
    let form = with_inferred_return(&store, typed).unwrap();
    assert!(form != typed);
    match store.kind(form) {
        TypeKind::Callable { overloads, .. } => {
            let only = Overload {
                signature: SignatureId(7),
                result: INT,
            };
            assert_eq!(*overloads, vec![only]);
        }
        other => panic!("{other:?}"),
    }
    assert_eq!(with_inferred_return(&store, form).unwrap(), form);
    assert_eq!(revealed_display(&store, form).unwrap(), text);
    // a callable that keeps the function it came from, with an unknown return
    let open = add_function(&mut store, function(vec![giving(UNKNOWN)], false, false));
    let kept = push(
        &mut store,
        TypeKind::Callable {
            overloads: vec![Overload {
                signature: SignatureId(7),
                result: UNKNOWN,
            }],
            definition: Some(FunctionId(1)),
        },
        "() -> Unknown",
    );
    store.record(Query::Union(vec![UNKNOWN]), Some(UNKNOWN));
    let query = |function: usize| Query::Callable {
        source: FunctionId(function),
        signature: SignatureId(7),
        result: UNKNOWN,
    };
    // what was not asked for is not recorded
    assert!(!store.record(query(0), Some(kept)));
    assert!(!store.record(query(1), Some(form)));
    assert!(!store.record(query(1), Some(INT)));
    assert!(store.record(query(1), Some(kept)));
    assert_eq!(with_inferred_return(&store, open).unwrap(), kept);
    assert_eq!(with_inferred_return(&store, kept).unwrap(), kept);
}

#[test]
fn any_number_of_functions_may_be_under_inference() {
    let mut store = base_store();
    let inner = add_function(&mut store, function(vec![giving(INT)], false, false));
    let outer = function(vec![returns_call(UNKNOWN, inner)], false, false);
    add_function(&mut store, outer);
    store.record(Query::Union(vec![INT]), Some(INT));
    store.record(Query::Union(vec![UNKNOWN]), Some(UNKNOWN));
    for (depth, chained) in [(1, INT), (7, INT), (8, UNKNOWN), (9, UNKNOWN), (20, UNKNOWN)] {
        let mut visiting: Vec<FunctionId> = (0..depth).map(|i| FunctionId(100 + i)).collect();
        let before = visiting.clone();
        let through = inferred_return(&store, FunctionId(1), &mut visiting);
        assert_eq!(through.unwrap(), chained);
        let through = returns_union(&store, &store.functions[1], &mut visiting);
        assert_eq!(through.unwrap(), chained);
        let direct = chained_call_return(&store, Some(inner), &mut visiting);
        if depth < 8 {
            assert_eq!(direct.unwrap(), INT);
        } else {
            assert!(matches!(direct, Err(Stop::Inapplicable)));
        }
        assert_eq!(visiting, before);
    }
}

// -- callees

fn class_node(name: &str, definition: Option<FileRange>) -> ClassNode {
    ClassNode {
        name: name.to_string(),
        known: KnownClass::Other,
        mro: vec![],
        stdlib: false,
        metaclass_instance: OBJECT,
        body: None,
        members: None,
        subclass_of: vec![],
        instance: OBJECT,
        object: OBJECT,
        definition,
    }
}

fn call(func: Node) -> Node {
    node(NodeKind::Call { keywords: 0 }, Some(UNKNOWN), vec![func])
}

fn named(name: &str, ty: TypeId) -> Node {
    node(NodeKind::Name(name.to_string()), Some(ty), vec![])
}

fn definitions(store: &TypeStore, call: &Node) -> Option<Vec<CalleeDefinition>> {
    callee_definitions(store, FileId(0), call, &vec![]).unwrap()
}

#[test]
fn functions_methods_and_classes_are_definitions() {
    let mut store = base_store();
    let plain = add_function(&mut store, function(vec![], true, false));
    store.classes.push(class_node("C", Some(place(3, 9))));
    store.classes.push(class_node("Dynamic", None));
    let receiver = push(&mut store, instance(0), "C");
    let method = push(
        &mut store,
        TypeKind::BoundMethod {
            function: FunctionId(0),
            receiver,
            signatures: vec![],
        },
        "bound method",
    );
    let class = push(&mut store, TypeKind::ClassLiteral(ClassId(0)), "<class 'C'>");
    let dynamic = push(&mut store, TypeKind::ClassLiteral(ClassId(1)), "<class 'Dynamic'>");
    let found = definitions(&store, &call(named("f", plain))).unwrap();
    assert_eq!(
        found,
        vec![CalleeDefinition {
            definition: place(0, 1),
            receiver: ReceiverClass::Unbound
        }]
    );
    let found = definitions(&store, &call(named("m", method))).unwrap();
    assert_eq!(found[0].receiver, ReceiverClass::Defined(FileId(3)));
    let found = definitions(&store, &call(named("C", class))).unwrap();
    assert_eq!(found[0].definition, place(3, 9));
    assert_eq!(found[0].receiver, ReceiverClass::Unbound);
    for other in [dynamic, UNKNOWN, receiver] {
        assert!(definitions(&store, &call(named("x", other))).is_none());
    }
}

#[test]
fn receivers_are_traced_to_their_class() {
    let mut store = base_store();
    let _ = add_function(&mut store, function(vec![], true, false));
    store.classes.push(class_node("C", Some(place(3, 9))));
    let plain = push(&mut store, instance(0), "C");
    let own = push(&mut store, TypeKind::TypeVar(TypeVarBound::UpperBound(plain)), "Self@C");
    let text = push(
        &mut store,
        TypeKind::LiteralValue {
            value: LiteralKind::Str,
            fallback: Some(plain),
        },
        "Literal[\"\"]",
    );
    let class = push(&mut store, TypeKind::GenericAlias(ClassId(0)), "<class 'C[int]'>");
    let free = push(&mut store, TypeKind::TypeVar(TypeVarBound::Unbounded), "T");
    for (receiver, home) in [
        (plain, ReceiverClass::Defined(FileId(3))),
        (own, ReceiverClass::Defined(FileId(3))),
        (text, ReceiverClass::Defined(FileId(3))),
        (class, ReceiverClass::Defined(FileId(3))),
        (free, ReceiverClass::Opaque),
        (UNKNOWN, ReceiverClass::Opaque),
    ] {
        let method = push(
            &mut store,
            TypeKind::BoundMethod {
                function: FunctionId(0),
                receiver,
                signatures: vec![],
            },
            "m",
        );
        let found = definitions(&store, &call(named("m", method))).unwrap();
        assert_eq!(found[0].receiver, home);
    }
}

#[test]
fn a_union_contributes_all_or_nothing() {
    let mut store = base_store();
    let first = add_function(&mut store, function(vec![], true, false));
    let mut node = function(vec![], true, false);
    node.definition = place(1, 5);
    let second = add_function(&mut store, node);
    let both = push(&mut store, TypeKind::Union(vec![first, second]), "f | g");
    let partly = push(&mut store, TypeKind::Union(vec![first, UNKNOWN]), "f | Unknown");
    let found = definitions(&store, &call(named("f", both))).unwrap();
    let places: Vec<FileRange> = found.iter().map(|d| d.definition).collect();
    assert_eq!(places, vec![place(0, 1), place(1, 5)]);
    assert!(definitions(&store, &call(named("f", partly))).is_none());
}

fn method_call(receiver: Node) -> Node {
    call(node(NodeKind::Attribute("m".to_string()), Some(UNKNOWN), vec![receiver]))
}

fn assigned(file: usize, unpacked: bool, target_is_name: bool, value: Node) -> ResolvedDefinition {
    ResolvedDefinition::Definition {
        file: FileId(file),
        kind: DefinitionKind::Assignment {
            unpacked,
            target_is_name,
            value,
        },
    }
}

#[test]
fn receivers_that_helpers_return_are_typed() {
    let mut store = base_store();
    store.classes.push(class_node("C", Some(place(3, 9))));
    let made = push(&mut store, instance(0), "C");
    let make = add_function(&mut store, function(vec![giving(made)], false, false));
    let method_id = FunctionId(store.functions.len());
    let mut method_node = function(vec![], true, false);
    method_node.definition = place(3, 10);
    store.functions.push(method_node);
    let method = push(
        &mut store,
        TypeKind::BoundMethod {
            function: method_id,
            receiver: made,
            signatures: vec![],
        },
        "C.m",
    );
    reveal_text(&mut store, make);
    store.record(
        Query::Member {
            receiver: made,
            name: "m".to_string(),
        },
        Some(method),
    );
    // make().m()
    let direct = method_call(call(named("make", make)));
    let found = definitions(&store, &direct).unwrap();
    assert_eq!(found[0].definition, place(3, 10));
    assert_eq!(found[0].receiver, ReceiverClass::Defined(FileId(3)));
    // c = make(); c.m()
    let through_name = method_call(named("c", UNKNOWN));
    let bound = |file, unpacked, is_name| vec![assigned(file, unpacked, is_name, call(named("make", make)))];
    let resolve = |definitions: Vec<ResolvedDefinition>| {
        callee_definitions(&store, FileId(0), &through_name, &definitions).unwrap()
    };
    assert_eq!(resolve(bound(0, false, true)).unwrap()[0].definition, place(3, 10));
    assert!(resolve(bound(1, false, true)).is_none());
    assert!(resolve(bound(0, true, true)).is_none());
    assert!(resolve(bound(0, false, false)).is_none());
    assert!(resolve(vec![]).is_none());
    let mut two = bound(0, false, true);
    two.push(ResolvedDefinition::Other);
    assert!(resolve(two).is_none());
    assert!(resolve(vec![assigned(0, false, true, named("make", make))]).is_none());
    assert!(sole_call_binding(FileId(0), &bound(0, false, true)).is_some());
}

// -- edges

#[test]
fn edges_lead_into_the_root_or_out_of_it() {
    let mut store = base_store();
    let root = vec![FileId(0), FileId(3)];
    store.classes.push(class_node("C", Some(place(3, 9))));
    store.classes.push(class_node("str", Some(place(8, 1))));
    let ours = push(&mut store, instance(0), "C");
    let theirs = push(&mut store, instance(1), "str");
    let local = add_function(&mut store, function(vec![], true, false));
    let mut library = function(vec![], true, false);
    library.definition = place(8, 20);
    let outside = add_function(&mut store, library);
    let bind = |receiver: TypeId| TypeKind::BoundMethod {
        function: FunctionId(1),
        receiver,
        signatures: vec![],
    };
    let inherited = push(&mut store, bind(ours), "C.encode");
    let foreign = push(&mut store, bind(theirs), "str.join");
    let opaque = push(&mut store, bind(UNKNOWN), "x.join");
    let mixed = push(&mut store, TypeKind::Union(vec![local, outside, inherited]), "mixed");
    let edge = |ty: TypeId| {
        call_edge(&store, &root, FileId(0), &call(named("f", ty)), &vec![]).unwrap()
    };
    let found = edge(local).unwrap();
    assert_eq!((found.targets, found.external), (vec![place(0, 1)], vec![]));
    for ty in [outside, foreign] {
        let found = edge(ty).unwrap();
        assert_eq!((found.targets, found.external), (vec![], vec![place(8, 20)]));
    }
    for ty in [inherited, opaque, UNKNOWN] {
        assert!(edge(ty).is_none());
    }
    let found = edge(mixed).unwrap();
    assert_eq!(found.targets, vec![place(0, 1)]);
    assert_eq!(found.external, vec![place(8, 20)]);
    assert_eq!(found.call, TextRange { start: 0, end: 1 });
}

#[test]
fn inner_calls_come_first() {
    let mut inner = call(named("make", UNKNOWN));
    inner.range = TextRange { start: 4, end: 10 };
    let mut outer = method_call(inner);
    outer.range = TextRange { start: 4, end: 14 };
    let mut next = call(named("len", UNKNOWN));
    next.range = TextRange { start: 20, end: 26 };
    let body = vec![statement(outer), statement(next)];
    let ends: Vec<u32> = call_sites(&body).iter().map(|c| c.range.end).collect();
    assert_eq!(ends, vec![10, 14, 26]);
}

#[test]
fn homes_are_dotted() {
    assert_eq!(home_name("builtins", &vec!["open".to_string()]), "builtins.open");
    assert_eq!(
        home_name("pathlib", &vec!["Path".to_string(), "write_text".to_string()]),
        "pathlib.Path.write_text"
    );
    assert_eq!(home_name("m", &vec![]), "m");
}

// -- spans

fn at(mut node: Node, start: u32, end: u32) -> Node {
    node.range = TextRange { start, end };
    node
}

#[test]
fn spans_are_ranges_of_bytes() {
    let lines = Lines {
        starts: vec![0, 10, 25],
        text_len: 30,
    };
    let range = |start: u32, end: u32| Some(TextRange { start, end });
    assert_eq!(span_range(&lines, 1, 2, 5), range(2, 5));
    assert_eq!(span_range(&lines, 2, 0, 3), range(10, 13));
    assert_eq!(span_range(&lines, 3, 5, 5), range(30, 30));
    assert_eq!(span_range(&lines, 3, 5, 6), None);
    assert_eq!(span_range(&lines, 2, 4, 3), None);
    assert_eq!(span_range(&lines, 0, 0, 1), None);
    assert_eq!(span_range(&lines, 4, 0, 0), None);
    assert_eq!(span_range(&lines, 999, 0, 1), None);
    assert_eq!(span_range(&lines, 1, usize::MAX, usize::MAX), None);
}

#[test]
fn places_are_lines_and_bytes() {
    let lines = Lines {
        starts: vec![0, 10, 25],
        text_len: 30,
    };
    assert_eq!(byte_place(&lines, 0), Some(BytePlace { line: 1, col: 0 }));
    assert_eq!(byte_place(&lines, 9), Some(BytePlace { line: 1, col: 9 }));
    assert_eq!(byte_place(&lines, 10), Some(BytePlace { line: 2, col: 0 }));
    assert_eq!(byte_place(&lines, 30), Some(BytePlace { line: 3, col: 5 }));
    let empty = Lines {
        starts: vec![],
        text_len: 0,
    };
    assert_eq!(byte_place(&empty, 0), None);
    let range = span_range(&lines, 2, 4, 6).unwrap();
    assert_eq!(byte_place(&lines, range.start), Some(BytePlace { line: 2, col: 4 }));
}

#[test]
fn only_the_exact_span_answers() {
    let mut store = base_store();
    let starred = push(&mut store, TypeKind::Opaque, "float*");
    let own = push(&mut store, TypeKind::Opaque, "Self@who");
    // return helper("abc")
    let argument = at(value(starred), 18, 23);
    let callee = at(named("helper", own), 11, 17);
    let inner = at(node(NodeKind::Call { keywords: 0 }, Some(INT), vec![callee, argument]), 11, 24);
    let body = vec![at(node(NodeKind::Return, None, vec![inner]), 4, 24)];
    let lines = Lines {
        starts: vec![0],
        text_len: 30,
    };
    let owners = vec![SelfOwner {
        method: "who".to_string(),
        class: "K".to_string(),
    }];
    let ask = |from: usize, to: usize| {
        span_type(&store, &body, &lines, &owners, 1, from, to).unwrap()
    };
    assert_eq!(ask(18, 23).as_deref(), Some("float"));
    assert_eq!(ask(11, 17).as_deref(), Some("Self@K"));
    assert_eq!(ask(11, 24).as_deref(), Some("int"));
    // off the nodes, inside a node, a statement, past the line
    assert_eq!(ask(11, 20), None);
    assert_eq!(ask(18, 22), None);
    assert_eq!(ask(4, 24), None);
    assert_eq!(ask(18, 99), None);
}

#[test]
fn the_innermost_expression_at_a_span_answers() {
    let store = base_store();
    let inner = at(value(INT), 0, 3);
    let outer = at(node(NodeKind::OtherExpr, Some(STR), vec![inner]), 0, 3);
    let body = vec![at(statement(outer), 0, 3)];
    let lines = Lines {
        starts: vec![0],
        text_len: 3,
    };
    let answer = span_type(&store, &body, &lines, &vec![], 1, 0, 3).unwrap();
    assert_eq!(answer.as_deref(), Some("int"));
    // an expression without a type is a miss
    let untyped = vec![at(node(NodeKind::OtherExpr, None, vec![]), 0, 3)];
    assert_eq!(span_type(&store, &untyped, &lines, &vec![], 1, 0, 3).unwrap(), None);
}

#[test]
fn a_span_on_a_function_reveals_its_inferred_return() {
    let mut store = base_store();
    let ty = add_function(&mut store, function(vec![giving(INT)], false, false));
    let body = vec![at(named("f", ty), 0, 1)];
    let lines = Lines {
        starts: vec![0],
        text_len: 1,
    };
    assert!(span_type(&store, &body, &lines, &vec![], 1, 0, 1).is_err());
    reveal_text(&mut store, ty);
    let answer = span_type(&store, &body, &lines, &vec![], 1, 0, 1).unwrap();
    assert_eq!(answer.as_deref(), Some("() -> int"));
}

// -- stores

#[test]
fn parts_stand_before_their_types() {
    let mut store = base_store();
    assert!(store.is_wf());
    let ahead = TypeId(store.types.len());
    let refused = store.add_type(TypeNode {
        kind: TypeKind::Union(vec![INT, ahead]),
        assignable_to: Vec::new(),
        defines_eq: false,
        display: String::new(),
        long_display: String::new(),
    });
    assert_eq!(refused, None);
    assert_eq!(store.types.len(), ahead.0);
    store.types[0].kind = TypeKind::Intersection(vec![OBJECT]);
    assert!(!store.is_wf());
}

#[test]
fn the_first_answer_counts() {
    let mut store = base_store();
    assert_eq!(store.answer(&Query::Negation(INT)), None);
    store.record(Query::Negation(INT), None);
    store.record(Query::Negation(STR), Some(INT));
    store.record(Query::Negation(INT), Some(STR));
    assert_eq!(store.answer(&Query::Negation(INT)), Some(None));
    // an empty union and an empty list of constraints are no types
    for kind in [
        TypeKind::Union(vec![]),
        TypeKind::TypeVar(TypeVarBound::Constraints(vec![])),
    ] {
        let empty = TypeNode {
            kind,
            assignable_to: Vec::new(),
            defines_eq: false,
            display: String::new(),
            long_display: String::new(),
        };
        assert!(store.add_type(empty).is_none());
    }
    assert_eq!(store.answer(&Query::Negation(STR)), Some(Some(INT)));
    assert!(store.build(Query::Negation(INT)).is_err());
    assert_eq!(store.ask(Query::Negation(INT)).unwrap(), None);
    assert_eq!(store.build(Query::Negation(STR)).unwrap(), INT);
    assert!(store.ask(Query::ElementOf(INT)).is_err());
}
