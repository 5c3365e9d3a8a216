//! What functions return and where calls lead, in terms of the data of a store and the
//! answers on record.

use vstd::prelude::*;

use crate::callee;
use crate::callee::{CalleeDefinition, DefinitionKind, ReceiverClass, ResolvedDefinition};
use crate::edges;
use crate::facts;
use crate::inferred_return;
use crate::inferred_return::{ReturnSite, StopView, YieldSite};
use crate::reports;
use crate::syntax::{Node, NodeKind, TextRange};
use crate::types;
use crate::types::{
    ClassId, DynamicKind, FileId, FileRange, FunctionId, QueryView, SignatureId, TypeId, TypeKind,
    TypeStore, TypeVarBound,
};

verus! {

// -- inferred returns -------------------------------------------------------------------

pub open spec fn is_unknown(store: &TypeStore, ty: TypeId) -> bool {
    facts::holds(store, ty) && facts::kind(store, ty) == TypeKind::Dynamic(DynamicKind::Unknown)
}

/// The function that a type denotes.
pub open spec fn function_of_type(store: &TypeStore, ty: TypeId) -> Option<FunctionId> {
    if !facts::holds(store, ty) {
        None
    } else {
        match facts::kind(store, ty) {
            TypeKind::FunctionLiteral(function) => Some(function),
            TypeKind::BoundMethod { function, .. } => Some(function),
            _ => None,
        }
    }
}

/// Which answer a query of an inference has, if it has one.
pub open spec fn infers(
    store: &TypeStore,
    query: QueryView,
    outcome: Result<TypeId, StopView>,
) -> bool {
    &&& forall|ty: TypeId|
        facts::recorded(store, query, Some(ty)) ==> outcome == Ok::<TypeId, StopView>(ty)
    &&& facts::unasked(store, query) ==> outcome == Err::<TypeId, StopView>(StopView::Open(query))
}

proof fn lemma_infers(store: &TypeStore, query: QueryView)
    ensures
        infers(store, query, inferred_return::construction(store, query)),
{
    assert forall|ty: TypeId|
        facts::recorded(store, query, Some(ty)) implies inferred_return::construction(store, query)
        == Ok::<TypeId, StopView>(ty) by {
        facts::law_the_first_record_answers(store, query, Some(ty));
    }
    facts::law_the_first_record_answers(store, query, None);
}

/// What a `return` contributes: `None` without a value; the type of its value, where that is
/// known; for a call of a function that is not under inference yet what that function is
/// inferred to return, up to eight functions deep; and the type of the call otherwise. A
/// value without a type leaves the function without an inferred return.
pub proof fn law_what_a_return_contributes(
    store: &TypeStore,
    own: TypeId,
    callee: Option<TypeId>,
    visiting: Seq<FunctionId>,
)
    ensures
        inferred_return::return_type(store, ReturnSite::Bare, visiting) == Ok::<TypeId, StopView>(
            store.none,
        ),
        inferred_return::return_type(store, ReturnSite::Value { ty: None, callee }, visiting)
            == Err::<TypeId, StopView>(StopView::Inapplicable),
        ({
            let given = inferred_return::return_type(
                store,
                ReturnSite::Value { ty: Some(own), callee },
                visiting,
            );
            let called = match callee {
                Some(ty) => function_of_type(store, ty),
                None => None,
            };
            if !is_unknown(store, own) {
                given == Ok::<TypeId, StopView>(own)
            } else {
                match called {
                    Some(function) if visiting.len() < 8 && !visiting.contains(function) => {
                        match inferred_return::inferred(store, function, visiting.push(function)) {
                            Err(StopView::Inapplicable) => given == Ok::<TypeId, StopView>(own),
                            outcome => given == outcome,
                        }
                    },
                    _ => given == Ok::<TypeId, StopView>(own),
                }
            }
        }),
{
    reveal_with_fuel(inferred_return::return_type, 2);
    reveal_with_fuel(inferred_return::chained_return, 2);
}

/// Overloaded and annotated functions, coroutines and unknown functions have no inferred
/// return.
pub proof fn law_no_inferred_return(
    store: &TypeStore,
    id: FunctionId,
    visiting: Seq<FunctionId>,
)
    requires
        id.0 < store.functions@.len() ==> ({
            let function = store.functions@[id.0 as int];
            function.overloaded || function.annotated || (function.is_async
                && !function.is_generator)
        }),
    ensures
        inferred_return::inferred(store, id, visiting) == Err::<TypeId, StopView>(
            StopView::Inapplicable,
        ),
{
}

/// A function with a plain body: nothing keeps its return from being inferred.
pub open spec fn inferable(store: &TypeStore, id: FunctionId, is_generator: bool) -> bool {
    id.0 < store.functions@.len() && ({
        let function = store.functions@[id.0 as int];
        !function.overloaded && !function.annotated && function.is_generator == is_generator && (
        function.is_async ==> is_generator)
    })
}

/// What all returns of a body contribute, in order.
pub open spec fn contributions(
    store: &TypeStore,
    id: FunctionId,
    visiting: Seq<FunctionId>,
    given: Seq<TypeId>,
) -> bool {
    let sites = inferred_return::all_returns(store.functions@[id.0 as int].body@, 0);
    &&& given.len() == sites.len()
    &&& forall|i: int|
        0 <= i < given.len() ==> inferred_return::return_type(
            store,
            #[trigger] sites[i],
            visiting,
        ) == Ok::<TypeId, StopView>(given[i])
}

/// The types that a function may return: those of its returns and, where its end can be
/// reached, `None`.
pub open spec fn with_fall_through(
    store: &TypeStore,
    id: FunctionId,
    given: Seq<TypeId>,
) -> Seq<TypeId> {
    if store.functions@[id.0 as int].end_reachable {
        given.push(store.none)
    } else {
        given
    }
}

proof fn lemma_return_types(
    store: &TypeStore,
    sites: Seq<ReturnSite>,
    visiting: Seq<FunctionId>,
)
    ensures
        inferred_return::return_types(store, sites, visiting).len() == sites.len(),
        forall|i: int|
            0 <= i < sites.len() ==> #[trigger] inferred_return::return_types(
                store,
                sites,
                visiting,
            )[i] == inferred_return::return_type(store, sites[i], visiting),
    decreases sites.len(),
{
    if sites.len() > 0 {
        lemma_return_types(store, sites.drop_last(), visiting);
    }
}

proof fn lemma_return_union(
    store: &TypeStore,
    id: FunctionId,
    visiting: Seq<FunctionId>,
    given: Seq<TypeId>,
)
    requires
        id.0 < store.functions@.len(),
        contributions(store, id, visiting, given),
    ensures
        inferred_return::return_union(store, store.functions@[id.0 as int], visiting)
            == inferred_return::construction(
            store,
            QueryView::Union(with_fall_through(store, id, given)),
        ),
{
    let sites = inferred_return::all_returns(store.functions@[id.0 as int].body@, 0);
    lemma_return_types(store, sites, visiting);
    types::lemma_all_ok(inferred_return::return_types(store, sites, visiting), given);
}

/// A plain function returns the union of what its returns contribute, all of them and in
/// order, with `None` at the end where control may fall off its end.
pub proof fn law_functions_return_the_union(
    store: &TypeStore,
    id: FunctionId,
    visiting: Seq<FunctionId>,
    given: Seq<TypeId>,
)
    requires
        inferable(store, id, false),
        contributions(store, id, visiting, given),
    ensures
        infers(
            store,
            QueryView::Union(with_fall_through(store, id, given)),
            inferred_return::inferred(store, id, visiting),
        ),
{
    lemma_return_union(store, id, visiting, given);
    lemma_infers(store, QueryView::Union(with_fall_through(store, id, given)));
}

/// The first return that contributes nothing decides: what stops it stops the function.
pub proof fn law_the_first_stop_stops(
    store: &TypeStore,
    id: FunctionId,
    visiting: Seq<FunctionId>,
    at: int,
    stop: StopView,
)
    requires
        inferable(store, id, false),
        ({
            let sites = inferred_return::all_returns(store.functions@[id.0 as int].body@, 0);
            &&& 0 <= at < sites.len()
            &&& inferred_return::return_type(store, sites[at], visiting) == Err::<TypeId, StopView>(
                stop,
            )
            &&& forall|i: int|
                0 <= i < at ==> inferred_return::return_type(
                    store,
                    #[trigger] sites[i],
                    visiting,
                ) is Ok
        }),
    ensures
        inferred_return::inferred(store, id, visiting) == Err::<TypeId, StopView>(stop),
{
    let sites = inferred_return::all_returns(store.functions@[id.0 as int].body@, 0);
    lemma_return_types(store, sites, visiting);
    let items = inferred_return::return_types(store, sites, visiting);
    assert forall|i: int| 0 <= i < at implies items[i] is Ok by {
        assert(inferred_return::return_type(store, sites[i], visiting) is Ok);
    }
    types::lemma_first_error(items, at);
}

/// What a yield contributes: `None` without a value, the type of its value, and for a
/// `yield from` the elements of the delegate.
pub proof fn law_what_a_yield_contributes(store: &TypeStore, ty: TypeId)
    ensures
        inferred_return::yield_type(store, YieldSite::Bare) == Ok::<TypeId, StopView>(store.none),
        inferred_return::yield_type(store, YieldSite::Yield(Some(ty))) == Ok::<TypeId, StopView>(
            ty,
        ),
        inferred_return::yield_type(store, YieldSite::Yield(None)) == Err::<TypeId, StopView>(
            StopView::Inapplicable,
        ),
        infers(
            store,
            QueryView::ElementOf(ty),
            inferred_return::yield_type(store, YieldSite::YieldFrom(Some(ty))),
        ),
        inferred_return::yield_type(store, YieldSite::YieldFrom(None)) == Err::<TypeId, StopView>(
            StopView::Inapplicable,
        ),
{
    lemma_infers(store, QueryView::ElementOf(ty));
}

/// A generator is asked for by what it yields (the union of all its yields in order), what
/// it is sent (`Any`, or `Unknown` where a yield is used or delegates) and, unless it is
/// async, what it returns.
pub proof fn law_generators_by_yield_send_and_return(
    store: &TypeStore,
    id: FunctionId,
    visiting: Seq<FunctionId>,
    yielded: Seq<TypeId>,
    yields: TypeId,
    given: Seq<TypeId>,
    result: TypeId,
)
    requires
        inferable(store, id, true),
        contributions(store, id, visiting, given),
        ({
            let sites = inferred_return::all_yields(
                store.functions@[id.0 as int].body@,
                0,
                false,
            ).sites;
            &&& yielded.len() == sites.len()
            &&& forall|i: int|
                0 <= i < yielded.len() ==> inferred_return::yield_type(store, #[trigger] sites[i])
                    == Ok::<TypeId, StopView>(yielded[i])
        }),
        facts::recorded(store, QueryView::Union(yielded), Some(yields)),
        facts::recorded(
            store,
            QueryView::Union(with_fall_through(store, id, given)),
            Some(result),
        ),
    ensures
        ({
            let function = store.functions@[id.0 as int];
            let found = inferred_return::all_yields(function.body@, 0, false);
            let send = if found.consumed || found.delegates {
                store.unknown
            } else {
                store.any
            };
            infers(
                store,
                if function.is_async {
                    QueryView::AsyncGenerator { yields, send }
                } else {
                    QueryView::Generator { yields, send, result }
                },
                inferred_return::inferred(store, id, visiting),
            )
        }),
{
    let function = store.functions@[id.0 as int];
    let found = inferred_return::all_yields(function.body@, 0, false);
    let send = if found.consumed || found.delegates {
        store.unknown
    } else {
        store.any
    };
    let items = found.sites.map_values(
        |site: YieldSite| inferred_return::yield_type(store, site),
    );
    types::lemma_all_ok(items, yielded);
    facts::law_the_first_record_answers(store, QueryView::Union(yielded), Some(yields));
    lemma_return_union(store, id, visiting, given);
    facts::law_the_first_record_answers(
        store,
        QueryView::Union(with_fall_through(store, id, given)),
        Some(result),
    );
    lemma_infers(store, QueryView::AsyncGenerator { yields, send });
    lemma_infers(store, QueryView::Generator { yields, send, result });
}

// -- reveals ----------------------------------------------------------------------------

/// The function whose return a reveal of the type infers, and the signature it is shown
/// with, where there is just one.
pub open spec fn inferred_through(store: &TypeStore, ty: TypeId) -> Option<
    (FunctionId, Option<SignatureId>),
> {
    if !facts::holds(store, ty) {
        None
    } else {
        match facts::kind(store, ty) {
            TypeKind::FunctionLiteral(function) => Some(
                (
                    function,
                    if function.0 < store.functions@.len() {
                        Some(store.functions@[function.0 as int].signature)
                    } else {
                        None
                    },
                ),
            ),
            TypeKind::BoundMethod { function, receiver, signatures } => Some(
                (
                    function,
                    if signatures@.len() == 1 {
                        Some(signatures@[0])
                    } else {
                        None
                    },
                ),
            ),
            TypeKind::Callable { overloads, definition } => if overloads@.len() == 1 && is_unknown(
                store,
                overloads@[0].result,
            ) {
                match definition {
                    Some(function) => Some((function, Some(overloads@[0].signature))),
                    None => None,
                }
            } else {
                None
            },
            _ => None,
        }
    }
}

/// The type that a reveal looks through to: the getter of a property.
pub open spec fn looked_at(store: &TypeStore, ty: TypeId) -> TypeId {
    if facts::holds(store, ty) {
        match facts::kind(store, ty) {
            TypeKind::Property(Some(getter)) => getter,
            _ => ty,
        }
    } else {
        ty
    }
}

/// A function, a bound method, a callable that kept its function while its return is
/// unknown, and a property over one of these are revealed as the callable with the inferred
/// return; where there is none, or more than one signature, they are revealed as they are,
/// as is everything else.
pub proof fn law_what_a_reveal_shows(store: &TypeStore, ty: TypeId)
    ensures
        ({
            let form = inferred_return::revealed(store, ty);
            match inferred_through(store, looked_at(store, ty)) {
                None => form == Ok::<TypeId, QueryView>(ty),
                Some((function, signature)) => match inferred_return::inferred(
                    store,
                    function,
                    seq![function],
                ) {
                    Err(StopView::Inapplicable) => form == Ok::<TypeId, QueryView>(ty),
                    Err(StopView::Open(query)) => form == Err::<TypeId, QueryView>(query),
                    Ok(result) => match signature {
                        None => form == Ok::<TypeId, QueryView>(ty),
                        Some(signature) => reports::answers(
                            store,
                            QueryView::Callable { source: function, signature, result },
                            form,
                        ),
                    },
                },
            }
        }),
        inferred_return::revealed(store, ty) matches Ok(form) ==> facts::holds(store, form)
            ==> inferred_return::revealed_text(store, ty) == Ok::<Seq<char>, QueryView>(
            store.types@[form.0 as int].long_display@,
        ),
{
    if let Some((function, Some(signature))) = inferred_through(store, looked_at(store, ty)) {
        if let Ok(result) = inferred_return::inferred(store, function, seq![function]) {
            let query = QueryView::Callable { source: function, signature, result };
            assert forall|form: TypeId|
                facts::recorded(store, query, Some(form)) implies store.built(query) == Ok::<
                TypeId,
                QueryView,
            >(form) by {
                facts::law_the_first_record_answers(store, query, Some(form));
            }
            facts::law_the_first_record_answers(store, query, None);
        }
    }
}

// -- receivers --------------------------------------------------------------------------

/// Where the class is defined.
pub open spec fn defined_in(store: &TypeStore, class: ClassId) -> ReceiverClass {
    if class.0 < store.classes@.len() {
        match store.classes@[class.0 as int].definition {
            Some(place) => ReceiverClass::Defined(place.file),
            None => ReceiverClass::Opaque,
        }
    } else {
        ReceiverClass::Opaque
    }
}

/// The home of a receiver is that of its class: of an instance, of a class object itself,
/// of a literal and of a type variable that of what stands behind it; anything else has
/// none.
pub proof fn law_homes_of_receivers(store: &TypeStore, receiver: TypeId)
    requires
        store.wf(),
        facts::holds(store, receiver),
    ensures
        callee::receiver_home(store, receiver) == match facts::kind(store, receiver) {
            TypeKind::NominalInstance(instance) => defined_in(store, instance.class),
            TypeKind::ClassLiteral(class) => defined_in(store, class),
            TypeKind::GenericAlias(class) => defined_in(store, class),
            TypeKind::TypeVar(TypeVarBound::UpperBound(bound)) => callee::receiver_home(
                store,
                bound,
            ),
            TypeKind::LiteralValue { fallback: Some(instance), .. } => callee::receiver_home(
                store,
                instance,
            ),
            _ => ReceiverClass::Opaque,
        },
{
    types::lemma_parts_before(store, receiver);
}

/// A name is bound to a call where its one definition is a plain assignment of a call in
/// the same file.
pub proof fn law_bound_names(file: FileId, definitions: Seq<ResolvedDefinition>)
    ensures
        callee::bound_call(file, definitions) matches Some(call) ==> call.kind is Call
            && definitions.len() == 1 && definitions[0] == (ResolvedDefinition::Definition {
            file,
            kind: DefinitionKind::Assignment { unpacked: false, target_is_name: true, value: call },
        }),
        definitions.len() == 1 && (definitions[0] matches ResolvedDefinition::Definition {
            file: home,
            kind: DefinitionKind::Assignment { unpacked: false, target_is_name: true, value },
        } && home == file && value.kind is Call) ==> callee::bound_call(file, definitions) is Some,
{
}

/// What a call is known to return: the one result of the revealed form of its callee,
/// unless that is unknown.
pub proof fn law_what_a_call_returns(store: &TypeStore, call: Node, ty: TypeId, form: TypeId)
    requires
        call.children@.len() > 0,
        call.children@[0].ty == Some(ty),
        inferred_return::revealed(store, ty) == Ok::<TypeId, QueryView>(form),
    ensures
        callee::call_return(store, call) == Ok::<Option<TypeId>, QueryView>(
            if facts::holds(store, form) {
                match facts::kind(store, form) {
                    TypeKind::Callable { overloads, .. } => if overloads@.len() == 1 && !is_unknown(
                        store,
                        overloads@[0].result,
                    ) {
                        Some(overloads@[0].result)
                    } else {
                        None
                    },
                    _ => None,
                }
            } else {
                None
            },
        ),
{
}

/// The type of a callee is its own, except for an attribute of unknown type: there it is
/// the member of what the receiver, a call or a name bound to one, is known to return.
pub proof fn law_types_of_callees(
    store: &TypeStore,
    file: FileId,
    func: Node,
    definitions: Seq<ResolvedDefinition>,
    own: TypeId,
    receiver: TypeId,
    member: Option<TypeId>,
)
    requires
        func.ty == Some(own),
    ensures
        !(func.kind is Attribute) || !is_unknown(store, own) ==> callee::callee_form(
            store,
            file,
            func,
            definitions,
        ) == Ok::<Option<TypeId>, QueryView>(Some(own)),
        (func.kind matches NodeKind::Attribute(attr) && is_unknown(store, own)
            && func.children@.len() > 0 && (match func.children@[0].kind {
            NodeKind::Call { .. } => callee::call_return(store, func.children@[0]),
            NodeKind::Name(_) => match callee::bound_call(file, definitions) {
                Some(call) => callee::call_return(store, call),
                None => Ok(None),
            },
            _ => Ok(None),
        }) == Ok::<Option<TypeId>, QueryView>(Some(receiver)) && facts::recorded(
            store,
            QueryView::Member { receiver, name: attr@ },
            member,
        )) ==> callee::callee_form(store, file, func, definitions) == Ok::<
            Option<TypeId>,
            QueryView,
        >(member),
        func.kind is Attribute && is_unknown(store, own) && func.children@.len() > 0 && !(
        func.children@[0].kind is Call) && !(func.children@[0].kind is Name)
            ==> callee::callee_form(store, file, func, definitions) == Ok::<
            Option<TypeId>,
            QueryView,
        >(None),
{
    if let NodeKind::Attribute(attr) = func.kind {
        facts::law_the_first_record_answers(
            store,
            QueryView::Member { receiver, name: attr@ },
            member,
        );
    }
}

/// What the receiver of an attribute is known to return: a call as such, a name through the
/// call that it is bound to.
pub open spec fn receiver_gives(
    store: &TypeStore,
    file: FileId,
    receiver: Node,
    definitions: Seq<ResolvedDefinition>,
) -> Result<Option<TypeId>, QueryView> {
    match receiver.kind {
        NodeKind::Call { .. } => callee::call_return(store, receiver),
        NodeKind::Name(_) => match callee::bound_call(file, definitions) {
            Some(call) => callee::call_return(store, call),
            None => Ok(None),
        },
        _ => Ok(None),
    }
}

/// A callee without a type has none, nor has an attribute of unknown type whose receiver
/// is not there or returns nothing that is known; what is open for the receiver or for its
/// member is asked for.
pub proof fn law_callees_without_a_type(
    store: &TypeStore,
    file: FileId,
    func: Node,
    definitions: Seq<ResolvedDefinition>,
    own: TypeId,
    attr: String,
)
    ensures
        func.ty is None ==> callee::callee_form(store, file, func, definitions) == Ok::<
            Option<TypeId>,
            QueryView,
        >(None),
        func.ty == Some(own) && func.kind == NodeKind::Attribute(attr) && is_unknown(store, own)
            ==> {
            let form = callee::callee_form(store, file, func, definitions);
            &&& func.children@.len() == 0 ==> form == Ok::<Option<TypeId>, QueryView>(None)
            &&& func.children@.len() > 0 ==> match receiver_gives(
                store,
                file,
                func.children@[0],
                definitions,
            ) {
                Err(query) => form == Err::<Option<TypeId>, QueryView>(query),
                Ok(None) => form == Ok::<Option<TypeId>, QueryView>(None),
                Ok(Some(receiver)) => {
                    let query = QueryView::Member { receiver, name: attr@ };
                    facts::unasked(store, query) ==> form == Err::<Option<TypeId>, QueryView>(
                        query,
                    )
                },
            }
        },
        func.kind is Call || func.kind is Name ==> callee::receiver_return(
            store,
            file,
            func,
            definitions,
        ) == receiver_gives(store, file, func, definitions),
        !(func.kind is Call) && !(func.kind is Name) ==> callee::receiver_return(
            store,
            file,
            func,
            definitions,
        ) == Ok::<Option<TypeId>, QueryView>(None),
{
    if func.ty == Some(own) && func.kind == NodeKind::Attribute(attr) && func.children@.len() > 0 {
        if let Ok(Some(receiver)) = receiver_gives(store, file, func.children@[0], definitions) {
            facts::law_the_first_record_answers(
                store,
                QueryView::Member { receiver, name: attr@ },
                None,
            );
        }
    }
}

// -- definitions ------------------------------------------------------------------------

/// The lists one after the other.
pub open spec fn in_a_row<T>(lists: Seq<Seq<T>>) -> Seq<T>
    decreases lists.len(),
{
    if lists.len() == 0 {
        Seq::empty()
    } else {
        in_a_row(lists.drop_last()) + lists.last()
    }
}

/// A function denotes its definition, a bound method that of its function with the home of
/// its receiver, a class its own definition; anything else but a union denotes nothing.
pub proof fn law_what_a_type_denotes(store: &TypeStore, ty: TypeId)
    requires
        store.wf(),
        facts::holds(store, ty),
    ensures
        callee::denoted(store, ty) == match facts::kind(store, ty) {
            TypeKind::FunctionLiteral(function) => if function.0 < store.functions@.len() {
                Some(
                    seq![
                        CalleeDefinition {
                            definition: store.functions@[function.0 as int].definition,
                            receiver: ReceiverClass::Unbound,
                        },
                    ],
                )
            } else {
                None
            },
            TypeKind::BoundMethod { function, receiver, signatures } => if function.0
                < store.functions@.len() {
                Some(
                    seq![
                        CalleeDefinition {
                            definition: store.functions@[function.0 as int].definition,
                            receiver: callee::receiver_home(store, receiver),
                        },
                    ],
                )
            } else {
                None
            },
            TypeKind::ClassLiteral(class) => if class.0 < store.classes@.len() {
                match store.classes@[class.0 as int].definition {
                    Some(definition) => Some(
                        seq![CalleeDefinition { definition, receiver: ReceiverClass::Unbound }],
                    ),
                    None => None,
                }
            } else {
                None
            },
            TypeKind::Union(_) => callee::denoted(store, ty),
            _ => None,
        },
{
    types::lemma_parts_before(store, ty);
}

/// A union denotes what its elements denote, one after the other, if each denotes something.
pub proof fn law_unions_denote_all_elements(
    store: &TypeStore,
    ty: TypeId,
    found: Seq<Seq<CalleeDefinition>>,
)
    requires
        store.wf(),
        facts::holds(store, ty),
        facts::kind(store, ty) matches TypeKind::Union(elements) && elements@.len() == found.len()
            && forall|i: int|
            0 <= i < found.len() ==> callee::denoted(store, #[trigger] elements@[i]) == Some(
                found[i],
            ),
    ensures
        callee::denoted(store, ty) == Some(in_a_row(found)),
{
    types::lemma_parts_before(store, ty);
    if let TypeKind::Union(elements) = facts::kind(store, ty) {
        lemma_all_denoted(store, elements@, ty.0 as int, found);
    }
}

proof fn lemma_all_denoted(
    store: &TypeStore,
    elements: Seq<TypeId>,
    bound: int,
    found: Seq<Seq<CalleeDefinition>>,
)
    requires
        store.wf(),
        0 <= bound,
        forall|i: int| 0 <= i < elements.len() ==> (#[trigger] elements[i]).0 < bound,
        elements.len() == found.len(),
        forall|i: int|
            0 <= i < found.len() ==> callee::denoted(store, #[trigger] elements[i]) == Some(
                found[i],
            ),
    ensures
        callee::all_denoted(store, elements, bound) == Some(in_a_row(found)),
    decreases elements.len(),
{
    if elements.len() > 0 {
        let before = elements.drop_last();
        assert forall|i: int| 0 <= i < before.len() implies callee::denoted(
            store,
            #[trigger] before[i],
        ) == Some(found.drop_last()[i]) by {
            assert(before[i] == elements[i]);
        }
        lemma_all_denoted(store, before, bound, found.drop_last());
        assert(elements[elements.len() - 1] == elements.last());
    }
}

/// A call denotes what the type of its callee denotes; without a type, nothing.
pub proof fn law_what_a_call_denotes(
    store: &TypeStore,
    file: FileId,
    call: Node,
    definitions: Seq<ResolvedDefinition>,
)
    ensures
        call.children@.len() == 0 ==> callee::call_definitions(store, file, call, definitions)
            == Ok::<Option<Seq<CalleeDefinition>>, QueryView>(None),
        call.children@.len() > 0 ==> match callee::callee_form(
            store,
            file,
            call.children@[0],
            definitions,
        ) {
            Ok(Some(ty)) => callee::call_definitions(store, file, call, definitions) == Ok::<
                Option<Seq<CalleeDefinition>>,
                QueryView,
            >(callee::denoted(store, ty)),
            Ok(None) => callee::call_definitions(store, file, call, definitions) == Ok::<
                Option<Seq<CalleeDefinition>>,
                QueryView,
            >(None),
            Err(query) => callee::call_definitions(store, file, call, definitions) == Err::<
                Option<Seq<CalleeDefinition>>,
                QueryView,
            >(query),
        },
{
}

// -- edges ------------------------------------------------------------------------------

/// The place of a definition outside the root counts as external where its receiver has no
/// class, or one outside the root too.
pub open spec fn leads_out(root: Seq<FileId>, found: CalleeDefinition) -> bool {
    !root.contains(found.definition.file) && match found.receiver {
        ReceiverClass::Unbound => true,
        ReceiverClass::Defined(file) => !root.contains(file),
        ReceiverClass::Opaque => false,
    }
}

/// The edge of a call has a target for each definition in the root and an external place
/// for each that leads out of it, in their order; without either there is no edge.
pub proof fn law_edges_hold_every_definition(
    root: Seq<FileId>,
    call: TextRange,
    found: Seq<CalleeDefinition>,
)
    ensures
        ({
            let targets = picked(
                found,
                |d: CalleeDefinition| root.contains(d.definition.file),
            );
            let external = picked(found, |d: CalleeDefinition| leads_out(root, d));
            edges::edge_of(root, call, Some(found)) == if targets.len() == 0 && external.len() == 0 {
                None
            } else {
                Some(edges::EdgeView { call, targets, external })
            }
        }),
        edges::edge_of(root, call, None) is None,
{
    lemma_picked(
        found,
        |d: CalleeDefinition| edges::is_target(root, d),
        |d: CalleeDefinition| root.contains(d.definition.file),
    );
    lemma_picked(
        found,
        |d: CalleeDefinition| edges::is_external(root, d),
        |d: CalleeDefinition| leads_out(root, d),
    );
}

/// The places of the definitions that have a property, in order.
pub open spec fn picked(
    found: Seq<CalleeDefinition>,
    has: spec_fn(CalleeDefinition) -> bool,
) -> Seq<FileRange>
    decreases found.len(),
{
    if found.len() == 0 {
        Seq::empty()
    } else if has(found.last()) {
        picked(found.drop_last(), has).push(found.last().definition)
    } else {
        picked(found.drop_last(), has)
    }
}

proof fn lemma_picked(
    found: Seq<CalleeDefinition>,
    test: spec_fn(CalleeDefinition) -> bool,
    has: spec_fn(CalleeDefinition) -> bool,
)
    requires
        forall|d: CalleeDefinition| #[trigger] test(d) == has(d),
    ensures
        found.filter(test).map_values(|d: CalleeDefinition| d.definition) == picked(found, has),
    decreases found.len(),
{
    reveal(Seq::filter);
    let place = |d: CalleeDefinition| d.definition;
    if found.len() > 0 {
        lemma_picked(found.drop_last(), test, has);
        let before = found.drop_last().filter(test);
        assert(test(found.last()) == has(found.last()));
        if test(found.last()) {
            assert(found.filter(test) == before.push(found.last()));
            assert(before.push(found.last()).map_values(place) =~= before.map_values(place).push(
                found.last().definition,
            ));
        } else {
            assert(found.filter(test) == before);
        }
    } else {
        assert(found.filter(test).map_values(place) =~= Seq::<FileRange>::empty());
    }
}

/// The name of a definition outside the root: its module, then each scope down to it after
/// a dot.
pub proof fn law_dotted_names(module: Seq<char>, path: Seq<String>, name: String)
    ensures
        edges::dotted(module, Seq::empty()) == module,
        edges::dotted(module, path.push(name)) == edges::dotted(module, path) + "."@ + name@,
{
    assert(path.push(name).drop_last() =~= path);
}

} // verus!
