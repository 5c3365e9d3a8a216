//! The definitions that the callee of a call denotes.
//!
//! Only definitions are reported: which override a call may dispatch to at run time is for
//! the consumer to judge. Two receivers that inference leaves `Unknown` are read through
//! the inferred return of a function without a return annotation: a call of such a
//! function (`make().m()`), and a name bound exactly once, by a plain assignment, to such
//! a call (`c = make(); c.m()`).

use vstd::prelude::*;

use crate::inferred_return;
use crate::inferred_return::with_inferred_return;
use crate::syntax::{Node, NodeKind};
use crate::types;
use crate::types::{
    ClassId, DynamicKind, FileId, FileRange, FunctionId, Query, QueryView, TypeId, TypeKind,
    TypeStore, TypeVarBound,
};
use crate::unnecessary::is_unknown;

verus! {

/// One definition a callee denotes: a plain function, a bound method's function, or a
/// class (a constructor call).
#[derive(Clone, Copy, PartialEq, Eq, Structural, Debug)]
pub struct CalleeDefinition {
    /// The file and the name range of the definition.
    pub definition: FileRange,
    /// A bound method's receiver class.
    pub receiver: ReceiverClass,
}

/// The class of the object a bound method is bound to. A root class that inherits a
/// library method runs the library body, whose template hooks may call back into the
/// root, so a callee outside the root counts as external only with a receiver outside it.
#[derive(Clone, Copy, PartialEq, Eq, Structural, Debug)]
pub enum ReceiverClass {
    /// The callee is not a bound method.
    Unbound,
    /// The receiver's class is defined in this file.
    Defined(FileId),
    /// The receiver's class is not recoverable (a constrained type variable, an
    /// intersection, a dynamic class).
    Opaque,
}

/// What binds a name.
#[derive(Debug)]
pub enum DefinitionKind {
    /// An assignment; `unpacked` says that the target is part of a tuple or list.
    Assignment { unpacked: bool, target_is_name: bool, value: Node },
    Other,
}

/// A definition that a name resolves to.
#[derive(Debug)]
pub enum ResolvedDefinition {
    Definition { file: FileId, kind: DefinitionKind },
    Other,
}

// -- receivers that functions return ----------------------------------------------------

/// The call that a name of `file` is bound to: its only definition is a plain assignment
/// of a call, in that file.
pub open spec fn bound_call(file: FileId, definitions: Seq<ResolvedDefinition>) -> Option<Node> {
    if definitions.len() == 1 {
        match definitions[0] {
            ResolvedDefinition::Definition {
                file: home,
                kind: DefinitionKind::Assignment { unpacked: false, target_is_name: true, value },
            } => if home == file && value.kind is Call {
                Some(value)
            } else {
                None
            },
            _ => None,
        }
    } else {
        None
    }
}

/// The return type that a call reveals, where its callee has one known signature.
pub open spec fn call_return(store: &TypeStore, call: Node) -> Result<Option<TypeId>, QueryView> {
    match inferred_return::operand_type(call) {
        None => Ok(None),
        Some(callee) => match inferred_return::revealed(store, callee) {
            Err(query) => Err(query),
            Ok(form) => match store.kind_of(form) {
                TypeKind::Callable { overloads, definition } => if overloads@.len() == 1
                    && store.kind_of(overloads@[0].result) != TypeKind::Dynamic(
                    DynamicKind::Unknown,
                ) {
                    Ok(Some(overloads@[0].result))
                } else {
                    Ok(None)
                },
                _ => Ok(None),
            },
        },
    }
}

/// The type of a receiver that a function returned, directly or through a name.
pub open spec fn receiver_return(
    store: &TypeStore,
    file: FileId,
    receiver: Node,
    definitions: Seq<ResolvedDefinition>,
) -> Result<Option<TypeId>, QueryView> {
    match receiver.kind {
        NodeKind::Call { keywords } => call_return(store, receiver),
        NodeKind::Name(name) => match bound_call(file, definitions) {
            Some(call) => call_return(store, call),
            None => Ok(None),
        },
        _ => Ok(None),
    }
}

/// The type of a callee; of an `Unknown` attribute the member of the returned receiver.
pub open spec fn callee_form(
    store: &TypeStore,
    file: FileId,
    func: Node,
    definitions: Seq<ResolvedDefinition>,
) -> Result<Option<TypeId>, QueryView> {
    match func.ty {
        None => Ok(None),
        Some(own) => match func.kind {
            NodeKind::Attribute(attr) => if store.kind_of(own) != TypeKind::Dynamic(
                DynamicKind::Unknown,
            ) {
                Ok(Some(own))
            } else if func.children@.len() == 0 {
                Ok(None)
            } else {
                match receiver_return(store, file, func.children@[0], definitions) {
                    Err(query) => Err(query),
                    Ok(None) => Ok(None),
                    Ok(Some(receiver)) => store.asked(
                        QueryView::Member { receiver, name: attr@ },
                    ),
                }
            },
            _ => Ok(Some(own)),
        },
    }
}

/// The call a name is bound to when its scope binds it exactly once, by a plain
/// `name = <call>` in this file.
pub fn sole_call_binding(file: FileId, definitions: &Vec<ResolvedDefinition>) -> (call: Option<
    &Node,
>)
    ensures
        match call {
            Some(call) => bound_call(file, definitions@) == Some(*call),
            None => bound_call(file, definitions@) is None,
        },
{
    if definitions.len() != 1 {
        return None;
    }
    match &definitions[0] {
        ResolvedDefinition::Definition {
            file: home,
            kind: DefinitionKind::Assignment { unpacked, target_is_name, value },
        } => {
            if *home != file || *unpacked || !*target_is_name {
                return None;
            }
            if matches!(value.kind, NodeKind::Call { .. }) {
                Some(value)
            } else {
                None
            }
        },
        _ => None,
    }
}

/// `f(...)` for a return-unannotated `f` (or a bound method of one): the return type that
/// a reveal of `f` shows, unless it is `Unknown`.
pub fn inferred_call_return(store: &TypeStore, call: &Node) -> (ty: Result<Option<TypeId>, Query>)
    ensures
        types::outcome(ty) == call_return(store, *call),
{
    if call.children.len() == 0 {
        return Ok(None);
    }
    let Some(callee) = call.children[0].ty else {
        return Ok(None);
    };
    let form = match with_inferred_return(store, callee) {
        Ok(form) => form,
        Err(query) => {
            return Err(query);
        },
    };
    match store.kind(form) {
        TypeKind::Callable { overloads, .. } => {
            if overloads.len() == 1 && !is_unknown(store, overloads[0].result) {
                Ok(Some(overloads[0].result))
            } else {
                Ok(None)
            }
        },
        _ => Ok(None),
    }
}

/// The inferred return of the return-unannotated function a receiver expression calls,
/// directly or through the one plain assignment binding its name. `definitions` are those
/// of the receiver, where it is a name.
pub fn returned_receiver(
    store: &TypeStore,
    file: FileId,
    receiver: &Node,
    definitions: &Vec<ResolvedDefinition>,
) -> (ty: Result<Option<TypeId>, Query>)
    ensures
        types::outcome(ty) == receiver_return(store, file, *receiver, definitions@),
{
    match &receiver.kind {
        NodeKind::Call { .. } => inferred_call_return(store, receiver),
        NodeKind::Name(_) => match sole_call_binding(file, definitions) {
            Some(call) => inferred_call_return(store, call),
            None => Ok(None),
        },
        _ => Ok(None),
    }
}

/// The callee's inferred type, or, where inference leaves `Unknown` for an attribute on a
/// receiver that a function returned, the receiver's member.
pub fn callee_type(
    store: &TypeStore,
    file: FileId,
    func: &Node,
    definitions: &Vec<ResolvedDefinition>,
) -> (ty: Result<Option<TypeId>, Query>)
    ensures
        types::outcome(ty) == callee_form(store, file, *func, definitions@),
{
    let Some(own) = func.ty else {
        return Ok(None);
    };
    let NodeKind::Attribute(attr) = &func.kind else {
        return Ok(Some(own));
    };
    if !is_unknown(store, own) {
        return Ok(Some(own));
    }
    if func.children.len() == 0 {
        return Ok(None);
    }
    match returned_receiver(store, file, &func.children[0], definitions) {
        Err(query) => Err(query),
        Ok(None) => Ok(None),
        Ok(Some(receiver)) => store.ask(Query::Member { receiver, name: attr.clone() }),
    }
}

// -- definitions ------------------------------------------------------------------------

/// The definition of a class.
pub open spec fn class_definition(store: &TypeStore, class: ClassId) -> Option<FileRange> {
    match store.class_of(class) {
        Some(node) => node.definition,
        None => None,
    }
}

/// The receiver class of a known class.
pub open spec fn home_of(store: &TypeStore, class: ClassId) -> ReceiverClass {
    match class_definition(store, class) {
        Some(definition) => ReceiverClass::Defined(definition.file),
        None => ReceiverClass::Opaque,
    }
}

/// The receiver class of the object that a method is bound to: an instance's class, a
/// class object itself, a literal's class, or that of a type variable's upper bound.
pub open spec fn receiver_home(store: &TypeStore, receiver: TypeId) -> ReceiverClass
    decreases receiver.0,
    when store.wf()
{
    match store.kind_of(receiver) {
        TypeKind::NominalInstance(instance) => home_of(store, instance.class),
        TypeKind::ClassLiteral(class) => home_of(store, class),
        TypeKind::GenericAlias(class) => home_of(store, class),
        TypeKind::TypeVar(TypeVarBound::UpperBound(bound)) => receiver_home(store, bound),
        TypeKind::LiteralValue { value, fallback: Some(instance) } => receiver_home(
            store,
            instance,
        ),
        _ => ReceiverClass::Opaque,
    }
}

/// The definition of a function, with its receiver.
pub open spec fn function_definition(
    store: &TypeStore,
    function: FunctionId,
    receiver: ReceiverClass,
) -> Option<Seq<CalleeDefinition>> {
    match store.function_of(function) {
        Some(node) => Some(seq![CalleeDefinition { definition: node.definition, receiver }]),
        None => None,
    }
}

/// Every definition that a type denotes; a union contributes all of its members, and none
/// if any part of it is not a definition.
pub open spec fn denoted(store: &TypeStore, ty: TypeId) -> Option<Seq<CalleeDefinition>>
    decreases ty.0, 1nat, 0nat,
    when store.wf()
{
    match store.kind_of(ty) {
        TypeKind::FunctionLiteral(function) => function_definition(
            store,
            function,
            ReceiverClass::Unbound,
        ),
        TypeKind::BoundMethod { function, receiver, signatures } => function_definition(
            store,
            function,
            receiver_home(store, receiver),
        ),
        TypeKind::ClassLiteral(class) => match class_definition(store, class) {
            Some(definition) => Some(
                seq![CalleeDefinition { definition, receiver: ReceiverClass::Unbound }],
            ),
            None => None,
        },
        TypeKind::Union(elements) => all_denoted(store, elements@, ty.0 as int),
        _ => None,
    }
}

/// The definitions that all of `elements` denote; they stand before position `bound`.
pub open spec fn all_denoted(store: &TypeStore, elements: Seq<TypeId>, bound: int) -> Option<
    Seq<CalleeDefinition>,
>
    decreases bound, 0nat, elements.len(),
    when store.wf() && 0 <= bound && forall|i: int|
        0 <= i < elements.len() ==> (#[trigger] elements[i]).0 < bound
{
    if elements.len() == 0 {
        Some(Seq::empty())
    } else {
        match (all_denoted(store, elements.drop_last(), bound), denoted(store, elements.last())) {
            (Some(before), Some(last)) => Some(before + last),
            _ => None,
        }
    }
}

/// Every definition the callee of a call denotes.
pub open spec fn call_definitions(
    store: &TypeStore,
    file: FileId,
    call: Node,
    definitions: Seq<ResolvedDefinition>,
) -> Result<Option<Seq<CalleeDefinition>>, QueryView> {
    if call.children@.len() == 0 {
        Ok(None)
    } else {
        match callee_form(store, file, call.children@[0], definitions) {
            Err(query) => Err(query),
            Ok(None) => Ok(None),
            Ok(Some(callee)) => Ok(denoted(store, callee)),
        }
    }
}

fn home(store: &TypeStore, class: ClassId) -> (receiver: ReceiverClass)
    ensures
        receiver == home_of(store, class),
{
    match store.class(class) {
        Some(node) => match node.definition {
            Some(definition) => ReceiverClass::Defined(definition.file),
            None => ReceiverClass::Opaque,
        },
        None => ReceiverClass::Opaque,
    }
}

/// The file defining the class of a bound method's `self`: an instance's class, a class
/// object's own (a classmethod), a literal's class, or a type variable's upper bound
/// (`self` inside a method is `Self@C`, bounded by `C`).
pub fn receiver_class(store: &TypeStore, self_instance: TypeId) -> (receiver: ReceiverClass)
    requires
        store.wf(),
    ensures
        receiver == receiver_home(store, self_instance),
    decreases self_instance.0,
{
    proof {
        types::lemma_parts_before(store, self_instance);
    }
    match store.kind(self_instance) {
        TypeKind::NominalInstance(instance) => home(store, instance.class),
        TypeKind::ClassLiteral(class) => home(store, *class),
        TypeKind::GenericAlias(class) => home(store, *class),
        TypeKind::TypeVar(TypeVarBound::UpperBound(bound)) => receiver_class(store, *bound),
        // `"".join(...)`: the literal's class
        TypeKind::LiteralValue { value: _, fallback: Some(instance) } => receiver_class(
            store,
            *instance,
        ),
        _ => ReceiverClass::Opaque,
    }
}

/// Appends every definition that `ty` denotes, and tells whether all of it is definitions.
pub fn collect(store: &TypeStore, ty: TypeId, out: &mut Vec<CalleeDefinition>) -> (all: bool)
    requires
        store.wf(),
    ensures
        match denoted(store, ty) {
            Some(definitions) => all && final(out)@ == old(out)@ + definitions,
            None => !all,
        },
    decreases ty.0,
{
    let found = match store.kind(ty) {
        TypeKind::FunctionLiteral(function) => match store.function(*function) {
            Some(node) => CalleeDefinition {
                definition: node.definition,
                receiver: ReceiverClass::Unbound,
            },
            None => {
                return false;
            },
        },
        TypeKind::BoundMethod { function, receiver, .. } => match store.function(*function) {
            Some(node) => CalleeDefinition {
                definition: node.definition,
                receiver: receiver_class(store, *receiver),
            },
            None => {
                return false;
            },
        },
        TypeKind::ClassLiteral(class) => {
            let definition = match store.class(*class) {
                Some(node) => node.definition,
                None => None,
            };
            match definition {
                Some(definition) => CalleeDefinition {
                    definition,
                    receiver: ReceiverClass::Unbound,
                },
                None => {
                    return false;
                },
            }
        },
        TypeKind::Union(elements) => {
            proof {
                types::lemma_parts_before(store, ty);
            }
            let mut i: usize = 0;
            while i < elements.len()
                invariant
                    i <= elements@.len(),
                    store.wf(),
                    store.kind_of(ty) == TypeKind::Union(*elements),
                    forall|j: int|
                        0 <= j < elements@.len() ==> (#[trigger] elements@[j]).0 < ty.0,
                    match all_denoted(store, elements@.take(i as int), ty.0 as int) {
                        Some(definitions) => out@ == old(out)@ + definitions,
                        None => false,
                    },
                decreases elements@.len() - i,
            {
                let ghost prefix = elements@.take(i + 1);
                assert(prefix.drop_last() == elements@.take(i as int));
                assert(prefix.last() == elements@[i as int]);
                assert(forall|j: int| 0 <= j < prefix.len() ==> (#[trigger] prefix[j]).0 < ty.0);
                if !collect(store, elements[i], out) {
                    proof {
                        lemma_undenoted(store, elements@, ty.0 as int, i + 1);
                    }
                    return false;
                }
                i += 1;
            }
            assert(elements@.take(i as int) == elements@);
            return true;
        },
        _ => {
            return false;
        },
    };
    out.push(found);
    true
}

/// A part that is not all definitions leaves the whole without any.
proof fn lemma_undenoted(store: &TypeStore, elements: Seq<TypeId>, bound: int, n: int)
    requires
        store.wf(),
        0 <= bound,
        0 <= n <= elements.len(),
        forall|i: int| 0 <= i < elements.len() ==> (#[trigger] elements[i]).0 < bound,
        all_denoted(store, elements.take(n), bound) is None,
    ensures
        all_denoted(store, elements, bound) is None,
    decreases elements.len(),
{
    if n == elements.len() {
        assert(elements.take(n) == elements);
    } else {
        assert(elements.drop_last().take(n) == elements.take(n));
        lemma_undenoted(store, elements.drop_last(), bound, n);
    }
}

/// Definitions by value, or the open query.
pub open spec fn definitions_view(
    definitions: Result<Option<Vec<CalleeDefinition>>, Query>,
) -> Result<Option<Seq<CalleeDefinition>>, QueryView> {
    match definitions {
        Ok(Some(definitions)) => Ok(Some(definitions@)),
        Ok(None) => Ok(None),
        Err(query) => Err(query@),
    }
}

/// Every definition the callee of `call` denotes; a union contributes all of its members
/// or nothing. `None` when any part is not a definition: callables, unknowns, instances
/// with `__call__`, dynamic classes. `definitions` are those of the receiver of a method
/// call, where it is a name.
pub fn callee_definitions(
    store: &TypeStore,
    file: FileId,
    call: &Node,
    definitions: &Vec<ResolvedDefinition>,
) -> (result: Result<Option<Vec<CalleeDefinition>>, Query>)
    requires
        store.wf(),
    ensures
        definitions_view(result) == call_definitions(store, file, *call, definitions@),
{
    if call.children.len() == 0 {
        return Ok(None);
    }
    match callee_type(store, file, &call.children[0], definitions) {
        Err(query) => Err(query),
        Ok(None) => Ok(None),
        Ok(Some(callee)) => {
            let mut out: Vec<CalleeDefinition> = Vec::new();
            if collect(store, callee, &mut out) {
                assert(out@ == denoted(store, callee)->0);
                Ok(Some(out))
            } else {
                Ok(None)
            }
        },
    }
}

} // verus!
