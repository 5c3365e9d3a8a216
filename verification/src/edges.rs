//! Call edges: which definitions the calls of a file lead to.

use vstd::prelude::*;

use crate::callee;
use crate::callee::{callee_definitions, CalleeDefinition, ReceiverClass, ResolvedDefinition};
use crate::syntax::{Node, NodeKind, TextRange};
use crate::text::{push_text, string_of};
use crate::types::{FileId, FileRange, Query, QueryView, TypeStore};

verus! {

// -- the calls of a file ----------------------------------------------------------------

/// The calls at or below a node; a call stands after the calls inside it.
pub open spec fn calls_in(node: Node) -> Seq<Node>
    decreases node, 0nat,
{
    let inner = all_calls(node.children@, 0);
    if node.kind is Call {
        inner.push(node)
    } else {
        inner
    }
}

/// The calls at or below the nodes from `from` on.
pub open spec fn all_calls(nodes: Seq<Node>, from: int) -> Seq<Node>
    decreases nodes, nodes.len() - from,
    when 0 <= from
{
    if from >= nodes.len() {
        Seq::empty()
    } else {
        calls_in(nodes[from]) + all_calls(nodes, from + 1)
    }
}

/// The nodes behind references.
pub open spec fn nodes_of(nodes: Seq<&Node>) -> Seq<Node> {
    nodes.map_values(|node: &Node| *node)
}

fn collect_calls_in<'a>(node: &'a Node, out: &mut Vec<&'a Node>)
    ensures
        nodes_of(final(out)@) == nodes_of(old(out)@) + calls_in(*node),
    decreases *node, 1nat,
{
    collect_calls(&node.children, out);
    if let NodeKind::Call { .. } = node.kind {
        let ghost before = out@;
        out.push(node);
        assert(nodes_of(out@) == nodes_of(before).push(*node));
    }
}

fn collect_calls<'a>(nodes: &'a Vec<Node>, out: &mut Vec<&'a Node>)
    ensures
        nodes_of(final(out)@) == nodes_of(old(out)@) + all_calls(nodes@, 0),
    decreases *nodes, 0nat,
{
    let mut i: usize = 0;
    while i < nodes.len()
        invariant
            i <= nodes@.len(),
            nodes_of(out@) + all_calls(nodes@, i as int) == nodes_of(old(out)@) + all_calls(
                nodes@,
                0,
            ),
        decreases nodes@.len() - i,
    {
        let ghost before = nodes_of(out@);
        collect_calls_in(&nodes[i], out);
        assert(before + (calls_in(nodes@[i as int]) + all_calls(nodes@, i + 1)) == (before
            + calls_in(nodes@[i as int])) + all_calls(nodes@, i + 1));
        i += 1;
    }
}

/// The calls of a file, inner calls first.
pub fn call_sites<'a>(body: &'a Vec<Node>) -> (calls: Vec<&'a Node>)
    ensures
        nodes_of(calls@) == all_calls(body@, 0),
{
    let mut calls: Vec<&'a Node> = Vec::new();
    collect_calls(body, &mut calls);
    assert(nodes_of(calls@) =~= all_calls(body@, 0));
    calls
}

// -- the edge of a call -----------------------------------------------------------------

/// Where a call may lead: into definitions of the root, or out of it.
#[derive(Debug)]
pub struct CallEdge {
    pub call: TextRange,
    /// The definitions in the root.
    pub targets: Vec<FileRange>,
    /// The definitions that lie outside the root together with their receivers.
    pub external: Vec<FileRange>,
}

/// A call edge by value.
#[verifier::ext_equal]
pub struct EdgeView {
    pub call: TextRange,
    pub targets: Seq<FileRange>,
    pub external: Seq<FileRange>,
}

impl View for CallEdge {
    type V = EdgeView;

    open spec fn view(&self) -> EdgeView {
        EdgeView { call: self.call, targets: self.targets@, external: self.external@ }
    }
}

/// Whether a definition is a target: it stands in the root.
pub open spec fn is_target(root: Seq<FileId>, found: CalleeDefinition) -> bool {
    root.contains(found.definition.file)
}

/// Whether a definition is external: it stands outside the root, and so does the class of
/// its receiver, where it has one. A root class that inherits a library method may be
/// called back, so its calls are not external.
pub open spec fn is_external(root: Seq<FileId>, found: CalleeDefinition) -> bool {
    &&& !root.contains(found.definition.file)
    &&& match found.receiver {
        ReceiverClass::Unbound => true,
        ReceiverClass::Defined(file) => !root.contains(file),
        ReceiverClass::Opaque => false,
    }
}

/// The places of the targets among some definitions.
pub open spec fn targets_of(root: Seq<FileId>, found: Seq<CalleeDefinition>) -> Seq<FileRange> {
    found.filter(|d: CalleeDefinition| is_target(root, d)).map_values(
        |d: CalleeDefinition| d.definition,
    )
}

/// The places of the external ones among some definitions.
pub open spec fn external_of(root: Seq<FileId>, found: Seq<CalleeDefinition>) -> Seq<FileRange> {
    found.filter(|d: CalleeDefinition| is_external(root, d)).map_values(
        |d: CalleeDefinition| d.definition,
    )
}

/// The edge of a call that denotes some definitions; a call that leads nowhere has none.
pub open spec fn edge_of(
    root: Seq<FileId>,
    call: TextRange,
    found: Option<Seq<CalleeDefinition>>,
) -> Option<EdgeView> {
    match found {
        None => None,
        Some(found) => {
            let targets = targets_of(root, found);
            let external = external_of(root, found);
            if targets.len() == 0 && external.len() == 0 {
                None
            } else {
                Some(EdgeView { call, targets, external })
            }
        },
    }
}

pub open spec fn optional_edge(edge: Option<CallEdge>) -> Option<EdgeView> {
    match edge {
        Some(edge) => Some(edge@),
        None => None,
    }
}

/// An outcome by value.
pub open spec fn edge_view(edge: Result<Option<CallEdge>, Query>) -> Result<
    Option<EdgeView>,
    QueryView,
> {
    match edge {
        Ok(edge) => Ok(optional_edge(edge)),
        Err(query) => Err(query@),
    }
}

fn in_root(root: &Vec<FileId>, file: FileId) -> (found: bool)
    ensures
        found == root@.contains(file),
{
    let mut i: usize = 0;
    while i < root.len()
        invariant
            i <= root@.len(),
            forall|j: int| 0 <= j < i ==> root@[j] != file,
        decreases root@.len() - i,
    {
        if root[i] == file {
            return true;
        }
        i += 1;
    }
    false
}

/// Sorts the definitions that a call denotes into targets and external ones.
pub fn classify(root: &Vec<FileId>, call: TextRange, found: &Option<Vec<CalleeDefinition>>) -> (edge:
    Option<CallEdge>)
    ensures
        optional_edge(edge) == edge_of(
            root@,
            call,
            match *found {
                Some(found) => Some(found@),
                None => None,
            },
        ),
{
    let found = match found {
        Some(found) => found,
        None => {
            return None;
        },
    };
    let mut targets: Vec<FileRange> = Vec::new();
    let mut external: Vec<FileRange> = Vec::new();
    let mut i: usize = 0;
    proof {
        reveal(Seq::filter);
        assert(found@.take(0) == Seq::<CalleeDefinition>::empty());
    }
    while i < found.len()
        invariant
            i <= found@.len(),
            targets@ == targets_of(root@, found@.take(i as int)),
            external@ == external_of(root@, found@.take(i as int)),
        decreases found@.len() - i,
    {
        let d = found[i];
        let ghost prefix = found@.take(i + 1);
        proof {
            reveal(Seq::filter);
            assert(prefix.drop_last() == found@.take(i as int));
            assert(prefix.last() == d);
        }
        if in_root(root, d.definition.file) {
            targets.push(d.definition);
        } else {
            let outside = match d.receiver {
                ReceiverClass::Unbound => true,
                ReceiverClass::Defined(file) => !in_root(root, file),
                ReceiverClass::Opaque => false,
            };
            if outside {
                external.push(d.definition);
            }
        }
        assert(targets@ =~= targets_of(root@, prefix));
        assert(external@ =~= external_of(root@, prefix));
        i += 1;
    }
    assert(found@.take(i as int) == found@);
    if targets.len() == 0 && external.len() == 0 {
        None
    } else {
        Some(CallEdge { call, targets, external })
    }
}

/// The edge of one call of a file. `root` are the files of the analyzed root, and
/// `definitions` those of the receiver of a method call, where it is a name.
pub fn call_edge(
    store: &TypeStore,
    root: &Vec<FileId>,
    file: FileId,
    call: &Node,
    definitions: &Vec<ResolvedDefinition>,
) -> (edge: Result<Option<CallEdge>, Query>)
    requires
        store.wf(),
    ensures
        edge_view(edge) == match callee::call_definitions(store, file, *call, definitions@) {
            Ok(found) => Ok(edge_of(root@, call.range, found)),
            Err(query) => Err(query),
        },
{
    match callee_definitions(store, file, call, definitions) {
        Err(query) => Err(query),
        Ok(found) => Ok(classify(root, call.range, &found)),
    }
}

// -- names outside the root -------------------------------------------------------------

/// The dotted name of a definition: its module, the scopes around it, its own name.
pub open spec fn dotted(module: Seq<char>, path: Seq<String>) -> Seq<char>
    decreases path.len(),
{
    if path.len() == 0 {
        module
    } else {
        dotted(module, path.drop_last()) + "."@ + path.last()@
    }
}

/// The name that an external definition is reported under (`pathlib.Path.write_text`).
pub fn home_name(module: &str, path: &Vec<String>) -> (name: String)
    ensures
        name@ == dotted(module@, path@),
{
    let mut name: Vec<char> = Vec::new();
    push_text(&mut name, module);
    assert(path@.take(0) == Seq::<String>::empty());
    let mut i: usize = 0;
    while i < path.len()
        invariant
            i <= path@.len(),
            name@ == dotted(module@, path@.take(i as int)),
        decreases path@.len() - i,
    {
        assert(path@.take(i + 1).drop_last() == path@.take(i as int));
        push_text(&mut name, ".");
        push_text(&mut name, path[i].as_str());
        i += 1;
    }
    assert(path@.take(i as int) == path@);
    string_of(&name)
}

} // verus!
