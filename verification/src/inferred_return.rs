//! The return type that an unannotated function reveals.
//!
//! A function without a return annotation reveals the union of the types of its `return`
//! expressions, with `None` added when control may fall off the end of its body. A
//! generator reveals `Generator[Y, S, R]` (`AsyncGenerator[Y, S]` when async): `Y` is the
//! union of what it yields, `S` is `Any` while every yield is directly the value of an
//! expression statement and `Unknown` otherwise, and `R` is the union of its returns.
//!
//! `return f(...)` contributes the inferred return of `f` where the call itself is
//! `Unknown` and `f` is such a function too: up to a depth, and never in a cycle.

use vstd::prelude::*;

use crate::syntax::{Node, NodeKind};
use crate::types;
use crate::types::{
    DynamicKind, FunctionId, FunctionNode, Query, QueryView, SignatureId, TypeId, TypeKind,
    TypeStore,
};
use crate::unnecessary::is_unknown;

verus! {

// -- what a body returns and yields -----------------------------------------------------

/// A `return` statement, by what it contributes.
#[derive(Clone, Copy, PartialEq, Eq, Structural, Debug)]
pub enum ReturnSite {
    /// `return` without a value.
    Bare,
    /// `return <expr>`: the type of the expression, and of the callee if it is a call.
    Value { ty: Option<TypeId>, callee: Option<TypeId> },
}

/// A yield expression, by what it contributes.
#[derive(Clone, Copy, PartialEq, Eq, Structural, Debug)]
pub enum YieldSite {
    /// `yield` without a value.
    Bare,
    /// `yield <expr>`: the type of the expression.
    Yield(Option<TypeId>),
    /// `yield from <expr>`: the type of the delegate.
    YieldFrom(Option<TypeId>),
}

pub open spec fn return_site(ret: Node) -> ReturnSite {
    if ret.children@.len() == 0 {
        ReturnSite::Bare
    } else {
        let value = ret.children@[0];
        ReturnSite::Value {
            ty: value.ty,
            callee: if value.kind is Call && value.children@.len() > 0 {
                value.children@[0].ty
            } else {
                None
            },
        }
    }
}

/// The `return` statements of a node's own scope, in source order: nested functions and
/// classes are scopes of their own.
pub open spec fn returns_of(node: Node) -> Seq<ReturnSite>
    decreases node, 0nat,
{
    match node.kind {
        NodeKind::Return => seq![return_site(node)],
        NodeKind::FunctionDef | NodeKind::ClassDef => Seq::empty(),
        _ => all_returns(node.children@, 0),
    }
}

/// The `return` statements of the nodes from position `from` on.
pub open spec fn all_returns(nodes: Seq<Node>, from: int) -> Seq<ReturnSite>
    decreases nodes, nodes.len() - from,
    when 0 <= from
{
    if from >= nodes.len() {
        Seq::empty()
    } else {
        returns_of(nodes[from]) + all_returns(nodes, from + 1)
    }
}

/// The yields of a stretch of code.
pub struct Yields {
    pub sites: Seq<YieldSite>,
    /// Some `yield` is not directly the value of an expression statement.
    pub consumed: bool,
    /// There is a `yield from`.
    pub delegates: bool,
}

impl Yields {
    pub open spec fn none() -> Yields {
        Yields { sites: Seq::empty(), consumed: false, delegates: false }
    }

    /// These yields, then those.
    pub open spec fn then_also(self, other: Yields) -> Yields {
        Yields {
            sites: self.sites + other.sites,
            consumed: self.consumed || other.consumed,
            delegates: self.delegates || other.delegates,
        }
    }
}

/// The type of a node's first child, where it has one.
pub open spec fn operand_type(node: Node) -> Option<TypeId> {
    if node.children@.len() > 0 {
        node.children@[0].ty
    } else {
        None
    }
}

/// The yield expression itself; `direct` says that it is the value of an expression
/// statement.
pub open spec fn own_yield(node: Node, direct: bool) -> Yields {
    match node.kind {
        NodeKind::Yield => Yields {
            sites: seq![
                if node.children@.len() == 0 {
                    YieldSite::Bare
                } else {
                    YieldSite::Yield(operand_type(node))
                },
            ],
            consumed: !direct,
            delegates: false,
        },
        NodeKind::YieldFrom => Yields {
            sites: seq![YieldSite::YieldFrom(operand_type(node))],
            consumed: false,
            delegates: true,
        },
        _ => Yields::none(),
    }
}

/// The yields of a node's own scope, in source order: nested functions, classes and
/// lambdas are scopes of their own.
pub open spec fn yields_of(node: Node, direct: bool) -> Yields
    decreases node, 0nat,
{
    match node.kind {
        NodeKind::FunctionDef | NodeKind::ClassDef | NodeKind::Lambda => Yields::none(),
        _ => own_yield(node, direct).then_also(
            all_yields(node.children@, 0, node.kind is ExprStmt),
        ),
    }
}

/// The yields of the nodes from position `from` on.
pub open spec fn all_yields(nodes: Seq<Node>, from: int, direct: bool) -> Yields
    decreases nodes, nodes.len() - from,
    when 0 <= from
{
    if from >= nodes.len() {
        Yields::none()
    } else {
        yields_of(nodes[from], direct).then_also(all_yields(nodes, from + 1, direct))
    }
}

/// Every `return` statement of this body's own scope (nested function and class bodies
/// are their own scopes; expressions cannot contain `return`).
pub fn collect_returns(body: &Vec<Node>, out: &mut Vec<ReturnSite>)
    ensures
        final(out)@ == old(out)@ + all_returns(body@, 0),
    decreases *body,
{
    let mut i: usize = 0;
    while i < body.len()
        invariant
            i <= body@.len(),
            out@ + all_returns(body@, i as int) == old(out)@ + all_returns(body@, 0),
        decreases body@.len() - i,
    {
        let node = &body[i];
        let ghost before = out@;
        match &node.kind {
            NodeKind::Return => {
                if node.children.len() == 0 {
                    out.push(ReturnSite::Bare);
                } else {
                    let value = &node.children[0];
                    let mut callee = None;
                    if matches!(value.kind, NodeKind::Call { .. }) && value.children.len() > 0 {
                        callee = value.children[0].ty;
                    }
                    out.push(ReturnSite::Value { ty: value.ty, callee });
                }
                assert(out@ == before + returns_of(*node));
            },
            NodeKind::FunctionDef => {},
            NodeKind::ClassDef => {},
            _ => collect_returns(&node.children, out),
        }
        assert(out@ == before + returns_of(*node));
        i += 1;
    }
}

/// Collects the yields of one function scope, in source order, tracking whether any
/// yield's value is consumed.
#[derive(Debug)]
pub struct YieldCollector {
    pub sites: Vec<YieldSite>,
    pub consumed: bool,
    pub has_yield_from: bool,
}

impl View for YieldCollector {
    type V = Yields;

    open spec fn view(&self) -> Yields {
        Yields { sites: self.sites@, consumed: self.consumed, delegates: self.has_yield_from }
    }
}

impl YieldCollector {
    pub fn new() -> (collector: YieldCollector)
        ensures
            collector@ == Yields::none(),
    {
        YieldCollector { sites: Vec::new(), consumed: false, has_yield_from: false }
    }

    /// Collects the yields of the nodes; `direct` says that they are expression statements'
    /// values.
    pub fn visit_body(&mut self, body: &Vec<Node>, direct: bool)
        ensures
            final(self)@ == old(self)@.then_also(all_yields(body@, 0, direct)),
        decreases *body, 0nat,
    {
        let mut i: usize = 0;
        while i < body.len()
            invariant
                i <= body@.len(),
                self@.then_also(all_yields(body@, i as int, direct)) == old(self)@.then_also(
                    all_yields(body@, 0, direct),
                ),
            decreases body@.len() - i,
        {
            let ghost before = self@;
            self.visit(&body[i], direct);
            proof {
                let first = yields_of(body@[i as int], direct);
                let rest = all_yields(body@, i + 1, direct);
                assert(before.sites + (first.sites + rest.sites) == (before.sites + first.sites)
                    + rest.sites);
            }
            i += 1;
        }
    }

    /// Collects the yields of one node.
    pub fn visit(&mut self, node: &Node, direct: bool)
        ensures
            final(self)@ == old(self)@.then_also(yields_of(*node, direct)),
        decreases *node, 1nat,
    {
        match &node.kind {
            NodeKind::FunctionDef | NodeKind::ClassDef | NodeKind::Lambda => {
                assert(old(self)@.sites + Yields::none().sites == old(self)@.sites);
                return;
            },
            NodeKind::Yield => {
                if node.children.len() == 0 {
                    self.sites.push(YieldSite::Bare);
                } else {
                    self.sites.push(YieldSite::Yield(node.children[0].ty));
                }
                if !direct {
                    self.consumed = true;
                }
            },
            NodeKind::YieldFrom => {
                let mut delegate = None;
                if node.children.len() > 0 {
                    delegate = node.children[0].ty;
                }
                self.sites.push(YieldSite::YieldFrom(delegate));
                self.has_yield_from = true;
            },
            _ => {},
        }
        let ghost middle = self@;
        assert(middle.sites == old(self)@.sites + own_yield(*node, direct).sites);
        self.visit_body(&node.children, matches!(node.kind, NodeKind::ExprStmt));
        proof {
            let own = own_yield(*node, direct);
            let rest = all_yields(node.children@, 0, node.kind is ExprStmt);
            assert((old(self)@.sites + own.sites) + rest.sites == old(self)@.sites + (own.sites
                + rest.sites));
        }
    }
}

// -- the inferred return ----------------------------------------------------------------

/// Call chains deeper than this keep the call's own type.
pub const MAX_CHAIN_DEPTH: usize = 8;

/// Why there is no inferred return.
#[derive(Debug)]
pub enum Stop {
    /// It does not apply, or some contributing expression has no type.
    Inapplicable,
    /// The type checker has to build a type first.
    Open(Query),
}

/// A [`Stop`] by value.
pub enum StopView {
    Inapplicable,
    Open(QueryView),
}

impl View for Stop {
    type V = StopView;

    open spec fn view(&self) -> StopView {
        match *self {
            Stop::Inapplicable => StopView::Inapplicable,
            Stop::Open(query) => StopView::Open(query@),
        }
    }
}

/// An outcome by value.
pub open spec fn stopped(outcome: Result<TypeId, Stop>) -> Result<TypeId, StopView> {
    match outcome {
        Ok(ty) => Ok(ty),
        Err(stop) => Err(stop@),
    }
}

/// The type built for `query`.
pub open spec fn construction(store: &TypeStore, query: QueryView) -> Result<TypeId, StopView> {
    match store.built(query) {
        Ok(ty) => Ok(ty),
        Err(open) => Err(StopView::Open(open)),
    }
}

/// The function that a type denotes: a function, or the one behind a bound method.
pub open spec fn denoted_function(store: &TypeStore, ty: TypeId) -> Option<FunctionId> {
    match store.kind_of(ty) {
        TypeKind::FunctionLiteral(function) => Some(function),
        TypeKind::BoundMethod { function, receiver, signatures } => Some(function),
        _ => None,
    }
}

/// What a yield contributes.
pub open spec fn yield_type(store: &TypeStore, site: YieldSite) -> Result<TypeId, StopView> {
    match site {
        YieldSite::Bare => Ok(store.none),
        YieldSite::Yield(Some(ty)) => Ok(ty),
        YieldSite::YieldFrom(Some(delegate)) => construction(
            store,
            QueryView::ElementOf(delegate),
        ),
        _ => Err(StopView::Inapplicable),
    }
}

/// The union of what the sites yield.
pub open spec fn yield_union(store: &TypeStore, sites: Seq<YieldSite>) -> Result<TypeId, StopView> {
    match types::all_ok(sites.map_values(|site: YieldSite| yield_type(store, site))) {
        Ok(parts) => construction(store, QueryView::Union(parts)),
        Err(stop) => Err(stop),
    }
}

/// What a `return` contributes, given the functions under inference.
pub open spec fn return_type(
    store: &TypeStore,
    site: ReturnSite,
    visiting: Seq<FunctionId>,
) -> Result<TypeId, StopView>
    decreases MAX_CHAIN_DEPTH - visiting.len(), 1nat, 0nat,
{
    match site {
        ReturnSite::Bare => Ok(store.none),
        ReturnSite::Value { ty: None, callee } => Err(StopView::Inapplicable),
        ReturnSite::Value { ty: Some(own), callee } => {
            if store.kind_of(own) != TypeKind::Dynamic(DynamicKind::Unknown) {
                Ok(own)
            } else {
                match chained_return(store, callee, visiting) {
                    Err(StopView::Inapplicable) => Ok(own),
                    outcome => outcome,
                }
            }
        },
    }
}

/// The inferred return of the function that a returned call calls; it does not apply in
/// a cycle or beyond the chain depth.
pub open spec fn chained_return(
    store: &TypeStore,
    callee: Option<TypeId>,
    visiting: Seq<FunctionId>,
) -> Result<TypeId, StopView>
    decreases MAX_CHAIN_DEPTH - visiting.len(), 0nat, 0nat,
{
    match callee {
        None => Err(StopView::Inapplicable),
        Some(ty) => match denoted_function(store, ty) {
            None => Err(StopView::Inapplicable),
            Some(function) => if visiting.len() >= MAX_CHAIN_DEPTH || visiting.contains(function) {
                Err(StopView::Inapplicable)
            } else {
                inferred(store, function, visiting.push(function))
            },
        },
    }
}

/// What the `return` statements contribute, one by one.
pub open spec fn return_types(
    store: &TypeStore,
    sites: Seq<ReturnSite>,
    visiting: Seq<FunctionId>,
) -> Seq<Result<TypeId, StopView>>
    decreases MAX_CHAIN_DEPTH - visiting.len(), 2nat, sites.len(),
{
    if sites.len() == 0 {
        Seq::empty()
    } else {
        return_types(store, sites.drop_last(), visiting).push(
            return_type(store, sites.last(), visiting),
        )
    }
}

/// The union of what a body returns; falling off its end returns `None`.
pub open spec fn return_union(
    store: &TypeStore,
    function: FunctionNode,
    visiting: Seq<FunctionId>,
) -> Result<TypeId, StopView>
    decreases MAX_CHAIN_DEPTH - visiting.len(), 3nat, 0nat,
{
    match types::all_ok(return_types(store, all_returns(function.body@, 0), visiting)) {
        Ok(parts) => construction(
            store,
            QueryView::Union(
                if function.end_reachable {
                    parts.push(store.none)
                } else {
                    parts
                },
            ),
        ),
        Err(stop) => Err(stop),
    }
}

/// The inferred return of a function, where the functions of `visiting` (itself last) are
/// under inference. It does not apply to overloaded and annotated functions, nor to
/// coroutines.
pub open spec fn inferred(
    store: &TypeStore,
    id: FunctionId,
    visiting: Seq<FunctionId>,
) -> Result<TypeId, StopView>
    decreases MAX_CHAIN_DEPTH - visiting.len(), 4nat, 0nat,
{
    match store.function_of(id) {
        None => Err(StopView::Inapplicable),
        Some(function) => {
            if function.overloaded || function.annotated || (function.is_async
                && !function.is_generator) {
                Err(StopView::Inapplicable)
            } else if !function.is_generator {
                return_union(store, function, visiting)
            } else {
                let yields = all_yields(function.body@, 0, false);
                let send = if yields.consumed || yields.delegates {
                    store.unknown
                } else {
                    store.any
                };
                match yield_union(store, yields.sites) {
                    Err(stop) => Err(stop),
                    Ok(yielded) => if function.is_async {
                        construction(store, QueryView::AsyncGenerator { yields: yielded, send })
                    } else {
                        match return_union(store, function, visiting) {
                            Err(stop) => Err(stop),
                            Ok(result) => construction(
                                store,
                                QueryView::Generator { yields: yielded, send, result },
                            ),
                        }
                    },
                }
            }
        },
    }
}

proof fn lemma_return_types(store: &TypeStore, sites: Seq<ReturnSite>, visiting: Seq<FunctionId>)
    ensures
        return_types(store, sites, visiting).len() == sites.len(),
        forall|i: int|
            0 <= i < sites.len() ==> #[trigger] return_types(store, sites, visiting)[i]
                == return_type(store, sites[i], visiting),
    decreases sites.len(),
{
    if sites.len() > 0 {
        lemma_return_types(store, sites.drop_last(), visiting);
    }
}

fn construct(store: &TypeStore, query: Query) -> (ty: Result<TypeId, Stop>)
    ensures
        stopped(ty) == construction(store, query@),
{
    match store.build(query) {
        Ok(ty) => Ok(ty),
        Err(open) => Err(Stop::Open(open)),
    }
}

/// What one yield site contributes: the yielded expression's type (`None` for a bare
/// `yield`), or the delegate's element type for `yield from`.
pub fn yield_site_type(store: &TypeStore, site: YieldSite) -> (ty: Result<TypeId, Stop>)
    ensures
        stopped(ty) == yield_type(store, site),
{
    match site {
        YieldSite::Bare => Ok(store.none),
        YieldSite::Yield(Some(ty)) => Ok(ty),
        YieldSite::YieldFrom(Some(delegate)) => construct(store, Query::ElementOf(delegate)),
        _ => Err(Stop::Inapplicable),
    }
}

fn union_of_yields(store: &TypeStore, sites: &Vec<YieldSite>) -> (ty: Result<TypeId, Stop>)
    ensures
        stopped(ty) == yield_union(store, sites@),
{
    let ghost items = sites@.map_values(|site: YieldSite| yield_type(store, site));
    let mut parts: Vec<TypeId> = Vec::new();
    let mut i: usize = 0;
    while i < sites.len()
        invariant
            i <= sites@.len(),
            items == sites@.map_values(|site: YieldSite| yield_type(store, site)),
            parts@.len() == i,
            forall|j: int| 0 <= j < i ==> #[trigger] items[j] == Ok::<TypeId, StopView>(parts@[j]),
        decreases sites@.len() - i,
    {
        match yield_site_type(store, sites[i]) {
            Ok(part) => {
                parts.push(part);
            },
            Err(stop) => {
                proof {
                    types::lemma_first_error(items, i as int);
                }
                return Err(stop);
            },
        }
        i += 1;
    }
    proof {
        types::lemma_all_ok(items, parts@);
    }
    construct(store, Query::Union(parts))
}

fn function_behind(store: &TypeStore, ty: TypeId) -> (function: Option<FunctionId>)
    ensures
        function == denoted_function(store, ty),
{
    match store.kind(ty) {
        TypeKind::FunctionLiteral(function) => Some(*function),
        TypeKind::BoundMethod { function, .. } => Some(*function),
        _ => None,
    }
}

fn is_visiting(visiting: &Vec<FunctionId>, function: FunctionId) -> (found: bool)
    ensures
        found == visiting@.contains(function),
{
    let mut i: usize = 0;
    while i < visiting.len()
        invariant
            i <= visiting@.len(),
            forall|j: int| 0 <= j < i ==> visiting@[j] != function,
        decreases visiting@.len() - i,
    {
        if visiting[i] == function {
            return true;
        }
        i += 1;
    }
    false
}

/// For `return f(...)` where `f` is a plain unannotated function (or a bound method of
/// one), that callee's inferred return. It does not apply in a cycle, at the depth cap, or
/// to a callee that has none.
pub fn chained_call_return(
    store: &TypeStore,
    callee: Option<TypeId>,
    visiting: &mut Vec<FunctionId>,
) -> (ty: Result<TypeId, Stop>)
    ensures
        stopped(ty) == chained_return(store, callee, old(visiting)@),
        final(visiting)@ == old(visiting)@,
    decreases MAX_CHAIN_DEPTH - old(visiting)@.len(), 0nat,
{
    let Some(callee) = callee else {
        return Err(Stop::Inapplicable);
    };
    let Some(function) = function_behind(store, callee) else {
        return Err(Stop::Inapplicable);
    };
    if visiting.len() >= MAX_CHAIN_DEPTH || is_visiting(visiting, function) {
        return Err(Stop::Inapplicable);
    }
    visiting.push(function);
    let inferred = inferred_return(store, function, visiting);
    let _ = visiting.pop();
    assert(visiting@ == old(visiting)@);
    inferred
}

fn return_site_type(
    store: &TypeStore,
    site: ReturnSite,
    visiting: &mut Vec<FunctionId>,
) -> (ty: Result<TypeId, Stop>)
    ensures
        stopped(ty) == return_type(store, site, old(visiting)@),
        final(visiting)@ == old(visiting)@,
    decreases MAX_CHAIN_DEPTH - old(visiting)@.len(), 1nat,
{
    match site {
        ReturnSite::Bare => Ok(store.none),
        ReturnSite::Value { ty: None, .. } => Err(Stop::Inapplicable),
        ReturnSite::Value { ty: Some(own), callee } => {
            if !is_unknown(store, own) {
                return Ok(own);
            }
            match chained_call_return(store, callee, visiting) {
                Err(Stop::Inapplicable) => Ok(own),
                outcome => outcome,
            }
        },
    }
}

/// The union of the body's own return-expression types, plus `None` when the end of the
/// scope is reachable.
pub fn returns_union(
    store: &TypeStore,
    function: &FunctionNode,
    visiting: &mut Vec<FunctionId>,
) -> (ty: Result<TypeId, Stop>)
    ensures
        stopped(ty) == return_union(store, *function, old(visiting)@),
        final(visiting)@ == old(visiting)@,
    decreases MAX_CHAIN_DEPTH - old(visiting)@.len(), 2nat,
{
    let mut sites: Vec<ReturnSite> = Vec::new();
    collect_returns(&function.body, &mut sites);
    assert(sites@ == all_returns(function.body@, 0));
    let ghost items = return_types(store, sites@, old(visiting)@);
    proof {
        lemma_return_types(store, sites@, old(visiting)@);
    }
    let mut parts: Vec<TypeId> = Vec::new();
    let mut i: usize = 0;
    while i < sites.len()
        invariant
            i <= sites@.len(),
            visiting@ == old(visiting)@,
            sites@ == all_returns(function.body@, 0),
            items == return_types(store, sites@, old(visiting)@),
            items.len() == sites@.len(),
            forall|j: int|
                0 <= j < sites@.len() ==> #[trigger] items[j] == return_type(
                    store,
                    sites@[j],
                    old(visiting)@,
                ),
            parts@.len() == i,
            forall|j: int| 0 <= j < i ==> #[trigger] items[j] == Ok::<TypeId, StopView>(parts@[j]),
        decreases sites@.len() - i,
    {
        match return_site_type(store, sites[i], visiting) {
            Ok(part) => {
                parts.push(part);
            },
            Err(stop) => {
                proof {
                    types::lemma_first_error(items, i as int);
                }
                return Err(stop);
            },
        }
        i += 1;
    }
    proof {
        types::lemma_all_ok(items, parts@);
    }
    if function.end_reachable {
        parts.push(store.none);
    }
    construct(store, Query::Union(parts))
}

/// The inferred return of a plain unannotated function (`Generator[...]` or
/// `AsyncGenerator[...]` for generators).
pub fn inferred_return(
    store: &TypeStore,
    id: FunctionId,
    visiting: &mut Vec<FunctionId>,
) -> (ty: Result<TypeId, Stop>)
    ensures
        stopped(ty) == inferred(store, id, old(visiting)@),
        final(visiting)@ == old(visiting)@,
    decreases MAX_CHAIN_DEPTH - old(visiting)@.len(), 3nat,
{
    let Some(function) = store.function(id) else {
        return Err(Stop::Inapplicable);
    };
    if function.overloaded || function.annotated {
        return Err(Stop::Inapplicable);
    }
    if function.is_async && !function.is_generator {
        return Err(Stop::Inapplicable);
    }
    if !function.is_generator {
        return returns_union(store, function, visiting);
    }
    let mut collector = YieldCollector::new();
    collector.visit_body(&function.body, false);
    assert(collector@.sites == all_yields(function.body@, 0, false).sites);
    let yields = match union_of_yields(store, &collector.sites) {
        Ok(ty) => ty,
        Err(stop) => {
            return Err(stop);
        },
    };
    let send = if collector.consumed || collector.has_yield_from {
        store.unknown
    } else {
        store.any
    };
    if function.is_async {
        return construct(store, Query::AsyncGenerator { yields, send });
    }
    match returns_union(store, function, visiting) {
        Ok(result) => construct(store, Query::Generator { yields, send, result }),
        Err(stop) => Err(stop),
    }
}

// -- the revealed form ------------------------------------------------------------------

/// The type that a reveal looks at: of a property on its class the getter.
pub open spec fn revealed_subject(store: &TypeStore, ty: TypeId) -> TypeId {
    match store.kind_of(ty) {
        TypeKind::Property(Some(getter)) => getter,
        _ => ty,
    }
}

/// The function that a type was made from: a function, the one behind a bound method, or
/// the one that a callable kept while its return is `Unknown`.
pub open spec fn source_function(store: &TypeStore, ty: TypeId) -> Option<FunctionId> {
    match store.kind_of(ty) {
        TypeKind::Callable { overloads, definition: Some(function) } => if overloads@.len() == 1
            && store.kind_of(overloads@[0].result) == TypeKind::Dynamic(DynamicKind::Unknown) {
            Some(function)
        } else {
            None
        },
        _ => denoted_function(store, ty),
    }
}

/// The one signature that a type has: as the decorators of a function left it, or as
/// binding left it.
pub open spec fn sole_signature(store: &TypeStore, ty: TypeId) -> Option<SignatureId> {
    match store.kind_of(ty) {
        TypeKind::FunctionLiteral(function) => match store.function_of(function) {
            Some(node) => Some(node.signature),
            None => None,
        },
        TypeKind::BoundMethod { function, receiver, signatures } => if signatures@.len() == 1 {
            Some(signatures@[0])
        } else {
            None
        },
        TypeKind::Callable { overloads, definition } => if overloads@.len() == 1 {
            Some(overloads@[0].signature)
        } else {
            None
        },
        _ => None,
    }
}

/// The form in which a type is revealed: a function without a return annotation as a
/// callable with its inferred return, anything else as it is.
pub open spec fn revealed(store: &TypeStore, ty: TypeId) -> Result<TypeId, QueryView> {
    let subject = revealed_subject(store, ty);
    match source_function(store, subject) {
        None => Ok(ty),
        Some(function) => match inferred(store, function, seq![function]) {
            Err(StopView::Inapplicable) => Ok(ty),
            Err(StopView::Open(query)) => Err(query),
            Ok(result) => match sole_signature(store, subject) {
                None => Ok(ty),
                Some(signature) => store.built(
                    QueryView::Callable { source: function, signature, result },
                ),
            },
        },
    }
}

/// The display of the revealed form.
pub open spec fn revealed_text(store: &TypeStore, ty: TypeId) -> Result<Seq<char>, QueryView> {
    match revealed(store, ty) {
        Ok(form) => Ok(types::long_display_of(store, form)),
        Err(query) => Err(query),
    }
}

/// A revealed display by value.
pub open spec fn text_view(text: Result<String, Query>) -> Result<Seq<char>, QueryView> {
    match text {
        Ok(text) => Ok(text@),
        Err(query) => Err(query@),
    }
}

/// The revealed form of `ty`: a function without a return annotation (plain, decorated
/// without loss, bound, or the getter of a property on its class) as a callable with its
/// inferred return.
pub fn with_inferred_return(store: &TypeStore, ty: TypeId) -> (form: Result<TypeId, Query>)
    ensures
        types::outcome(form) == revealed(store, ty),
{
    let subject = match store.kind(ty) {
        TypeKind::Property(Some(getter)) => *getter,
        _ => ty,
    };
    let function = match store.kind(subject) {
        TypeKind::Callable { overloads, definition: Some(function) } => {
            if overloads.len() == 1 && is_unknown(store, overloads[0].result) {
                *function
            } else {
                return Ok(ty);
            }
        },
        _ => match function_behind(store, subject) {
            Some(function) => function,
            None => {
                return Ok(ty);
            },
        },
    };
    let mut visiting: Vec<FunctionId> = Vec::new();
    visiting.push(function);
    assert(visiting@ == seq![function]);
    let result = match inferred_return(store, function, &mut visiting) {
        Ok(result) => result,
        Err(Stop::Inapplicable) => {
            return Ok(ty);
        },
        Err(Stop::Open(query)) => {
            return Err(query);
        },
    };
    let signature = match store.kind(subject) {
        TypeKind::FunctionLiteral(function) => match store.function(*function) {
            Some(node) => node.signature,
            None => {
                return Ok(ty);
            },
        },
        TypeKind::BoundMethod { signatures, .. } => {
            if signatures.len() != 1 {
                return Ok(ty);
            }
            signatures[0]
        },
        TypeKind::Callable { overloads, .. } => {
            if overloads.len() != 1 {
                return Ok(ty);
            }
            overloads[0].signature
        },
        _ => {
            return Ok(ty);
        },
    };
    store.build(Query::Callable { source: function, signature, result })
}

/// The display of the revealed form of `ty`, long unions preserved.
pub fn revealed_display(store: &TypeStore, ty: TypeId) -> (text: Result<String, Query>)
    ensures
        text_view(text) == revealed_text(store, ty),
{
    match with_inferred_return(store, ty) {
        Ok(form) => Ok(store.long_display(form).to_string()),
        Err(query) => Err(query),
    }
}

} // verus!
