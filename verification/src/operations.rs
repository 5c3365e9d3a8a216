//! What the operations of the library give back, in terms of what they are given.

use vstd::prelude::*;

use crate::args::{parse_args, version_line, wants_version, Args, ArgsError};
use crate::args;
use crate::batch;
use crate::batch::{
    added_diagnostics, answer_query, base_check, files_to_reveal, find_unresolved, plan_reveals,
    validate, Answer, AnswerView, BaseCheck, BatchQuery, Override, Reported, Request, RequestError,
    RequestErrorView, RevealPlan, Site, World,
};
use crate::callee;
use crate::callee::{
    callee_definitions, callee_type, inferred_call_return, receiver_class, returned_receiver,
    sole_call_binding, CalleeDefinition, ReceiverClass, ResolvedDefinition,
};
use crate::checker;
use crate::checker::{
    check_comparison_pair, check_contains_pair, check_isinstance_call,
    check_unnecessary_diagnostics, condition_leaf_type, is_static_platform_or_version_condition,
    Finding, Lint, RuleSelection,
};
use crate::config;
use crate::config::{
    config_of, project_options, read_pyright_config, ConfigError, PyrightConfig, ProjectOptions,
};
use crate::diagnostics;
use crate::diagnostics::{
    check_report, convert, entry_key, pyright_rule, reveal_answer, CheckReport, Diagnostic,
    DiagnosticId, Entry, EntryKey, EntrySeverity, EntryView, Reveal,
};
use crate::display;
use crate::display::{name_self_typevars, normalize_type_display, strip_markup, SelfOwner};
use crate::edges;
use crate::edges::{call_edge, call_sites, classify, home_name, CallEdge};
use crate::inferred_return;
use crate::inferred_return::{
    revealed_display, with_inferred_return, yield_site_type, Stop, YieldSite,
};
use crate::outputs;
use crate::passes;
use crate::protocol;
use crate::reveals;
use crate::reveals::{append_reveals, Appended};
use crate::session;
use crate::session::{
    override_changes, Action, BatchRun, Change, Event, Response, WorldResult,
};
use crate::span;
use crate::span::{byte_place, find_expression, span_range, span_type, BytePlace, Lines};
use crate::syntax::{CmpOp, Node, TextRange};
use crate::text;
use crate::tree;
use crate::types;
use crate::types::{ClassId, FileId, FileRange, Query, QueryView, TypeId, TypeStore};
use crate::unnecessary;
use crate::unnecessary::{
    as_bool_literal_value, as_class_object_class, as_instance_for_comparison,
    as_int_literal_value, container_element_type, defines_eq_in_body,
    defines_member_skipping_object, expand_subtypes, is_function_or_overloaded,
    is_literal_type_or_union, is_type_comparable, is_type_comparable_impl,
    is_typeshed_stdlib_class, replace_enum_with_literal_value, types_overlap, union_elements,
};

verus! {

// -- values -----------------------------------------------------------------------------

/// An optional text and its characters.
pub open spec fn same_option(text: Option<String>, chars: Option<Seq<char>>) -> bool {
    match (text, chars) {
        (Some(text), Some(chars)) => text@ == chars,
        (None, None) => true,
        _ => false,
    }
}

/// An entry and its parts.
pub open spec fn same_entry(entry: Entry, parts: EntryView) -> bool {
    &&& entry.file@ == parts.file
    &&& entry.severity == parts.severity
    &&& entry.message@ == parts.message
    &&& entry.start == parts.start
    &&& entry.end == parts.end
    &&& same_option(entry.rule, parts.rule)
}

/// Entries and their parts, one by one.
pub open spec fn same_entries(entries: Seq<Entry>, parts: Seq<EntryView>) -> bool {
    &&& entries.len() == parts.len()
    &&& forall|i: int| 0 <= i < parts.len() ==> same_entry(#[trigger] entries[i], parts[i])
}

/// A query and what it asks.
pub open spec fn same_query(query: Query, asked: QueryView) -> bool {
    match (query, asked) {
        (Query::Union(a), QueryView::Union(b)) => a@ == b,
        (Query::ElementOf(a), QueryView::ElementOf(b)) => a == b,
        (
            Query::Generator { yields, send, result },
            QueryView::Generator { yields: y, send: s, result: r },
        ) => yields == y && send == s && result == r,
        (
            Query::AsyncGenerator { yields, send },
            QueryView::AsyncGenerator { yields: y, send: s },
        ) => yields == y && send == s,
        (
            Query::Callable { source, signature, result },
            QueryView::Callable { source: o, signature: s, result: r },
        ) => source == o && signature == s && result == r,
        (Query::Member { receiver, name }, QueryView::Member { receiver: r, name: n }) => receiver
            == r && name@ == n,
        (
            Query::Constraint { function, classinfo, positive, generic_filtering },
            QueryView::Constraint { function: f, classinfo: c, positive: p, generic_filtering: g },
        ) => function == f && classinfo == c && positive == p && generic_filtering == g,
        (
            Query::FilterGeneric { subject, constraint },
            QueryView::FilterGeneric { subject: s, constraint: c },
        ) => subject == s && constraint == c,
        (
            Query::Intersection { left, right },
            QueryView::Intersection { left: l, right: r },
        ) => left == l && right == r,
        (Query::Negation(a), QueryView::Negation(b)) => a == b,
        _ => false,
    }
}

/// An outcome with a text, or the query that is open.
pub open spec fn same_text(
    given: Result<Option<String>, Query>,
    meant: Result<Option<Seq<char>>, QueryView>,
) -> bool {
    match (given, meant) {
        (Ok(text), Ok(chars)) => same_option(text, chars),
        (Err(query), Err(asked)) => same_query(query, asked),
        _ => false,
    }
}

/// An outcome with a value, or the query that is open.
pub open spec fn same_value<T>(given: Result<T, Query>, meant: Result<T, QueryView>) -> bool {
    match (given, meant) {
        (Ok(value), Ok(other)) => value == other,
        (Err(query), Err(asked)) => same_query(query, asked),
        _ => false,
    }
}

// -- the rules --------------------------------------------------------------------------

/// The check of a comparison gives the message that is owed for these operands.
pub proof fn law_comparison_messages(
    store: &TypeStore,
    left: Node,
    op: CmpOp,
    right: Node,
    given: Result<Option<String>, Query>,
)
    requires
        call_ensures(check_comparison_pair, (store, &left, op, &right), given),
    ensures
        same_text(given, checker::comparison_message(store, left, op, right)),
{
}

/// The check of a membership gives the message that is owed for these operands.
pub proof fn law_membership_messages(
    store: &TypeStore,
    op: CmpOp,
    left: Node,
    right: Node,
    given: Result<Option<String>, Query>,
)
    requires
        call_ensures(check_contains_pair, (store, op, &left, &right), given),
    ensures
        same_text(given, checker::contains_message(store, op, left, right)),
{
}

/// The check of a class check gives the message that is owed for the call.
pub proof fn law_class_check_messages(
    store: &TypeStore,
    call: Node,
    given: Result<Option<String>, Query>,
)
    requires
        call_ensures(check_isinstance_call, (store, &call), given),
    ensures
        same_text(given, checker::isinstance_message(store, call)),
{
}

/// The pass gives each finding that is owed for the module, with its rule, its place and its
/// message, in order; or the query that is open.
pub proof fn law_findings_of_a_module(
    store: &TypeStore,
    selection: RuleSelection,
    body: Vec<Node>,
    given: Result<Vec<Finding>, Query>,
)
    requires
        call_ensures(check_unnecessary_diagnostics, (store, selection, &body), given),
    ensures
        match (given, checker::module_findings(store, selection, body@)) {
            (Ok(findings), Ok(meant)) => findings@.len() == meant.len() && forall|i: int|
                0 <= i < meant.len() ==> {
                    &&& (#[trigger] findings@[i]).lint == meant[i].lint
                    &&& findings@[i].range == meant[i].range
                    &&& findings@[i].message@ == meant[i].message
                },
            (Err(query), Err(asked)) => same_query(query, asked),
            _ => false,
        },
{
    if let (Ok(findings), Ok(meant)) = (given, checker::module_findings(store, selection, body@)) {
        assert(checker::views(findings@) == meant);
        assert forall|i: int| 0 <= i < meant.len() implies (#[trigger] findings@[i]).lint
            == meant[i].lint && findings@[i].range == meant[i].range && findings@[i].message@
            == meant[i].message by {
            assert(checker::views(findings@)[i] == findings@[i]@);
        }
    }
}

/// A rule is enabled by its own switch, and goes by its name.
pub proof fn law_rules(selection: RuleSelection, lint: Lint)
    ensures
        forall|given: bool| #[trigger]
            call_ensures(RuleSelection::enabled, (selection, lint), given) ==> given == (match lint {
                Lint::UnnecessaryIsinstance => selection.isinstance,
                Lint::UnnecessaryComparison => selection.comparison,
                Lint::UnnecessaryContains => selection.contains,
            }),
        forall|given: &'static str| #[trigger]
            call_ensures(Lint::name, (lint,), given) ==> given@ == (match lint {
                Lint::UnnecessaryIsinstance => "unnecessary-isinstance"@,
                Lint::UnnecessaryComparison => "unnecessary-comparison"@,
                Lint::UnnecessaryContains => "unnecessary-contains"@,
            }),
{
}

/// The type of an operand in its own region goes before its type in the scope.
pub proof fn law_types_of_leaves(leaf: Node, left: Node, right: Node)
    ensures
        forall|given: Option<TypeId>| #[trigger]
            call_ensures(condition_leaf_type, (&leaf,), given) && !passes::connects(leaf.kind)
                ==> given == if leaf.region_ty is Some {
                leaf.region_ty
            } else {
                leaf.ty
            },
        forall|given: bool| #[trigger]
            call_ensures(is_static_platform_or_version_condition, (&left, &right), given) ==> given
                == checker::static_condition(left, right),
{
}

/// The comparisons of types give what is owed for these types.
pub proof fn law_comparisons_of_types(
    store: &TypeStore,
    left: TypeId,
    right: TypeId,
    by_identity: bool,
    strict: bool,
)
    ensures
        forall|given: bool| #[trigger]
            call_ensures(
                is_type_comparable_impl,
                (store, left, right, by_identity, strict),
                given,
            ) ==> given == unnecessary::comparable(store, left, right, by_identity, strict),
        forall|given: bool| #[trigger]
            call_ensures(is_type_comparable, (store, left, right, by_identity), given) ==> given
                == unnecessary::comparable(store, left, right, by_identity, false),
        forall|given: bool| #[trigger]
            call_ensures(types_overlap, (store, left, right, by_identity), given) ==> given
                == unnecessary::overlapping(store, left, right, by_identity),
{
}

/// What is read of a type is what is owed for it.
pub proof fn law_readings_of_types(store: &TypeStore, ty: TypeId, class: ClassId)
    ensures
        forall|given: Vec<TypeId>| #[trigger]
            call_ensures(expand_subtypes, (store, ty), given) ==> given@ == unnecessary::subtypes(
                store,
                ty,
            ),
        forall|given: Vec<TypeId>| #[trigger]
            call_ensures(union_elements, (store, ty), given) ==> given@
                == unnecessary::elements_of(store, ty),
        forall|given: bool| #[trigger]
            call_ensures(is_literal_type_or_union, (store, ty), given) ==> given
                == unnecessary::literal_union(store, ty),
        forall|given: Result<TypeId, Query>| #[trigger]
            call_ensures(replace_enum_with_literal_value, (store, ty), given) ==> same_value(
                given,
                unnecessary::operand_form(store, ty),
            ),
        forall|given: Result<Option<TypeId>, Query>| #[trigger]
            call_ensures(container_element_type, (store, ty), given) ==> same_value(
                given,
                unnecessary::element_form(store, ty),
            ),
        forall|given: Option<ClassId>| #[trigger]
            call_ensures(as_instance_for_comparison, (store, ty), given) ==> given
                == unnecessary::instance_class(store, ty),
        forall|given: Option<Option<ClassId>>| #[trigger]
            call_ensures(as_class_object_class, (store, ty), given) ==> given
                == unnecessary::class_object(store, ty),
        forall|given: bool| #[trigger]
            call_ensures(defines_member_skipping_object, (store, ty), given) ==> given
                == unnecessary::member_eq(store, ty),
        forall|given: bool| #[trigger]
            call_ensures(is_typeshed_stdlib_class, (store, class), given) ==> given
                == unnecessary::stdlib_class(store, class),
        forall|given: bool| #[trigger]
            call_ensures(defines_eq_in_body, (store, class), given) ==> given
                == unnecessary::body_eq(store, class),
        forall|given: Option<bool>| #[trigger]
            call_ensures(as_bool_literal_value, (store, ty), given) ==> given
                == unnecessary::bool_literal(store, ty),
        forall|given: Option<i64>| #[trigger]
            call_ensures(as_int_literal_value, (store, ty), given) ==> (match given {
                Some(n) => unnecessary::int_literal(store, ty) == Some(n as int),
                None => unnecessary::int_literal(store, ty) is None,
            }),
        forall|given: bool| #[trigger]
            call_ensures(is_function_or_overloaded, (store, ty), given) ==> given
                == unnecessary::function_or_overloaded(store.kind_of(ty)),
{
}

// -- inferred types ---------------------------------------------------------------------

/// A revealed type is given as it is owed, and displayed in full.
pub proof fn law_reveals_of_types(
    store: &TypeStore,
    ty: TypeId,
    form: Result<TypeId, Query>,
    shown: Result<String, Query>,
)
    ensures
        call_ensures(with_inferred_return, (store, ty), form) ==> same_value(
            form,
            inferred_return::revealed(store, ty),
        ),
        call_ensures(revealed_display, (store, ty), shown) ==> match (
            shown,
            inferred_return::revealed(store, ty),
        ) {
            (Ok(shown), Ok(own)) => own.0 < store.types@.len() ==> shown@
                == store.types@[own.0 as int].long_display@,
            (Err(query), Err(asked)) => same_query(query, asked),
            _ => false,
        },
{
}

/// What a yield contributes: `None` where it is bare, its value, or the element of what it
/// delegates to; without a type nothing can be inferred.
pub proof fn law_types_of_yields(store: &TypeStore, site: YieldSite, given: Result<TypeId, Stop>)
    requires
        call_ensures(yield_site_type, (store, site), given),
    ensures
        match site {
            YieldSite::Bare => given == Ok::<TypeId, Stop>(store.none),
            YieldSite::Yield(Some(ty)) => given == Ok::<TypeId, Stop>(ty),
            YieldSite::YieldFrom(Some(delegate)) => match (
                given,
                store.built(QueryView::ElementOf(delegate)),
            ) {
                (Ok(ty), Ok(element)) => ty == element,
                (Err(Stop::Open(query)), Err(asked)) => same_query(query, asked),
                _ => false,
            },
            _ => given matches Err(Stop::Inapplicable),
        },
{
}

/// What a callee is, and what a call gives, is what is owed for it.
pub proof fn law_callees(
    store: &TypeStore,
    file: FileId,
    node: Node,
    definitions: Vec<ResolvedDefinition>,
)
    ensures
        forall|given: Result<Option<TypeId>, Query>| #[trigger]
            call_ensures(inferred_call_return, (store, &node), given) ==> same_value(
                given,
                callee::call_return(store, node),
            ),
        forall|given: Result<Option<TypeId>, Query>| #[trigger]
            call_ensures(returned_receiver, (store, file, &node, &definitions), given)
                ==> same_value(
                given,
                callee::receiver_return(store, file, node, definitions@),
            ),
        forall|given: Result<Option<TypeId>, Query>| #[trigger]
            call_ensures(callee_type, (store, file, &node, &definitions), given) ==> same_value(
                given,
                callee::callee_form(store, file, node, definitions@),
            ),
        forall|given: Option<&Node>| #[trigger]
            call_ensures(sole_call_binding, (file, &definitions), given) ==> (match given {
                Some(call) => callee::bound_call(file, definitions@) == Some(*call),
                None => callee::bound_call(file, definitions@) is None,
            }),
        forall|ty: TypeId, given: ReceiverClass| #[trigger]
            call_ensures(receiver_class, (store, ty), given) ==> given == callee::receiver_home(
                store,
                ty,
            ),
        forall|given: Result<Option<Vec<CalleeDefinition>>, Query>| #[trigger]
            call_ensures(callee_definitions, (store, file, &node, &definitions), given) ==> (
            match (given, callee::call_definitions(store, file, node, definitions@)) {
                (Ok(Some(found)), Ok(Some(meant))) => found@ == meant,
                (Ok(None), Ok(None)) => true,
                (Err(query), Err(asked)) => same_query(query, asked),
                _ => false,
            }),
{
}

// -- call edges -------------------------------------------------------------------------

/// The calls of a file are all its call nodes, at any depth.
pub proof fn law_calls_of_a_file(body: Vec<Node>, calls: Vec<&Node>, at: int)
    requires
        call_ensures(call_sites, (&body,), calls),
    ensures
        calls@.len() == edges::all_calls(body@, 0).len(),
        0 <= at < calls@.len() ==> *calls@[at] == edges::all_calls(body@, 0)[at],
{
    assert(edges::nodes_of(calls@) == edges::all_calls(body@, 0));
    if 0 <= at < calls@.len() {
        assert(edges::nodes_of(calls@)[at] == *calls@[at]);
    }
}

/// The edge of a call stands at the call itself. It holds the definitions in the root that
/// the call denotes, and those outside of it whose receiver is outside too; a call that
/// denotes neither has no edge.
pub proof fn law_edge_of_a_call(
    store: &TypeStore,
    root: Vec<FileId>,
    file: FileId,
    call: Node,
    definitions: Vec<ResolvedDefinition>,
    given: Result<Option<CallEdge>, Query>,
)
    requires
        call_ensures(call_edge, (store, &root, file, &call, &definitions), given),
    ensures
        match (given, callee::call_definitions(store, file, call, definitions@)) {
            (Ok(None), Ok(None)) => true,
            (Ok(edge), Ok(Some(found))) => leads_to(root@, call.range, found, edge),
            (Err(query), Err(asked)) => same_query(query, asked),
            _ => false,
        },
{
    if let Ok(Some(found)) = callee::call_definitions(store, file, call, definitions@) {
        lemma_leads(root@, found);
    }
}

/// The same, of definitions that are given.
pub proof fn law_edge_of_definitions(
    root: Vec<FileId>,
    call: TextRange,
    found: Option<Vec<CalleeDefinition>>,
    edge: Option<CallEdge>,
)
    requires
        call_ensures(classify, (&root, call, &found), edge),
    ensures
        found is None ==> edge is None,
        found matches Some(found) ==> leads_to(root@, call, found@, edge),
{
    if let Some(found) = found {
        lemma_leads(root@, found@);
    }
}

/// The definition stands in the root.
pub open spec fn at_home(root: Seq<FileId>, found: CalleeDefinition) -> bool {
    root.contains(found.definition.file)
}

/// The definition stands outside of the root, and no class of the root receives the call.
pub open spec fn abroad(root: Seq<FileId>, found: CalleeDefinition) -> bool {
    !root.contains(found.definition.file) && (found.receiver is Unbound || (
    found.receiver is Defined && !root.contains(found.receiver->Defined_0)))
}

/// An edge for a call that denotes some definitions.
pub open spec fn leads_to(
    root: Seq<FileId>,
    call: TextRange,
    found: Seq<CalleeDefinition>,
    edge: Option<CallEdge>,
) -> bool {
    let home = tree::gathered(
        found,
        |d: CalleeDefinition|
            if at_home(root, d) {
                Some(d.definition)
            } else {
                None
            },
    );
    let away = tree::gathered(
        found,
        |d: CalleeDefinition|
            if abroad(root, d) {
                Some(d.definition)
            } else {
                None
            },
    );
    match edge {
        None => home.len() == 0 && away.len() == 0,
        Some(edge) => {
            &&& home.len() > 0 || away.len() > 0
            &&& edge.call == call
            &&& edge.targets@ == home
            &&& edge.external@ == away
        },
    }
}

proof fn lemma_leads(root: Seq<FileId>, found: Seq<CalleeDefinition>)
    ensures
        edges::targets_of(root, found) == tree::gathered(
            found,
            |d: CalleeDefinition|
                if at_home(root, d) {
                    Some(d.definition)
                } else {
                    None
                },
        ),
        edges::external_of(root, found) == tree::gathered(
            found,
            |d: CalleeDefinition|
                if abroad(root, d) {
                    Some(d.definition)
                } else {
                    None
                },
        ),
    decreases found.len(),
{
    reveal(Seq::filter);
    if found.len() > 0 {
        lemma_leads(root, found.drop_last());
        let home = |d: CalleeDefinition| edges::is_target(root, d);
        let away = |d: CalleeDefinition| edges::is_external(root, d);
        let place = |d: CalleeDefinition| d.definition;
        let last = found.last();
        assert(abroad(root, last) == edges::is_external(root, last));
        let before = found.drop_last();
        if home(last) {
            assert(before.filter(home).push(last).map_values(place) =~= before.filter(
                home,
            ).map_values(place).push(last.definition));
        }
        if away(last) {
            assert(before.filter(away).push(last).map_values(place) =~= before.filter(
                away,
            ).map_values(place).push(last.definition));
        }
    } else {
        assert(edges::targets_of(root, found) =~= Seq::<FileRange>::empty());
        assert(edges::external_of(root, found) =~= Seq::<FileRange>::empty());
    }
}

/// The name of a definition is its module, and a dot before each name of its path.
pub proof fn law_names_of_homes(module: &str, path: Vec<String>, given: String)
    requires
        call_ensures(home_name, (module, &path), given),
    ensures
        given@ == edges::dotted(module@, path@),
{
}

// -- displays and entries ---------------------------------------------------------------

/// The texts for the consumer are what is owed for them.
pub proof fn law_texts_for_the_consumer(shown: &str, owners: Vec<SelfOwner>, given: String)
    ensures
        call_ensures(normalize_type_display, (shown,), given) ==> given@ == display::normalized(
            shown@,
        ),
        call_ensures(name_self_typevars, (shown, &owners), given) ==> given@
            == display::class_named(owners@, shown@),
        call_ensures(strip_markup, (shown,), given) ==> outputs::requoted(shown@, given@),
{
}

/// A diagnostic gives the entry, the reveal and the rule that are owed for it.
pub proof fn law_conversions(
    diagnostic: Diagnostic,
    source: &str,
    owners: Vec<SelfOwner>,
    entry: Option<Entry>,
    shown: Option<Reveal>,
    rule: Option<&'static str>,
)
    ensures
        call_ensures(convert, (&diagnostic, source), entry) ==> match (
            entry,
            diagnostics::converted(diagnostic, source@),
        ) {
            (Some(entry), Some(meant)) => same_entry(entry, meant),
            (None, None) => true,
            _ => false,
        },
        call_ensures(reveal_answer, (&diagnostic, &owners), shown) ==> match (
            shown,
            diagnostics::reveal_of(diagnostic, owners@),
        ) {
            (Some(own), Some(meant)) => own.file == meant.file && own.line == meant.line
                && own.text@ == meant.text,
            (None, None) => true,
            _ => false,
        },
        call_ensures(pyright_rule, (&diagnostic.id,), rule) ==> match (
            rule,
            match diagnostic.id {
                DiagnosticId::RevealedType => Some("reveal"@),
                DiagnosticId::Lint(name) => diagnostics::lint_rule(name@),
                DiagnosticId::Other => None,
            },
        ) {
            (Some(rule), Some(meant)) => rule@ == meant,
            (None, None) => true,
            _ => false,
        },
{
}

/// Entries are the same to a world where file, line and rule are; severities go by their
/// names.
pub proof fn law_keys(
    a: Entry,
    b: Entry,
    key: EntryKey,
    other: EntryKey,
    same: bool,
    severity: EntrySeverity,
    name: &'static str,
)
    ensures
        call_ensures(entry_key, (&a,), key) && call_ensures(entry_key, (&b,), other)
            && call_ensures(EntryKey::same, (&key, &other), same) && a.rule is Some && b.rule
            is Some ==> same == (a.file@ == b.file@ && a.start.line == b.start.line
            && a.rule->Some_0@ == b.rule->Some_0@),
        call_ensures(EntrySeverity::name, (severity,), name) ==> name@ == (match severity {
            EntrySeverity::Error => "error"@,
            EntrySeverity::Warning => "warning"@,
            EntrySeverity::Information => "information"@,
        }),
{
}

/// A report holds the entries that are owed, all counted as warnings.
pub proof fn law_reports(
    found: Vec<Diagnostic>,
    sources: Vec<String>,
    report: CheckReport,
)
    requires
        call_ensures(check_report, (&found, &sources), report),
    ensures
        report.version@ == "1.1.412-ty-unnecessary"@,
        same_entries(report.entries@, diagnostics::report_of(found@, sources@)),
        report.warning_count == report.entries@.len(),
        report.error_count == 0,
        report.information_count == 0,
{
    assert(diagnostics::entries_view(report.entries@) == diagnostics::report_of(
        found@,
        sources@,
    ));
    lemma_entries(report.entries@);
}

proof fn lemma_entries(entries: Seq<Entry>)
    ensures
        same_entries(entries, diagnostics::entries_view(entries)),
{
    assert forall|i: int| 0 <= i < entries.len() implies same_entry(
        #[trigger] entries[i],
        diagnostics::entries_view(entries)[i],
    ) by {
        assert(diagnostics::entries_view(entries)[i] == entries[i]@);
    }
}

// -- spans ------------------------------------------------------------------------------

/// A span is asked for in bytes of its line; the answer is the one of the expression that
/// stands at exactly these bytes.
pub proof fn law_types_at_spans(
    store: &TypeStore,
    body: Vec<Node>,
    lines: Lines,
    owners: Vec<SelfOwner>,
    line: usize,
    col_start: usize,
    col_end: usize,
    given: Result<Option<String>, Query>,
)
    requires
        call_ensures(
            span_type,
            (store, &body, &lines, &owners, line, col_start, col_end),
            given,
        ),
    ensures
        same_text(
            given,
            span::span_answer(
                store,
                body@,
                owners@,
                if 1 <= line <= lines.starts@.len() && col_start <= col_end && lines.starts@[line
                    - 1] + col_end <= lines.text_len {
                    Some(
                        TextRange {
                            start: (lines.starts@[line - 1] + col_start) as u32,
                            end: (lines.starts@[line - 1] + col_end) as u32,
                        },
                    )
                } else {
                    None
                },
            ),
        ),
{
}

/// Ranges, places and expressions are those that are owed.
pub proof fn law_places(
    lines: Lines,
    line: usize,
    col_start: usize,
    col_end: usize,
    offset: u32,
    body: Vec<Node>,
    range: TextRange,
)
    ensures
        forall|given: Option<TextRange>| #[trigger]
            call_ensures(span_range, (&lines, line, col_start, col_end), given) ==> given
                == span::range_at(lines, line, col_start, col_end),
        forall|given: Option<BytePlace>| #[trigger]
            call_ensures(byte_place, (&lines, offset), given) ==> given == span::place_at(
                lines,
                offset,
            ),
        forall|given: Option<&Node>| #[trigger]
            call_ensures(find_expression, (&body, range), given) ==> (match given {
                Some(found) => span::expression_at(body@, range) == Some(*found),
                None => span::expression_at(body@, range) is None,
            }),
{
}

// -- command line and configuration -----------------------------------------------------

/// A command line is read from its start, with nothing read before.
pub proof fn law_command_lines(line: Vec<String>, given: Result<Args, ArgsError>)
    requires
        call_ensures(parse_args, (&line,), given),
    ensures
        match (given, args::read_args(line@, 0, args::no_args())) {
            (Ok(read), Ok(meant)) => {
                &&& read.threads == meant.threads
                &&& same_option(read.project_config, meant.project_config)
                &&& same_option(read.python_path, meant.python_path)
                &&& same_option(read.batch, meant.batch)
                &&& read.serve == meant.serve
                &&& same_option(Some(read.root), meant.root)
            },
            (Err(error), Err(meant)) => error == meant,
            _ => false,
        },
{
}

/// The version is shown only where an argument asks for it, and names the commit.
pub proof fn law_versions(line: Vec<String>, commit: &str, shown: String)
    ensures
        call_ensures(wants_version, (&line,), true) ==> exists|i: int|
            0 <= i < line@.len() && (#[trigger] line@[i])@ == "--version"@,
        call_ensures(version_line, (commit,), shown) ==> shown@ == "ty-unnecessary "@ + commit@,
{
}

/// A configuration and its parts.
pub open spec fn same_config(config: PyrightConfig, parts: config::ConfigView) -> bool {
    &&& same_list(config.extra_paths@, parts.extra_paths)
    &&& same_list(config.exclude@, parts.exclude)
    &&& same_option(config.python_path, parts.python_path)
}

/// Texts and their characters, one by one.
pub open spec fn same_list(list: Seq<String>, texts: Seq<Seq<char>>) -> bool {
    list.len() == texts.len() && forall|i: int|
        0 <= i < list.len() ==> (#[trigger] list[i])@ == texts[i]
}

proof fn lemma_list(list: Seq<String>)
    ensures
        same_list(list, text::texts(list)),
{
}

/// A configuration file is read as the document it holds; one that holds none is refused,
/// and without one nothing is configured.
pub proof fn law_configuration_files(
    text: Option<&str>,
    given: Result<PyrightConfig, ConfigError>,
)
    requires
        call_ensures(read_pyright_config, (text,), given),
    ensures
        text is None ==> (given matches Ok(read) && read.extra_paths@.len() == 0
            && read.exclude@.len() == 0 && read.python_path is None),
        text matches Some(text) ==> match (given, config::json_document(text@)) {
            (Ok(read), Some(document)) => same_config(read, config::config_in(document)),
            (Err(_), None) => true,
            _ => false,
        },
{
    if let Ok(read) = given {
        lemma_list(read.extra_paths@);
        lemma_list(read.exclude@);
        assert(read@.extra_paths.len() == read.extra_paths@.len());
        assert(read@.exclude.len() == read.exclude@.len());
    }
}

/// A document is read by its keys.
pub proof fn law_documents(document: serde_json::Value, given: PyrightConfig)
    requires
        call_ensures(config_of, (&document,), given),
    ensures
        same_config(given, config::config_in(config::json_contents(document))),
{
    lemma_list(given.extra_paths@);
    lemma_list(given.exclude@);
}

/// The set-up takes the interpreter of the command line, else the configured one; the
/// configured lists where they hold something; no ignore files; and warnings for all rules
/// that the consumer has a name for.
pub proof fn law_set_ups(
    read: PyrightConfig,
    python_path: Option<String>,
    given: ProjectOptions,
    rule: int,
)
    requires
        call_ensures(project_options, (read, python_path), given),
    ensures
        match (given.python, python_path, read.python_path) {
            (Some(own), Some(path), _) => own@ == path@,
            (Some(own), None, Some(path)) => own@ == path@,
            (None, None, None) => true,
            _ => false,
        },
        given.extra_paths is None <==> read.extra_paths@.len() == 0,
        given.extra_paths matches Some(list) ==> same_list(
            list@,
            text::texts(read.extra_paths@),
        ),
        given.exclude is None <==> read.exclude@.len() == 0,
        given.exclude matches Some(list) ==> same_list(list@, text::texts(read.exclude@)),
        !given.respect_ignore_files,
        0 <= rule < given.warn@.len() ==> diagnostics::lint_rule(given.warn@[rule]@) is Some,
        given.warn@.len() == 5,
{
    assert(read@.extra_paths.len() == read.extra_paths@.len());
    assert(read@.exclude.len() == read.exclude@.len());
    assert(text::texts(given.warn@) == config::enabled_rules());
    assert(config::enabled_rules().len() == given.warn@.len());
    if 0 <= rule < given.warn@.len() {
        assert(text::texts(given.warn@)[rule] == given.warn@[rule]@);
        assert(config::enabled_rules()[rule] == given.warn@[rule]@);
        outputs::law_names_of_rules(given.warn@[rule]@);
    }
    if let Some(list) = given.extra_paths {
        lemma_list(list@);
    }
    if let Some(list) = given.exclude {
        lemma_list(list@);
    }
}

/// The messages of refusals.
pub proof fn law_refusals(
    args_error: ArgsError,
    args_message: &'static str,
    config_error: ConfigError,
    config_message: &'static str,
    request_error: RequestError,
    request_message: String,
)
    ensures
        call_ensures(ArgsError::message, (args_error,), args_message) ==> args_message@
            == args_error.text(),
        call_ensures(ConfigError::message, (&config_error,), config_message) ==> config_message@
            == "project config is not valid JSON"@,
        call_ensures(RequestError::message, (&request_error,), request_message)
            ==> request_message@ == (match request_error {
            RequestError::IncompleteSpan(id) => "query `"@ + id@
                + "` has neither expr nor a complete line/col span"@,
            RequestError::UnresolvedFile(name) =>
                "request names a file the project cannot resolve: `"@ + name@ + "`"@,
        }),
{
}

// -- requests ---------------------------------------------------------------------------

/// A request is refused for its first query that asks nothing, under the id of the query.
pub proof fn law_validation(queries: Vec<BatchQuery>, given: Result<(), RequestError>, at: int)
    requires
        call_ensures(validate, (&queries,), given),
    ensures
        (0 <= at < queries@.len() && protocol::asks_nothing(queries@[at]) && forall|i: int|
            0 <= i < at ==> !protocol::asks_nothing(#[trigger] queries@[i])) ==> (
        given matches Err(RequestError::IncompleteSpan(id)) && id@ == queries@[at].id@),
        (forall|i: int|
            0 <= i < queries@.len() ==> !protocol::asks_nothing(#[trigger] queries@[i]))
            ==> given is Ok,
{
    protocol::law_queries_ask_something(queries@, at);
}

/// The overlay that is found to have no file is the first one.
pub proof fn law_unresolved_overlays(
    worlds: Vec<World>,
    files: Vec<Vec<Option<FileId>>>,
    given: Option<(usize, usize)>,
    w: int,
    o: int,
)
    requires
        call_ensures(find_unresolved, (&worlds, &files), given),
    ensures
        given matches Some((world, overlay)) ==> {
            &&& protocol::missing(worlds@, files@, world as int, overlay as int)
            &&& protocol::missing(worlds@, files@, w, o) ==> world < w || (world == w && overlay
                <= o)
        },
{
    assert(batch::unresolved_at(worlds@, files@, w, o) == protocol::missing(
        worlds@,
        files@,
        w,
        o,
    ));
}

/// The files to reveal in, the texts they get and the sites of the reveals are those that
/// are owed for the queries.
pub proof fn law_plans(
    queries: Vec<BatchQuery>,
    files: Vec<Option<FileId>>,
    sources: Vec<String>,
    listed: Vec<FileId>,
    plan: RevealPlan,
    at: int,
)
    ensures
        call_ensures(files_to_reveal, (&queries, &files), listed) ==> listed@
            == batch::revealing_files(queries@, files@, queries@.len() as int),
        call_ensures(plan_reveals, (&queries, &files, &sources), plan) ==> {
            let meant = batch::reveal_overrides(queries@, files@, sources@);
            &&& plan.overrides@.len() == meant.len()
            &&& 0 <= at < meant.len() ==> plan.overrides@[at].file == meant[at].file
                && plan.overrides@[at].content@ == meant[at].content
            &&& plan.sites@.len() == queries@.len()
            &&& 0 <= at < queries@.len() ==> plan.sites@[at] == batch::site_of(
                queries@,
                files@,
                sources@,
                at,
            )
        },
{
    if call_ensures(plan_reveals, (&queries, &files, &sources), plan) {
        lemma_overrides(plan.overrides@, at);
    }
}

proof fn lemma_overrides(overrides: Seq<Override>, at: int)
    ensures
        batch::overrides_view(overrides).len() == overrides.len(),
        0 <= at < overrides.len() ==> batch::overrides_view(overrides)[at].file
            == overrides[at].file && batch::overrides_view(overrides)[at].content
            == overrides[at].content@,
{
}

/// Reveals are appended to a text, each on a line of its own, and the lines before them are
/// counted.
pub proof fn law_appended(base: &str, exprs: Vec<&String>, given: Appended)
    requires
        call_ensures(append_reveals, (base, &exprs), given),
    ensures
        given.content@ == reveals::with_reveals(
            base@,
            Seq::new(exprs@.len(), |i: int| exprs@[i]@),
        ),
        given.lines_before == reveals::newlines(reveals::with_reveals(base@, Seq::empty())),
{
    assert(exprs@.map_values(|expr: &String| expr@) =~= Seq::new(
        exprs@.len(),
        |i: int| exprs@[i]@,
    ));
    let call = |expr: Seq<char>| reveals::reveal_call(expr);
    assert(Seq::<Seq<char>>::empty().map_values(call) =~= Seq::<Seq<char>>::empty());
    assert(reveals::with_reveals(base@, Seq::empty()) =~= reveals::line_ended(base@));
}

/// A check gives its entries and reveals, and a world what it adds to the base.
pub proof fn law_checks(
    reported: Vec<Reported>,
    base: Vec<Entry>,
    given: BaseCheck,
    added: Vec<Entry>,
    at: int,
)
    ensures
        call_ensures(base_check, (&reported,), given) ==> {
            let meant = batch::reveals_in(reported@, reported@.len() as int);
            &&& same_entries(
                given.entries@,
                batch::entries_in(reported@, reported@.len() as int),
            )
            &&& given.reveals@.len() == meant.len()
            &&& 0 <= at < meant.len() ==> given.reveals@[at].file == meant[at].file
                && given.reveals@[at].line == meant[at].line && given.reveals@[at].text@
                == meant[at].text
        },
        call_ensures(added_diagnostics, (&base, &reported), added) ==> same_entries(
            added@,
            batch::added_in(
                Seq::new(base@.len(), |i: int| base@[i]@),
                reported@,
                reported@.len() as int,
            ),
        ),
{
    lemma_entries(given.entries@);
    lemma_entries(added@);
    if call_ensures(base_check, (&reported,), given) {
        assert(batch::reveals_view(given.reveals@) == batch::reveals_in(
            reported@,
            reported@.len() as int,
        ));
        if 0 <= at < given.reveals@.len() {
            assert(batch::reveals_view(given.reveals@)[at] == given.reveals@[at]@);
        }
    }
    assert(diagnostics::entries_view(base@) =~= Seq::new(base@.len(), |i: int| base@[i]@));
}

/// An answer and what it says.
pub open spec fn same_answer(answer: Answer, meant: AnswerView) -> bool {
    match (answer, meant) {
        (Answer::Type(text), AnswerView::Type(chars)) => text@ == chars,
        (Answer::Miss, AnswerView::Miss) => true,
        (Answer::Error(text), AnswerView::Error(chars)) => text@ == chars,
        _ => false,
    }
}

/// A query is answered by what is known of its file, its site and its span.
pub proof fn law_answers_to_queries(
    query: BatchQuery,
    file: Option<FileId>,
    site: Option<Site>,
    shown: Vec<Reveal>,
    spanned: Option<String>,
    given: Answer,
)
    requires
        call_ensures(answer_query, (&query, file, site, &shown, &spanned), given),
    ensures
        file is None ==> same_answer(
            given,
            AnswerView::Error(
                "request names a file the project cannot resolve: `"@ + query.file@ + "`"@,
            ),
        ),
        file is Some && query.expr is None ==> match spanned {
            Some(spanned) => same_answer(given, AnswerView::Type(spanned@)),
            None => given is Miss,
        },
        file is Some && query.expr is Some ==> match batch::revealed_at(
            Seq::new(shown@.len(), |i: int| shown@[i]@),
            site,
            shown@.len() as int,
        ) {
            Some(revealed) => same_answer(given, AnswerView::Type(revealed)),
            None => given is Miss,
        },
{
    assert(batch::reveals_view(shown@) =~= Seq::new(shown@.len(), |i: int| shown@[i]@));
}

// -- runs -------------------------------------------------------------------------------

/// A run starts where its request asks something in every query, and takes each reply as it
/// is owed.
pub proof fn law_runs(
    request: Request,
    started: Result<BatchRun, RequestError>,
    run: BatchRun,
    event: Event,
    next: Result<BatchRun, RequestError>,
)
    ensures
        call_ensures(BatchRun::start, (request,), started) ==> match (
            started,
            batch::first_incomplete(request.queries@, 0),
        ) {
            (Ok(run), None) => run@ == session::started(request),
            (Err(RequestError::IncompleteSpan(id)), Some(at)) => id@ == request.queries@[at].id@,
            _ => false,
        },
        call_ensures(BatchRun::advance, (run, event), next) ==> match (
            next,
            session::stepped(run@, event),
        ) {
            (Ok(next), Ok(meant)) => next@ == meant,
            (Err(RequestError::UnresolvedFile(name)), Err(RequestErrorView::UnresolvedFile(file)))
                => name@ == file,
            (Err(RequestError::IncompleteSpan(id)), Err(RequestErrorView::IncompleteSpan(own))) =>
                id@ == own,
            _ => false,
        },
{
}

/// A run asks for what is owed at its stage, under the overrides that are owed.
pub proof fn law_actions(run: BatchRun, action: Action, overrides: Vec<Override>, at: int)
    ensures
        call_ensures(BatchRun::action, (&run,), action) ==> session::does(run@, action),
        call_ensures(BatchRun::overrides, (&run,), overrides) ==> {
            let meant = session::in_force(run@);
            &&& overrides@.len() == meant.len()
            &&& 0 <= at < meant.len() ==> overrides@[at].file == meant[at].file
                && overrides@[at].content@ == meant[at].content
        },
{
    lemma_overrides(overrides@, at);
}

/// A world's result and its parts.
pub open spec fn same_world(world: WorldResult, parts: session::WorldView) -> bool {
    world.id@ == parts.id && same_entries(world.added@, parts.added)
}

/// The response of a run holds what is owed, part by part.
pub proof fn law_response_of_a_run(run: BatchRun, given: Option<Response>, at: int)
    requires
        call_ensures(BatchRun::respond, (run,), given),
    ensures
        match (given, session::responded(run@)) {
            (Some(response), Some(meant)) => {
                &&& response.version@ == meant.version
                &&& same_entries(response.diagnostics@, meant.diagnostics)
                &&& response.answers@.len() == meant.answers.len()
                &&& 0 <= at < meant.answers.len() ==> response.answers@[at].id@
                    == meant.answers[at].id && same_answer(
                    response.answers@[at].answer,
                    meant.answers[at].answer,
                )
                &&& response.worlds@.len() == meant.worlds.len()
                &&& 0 <= at < meant.worlds.len() ==> same_world(
                    response.worlds@[at],
                    meant.worlds[at],
                )
                &&& response.call_edges@ == meant.call_edges
            },
            (None, None) => true,
            _ => false,
        },
{
    if let Some(response) = given {
        lemma_entries(response.diagnostics@);
        if 0 <= at < response.answers@.len() {
            assert(session::answers_view(response.answers@)[at] == response.answers@[at]@);
        }
        if 0 <= at < response.worlds@.len() {
            assert(session::worlds_view(response.worlds@)[at] == response.worlds@[at]@);
            lemma_entries(response.worlds@[at].added@);
        }
    }
}

/// The changes take the texts of all files of before away, and then give those that are
/// wanted.
pub proof fn law_changes(
    current: Vec<FileId>,
    wanted: Vec<Override>,
    given: Vec<Change>,
    at: int,
)
    requires
        call_ensures(override_changes, (&current, &wanted), given),
    ensures
        given@.len() == current@.len() + wanted@.len(),
        0 <= at < current@.len() ==> given@[at].file == current@[at] && given@[at].content is None,
        0 <= at < wanted@.len() ==> {
            let change = given@[current@.len() + at];
            change.file == wanted@[at].file && same_option(
                change.content,
                Some(wanted@[at].content@),
            )
        },
{
    let views = session::changes_view(given@);
    assert(views == session::changes_for(current@, batch::overrides_view(wanted@)));
    assert(views.len() == given@.len());
    if 0 <= at < current@.len() {
        assert(views[at] == given@[at]@);
    }
    if 0 <= at < wanted@.len() {
        lemma_overrides(wanted@, at);
        assert(views[current@.len() + at] == given@[current@.len() + at]@);
    }
}

} // verus!
