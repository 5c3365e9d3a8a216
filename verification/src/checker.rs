//! The pass over a syntax tree that reports tests whose result is statically known.
//!
//! The pass runs in source order over inferred types. Where it needs a type that only the
//! type checker can build it stops with the open [`Query`]; the caller records the answer
//! in the store and runs the pass again.

use vstd::prelude::*;
use vstd::string::*;

use crate::syntax::{CmpOp, Node, NodeKind, TextRange};
use crate::text::same_text;
use crate::types;
use crate::types::{ClassInfoFunction, KnownClass, Query, QueryView, TypeId, TypeKind, TypeStore};
use crate::unnecessary;
use crate::unnecessary::{
    container_element_type, expand_subtypes, is_dynamic, is_function_or_overloaded, is_literal,
    is_literal_type_or_union, is_never, is_none, is_type_comparable,
    replace_enum_with_literal_value, types_overlap, union_elements,
};

verus! {

// -- findings ---------------------------------------------------------------------------

/// The three rules.
#[derive(Clone, Copy, PartialEq, Eq, Structural, Debug)]
pub enum Lint {
    /// `isinstance`/`issubclass` calls whose result is statically known.
    UnnecessaryIsinstance,
    /// Comparisons whose operand types have no overlap.
    UnnecessaryComparison,
    /// `in`/`not in` tests that can never succeed.
    UnnecessaryContains,
}

impl Lint {
    pub open spec fn text(self) -> Seq<char> {
        match self {
            Lint::UnnecessaryIsinstance => "unnecessary-isinstance"@,
            Lint::UnnecessaryComparison => "unnecessary-comparison"@,
            Lint::UnnecessaryContains => "unnecessary-contains"@,
        }
    }

    /// The name of the rule.
    pub fn name(self) -> (name: &'static str)
        ensures
            name@ == self.text(),
    {
        match self {
            Lint::UnnecessaryIsinstance => "unnecessary-isinstance",
            Lint::UnnecessaryComparison => "unnecessary-comparison",
            Lint::UnnecessaryContains => "unnecessary-contains",
        }
    }
}

/// Which of the rules are enabled; all are off by default.
#[derive(Clone, Copy, PartialEq, Eq, Structural, Debug)]
pub struct RuleSelection {
    pub isinstance: bool,
    pub comparison: bool,
    pub contains: bool,
}

/// A report of one of the rules.
#[derive(Debug)]
pub struct Finding {
    pub lint: Lint,
    pub range: TextRange,
    pub message: String,
}

/// A finding by value.
pub struct FindingView {
    pub lint: Lint,
    pub range: TextRange,
    pub message: Seq<char>,
}

impl View for Finding {
    type V = FindingView;

    open spec fn view(&self) -> FindingView {
        FindingView { lint: self.lint, range: self.range, message: self.message@ }
    }
}

/// The findings by value.
pub open spec fn views(findings: Seq<Finding>) -> Seq<FindingView> {
    findings.map_values(|finding: Finding| finding@)
}

impl RuleSelection {
    pub open spec fn has(self, lint: Lint) -> bool {
        match lint {
            Lint::UnnecessaryIsinstance => self.isinstance,
            Lint::UnnecessaryComparison => self.comparison,
            Lint::UnnecessaryContains => self.contains,
        }
    }

    pub fn enabled(self, lint: Lint) -> (enabled: bool)
        ensures
            enabled == self.has(lint),
    {
        match lint {
            Lint::UnnecessaryIsinstance => self.isinstance,
            Lint::UnnecessaryComparison => self.comparison,
            Lint::UnnecessaryContains => self.contains,
        }
    }
}

/// A report, if its rule is enabled.
pub open spec fn reported(
    selection: RuleSelection,
    lint: Lint,
    range: TextRange,
    message: Option<Seq<char>>,
) -> Seq<FindingView> {
    match message {
        Some(message) if selection.has(lint) => seq![FindingView { lint, range, message }],
        _ => Seq::empty(),
    }
}

fn report(
    selection: RuleSelection,
    lint: Lint,
    range: TextRange,
    message: String,
    out: &mut Vec<Finding>,
)
    ensures
        views(final(out)@) == views(old(out)@) + reported(selection, lint, range, Some(message@)),
{
    if selection.enabled(lint) {
        out.push(Finding { lint, range, message });
    }
}

// -- conditions -------------------------------------------------------------------------

/// Every subtype is a function.
pub open spec fn always_function(store: &TypeStore, ty: TypeId) -> bool {
    forall|i: int|
        0 <= i < unnecessary::subtypes(store, ty).len() ==> unnecessary::function_or_overloaded(
            store.kind_of(#[trigger] unnecessary::subtypes(store, ty)[i]),
        )
}

pub open spec fn coroutine(store: &TypeStore, ty: TypeId) -> bool {
    match unnecessary::nominal_class(store, ty) {
        Some(class) => store.known_of(class) == KnownClass::CoroutineType,
        None => false,
    }
}

/// Every subtype is a coroutine object.
pub open spec fn always_coroutine(store: &TypeStore, ty: TypeId) -> bool {
    forall|i: int|
        0 <= i < unnecessary::subtypes(store, ty).len() ==> coroutine(
            store,
            #[trigger] unnecessary::subtypes(store, ty)[i],
        )
}

/// The message for a condition of type `ty`, if it is always truthy.
pub open spec fn condition_message(store: &TypeStore, ty: TypeId) -> Option<Seq<char>> {
    if unnecessary::never(store, ty) {
        None
    } else if always_function(store, ty) {
        Some("Conditional expression references function which always evaluates to True"@)
    } else if always_coroutine(store, ty) {
        Some("Conditional expression references coroutine which always evaluates to True"@)
    } else {
        None
    }
}

/// The type of the leaf of a condition: the one inferred in the condition's own region,
/// else the one inferred in the scope.
pub open spec fn leaf_type(leaf: Node) -> Option<TypeId> {
    match leaf.region_ty {
        Some(ty) => Some(ty),
        None => leaf.ty,
    }
}

/// The findings on a condition: `and`, `or` and `not` are looked through.
pub open spec fn condition_findings(
    store: &TypeStore,
    selection: RuleSelection,
    test: Node,
) -> Seq<FindingView>
    decreases test, 0nat,
{
    if test.kind is BoolOp || test.kind is Not {
        conditions_findings(store, selection, test.children@, 0)
    } else {
        match leaf_type(test) {
            Some(ty) => reported(
                selection,
                Lint::UnnecessaryComparison,
                test.range,
                condition_message(store, ty),
            ),
            None => Seq::empty(),
        }
    }
}

/// The findings on the conditions from position `from` on.
pub open spec fn conditions_findings(
    store: &TypeStore,
    selection: RuleSelection,
    tests: Seq<Node>,
    from: int,
) -> Seq<FindingView>
    decreases tests, tests.len() - from,
    when 0 <= from
{
    if from >= tests.len() {
        Seq::empty()
    } else {
        condition_findings(store, selection, tests[from]) + conditions_findings(
            store,
            selection,
            tests,
            from + 1,
        )
    }
}

/// The type of a leaf of a condition. The types of a condition's own region come first:
/// in the scope an always-truthy `f` is narrowed to `Never` on the false branch.
pub fn condition_leaf_type(leaf: &Node) -> (ty: Option<TypeId>)
    ensures
        ty == leaf_type(*leaf),
{
    match leaf.region_ty {
        Some(ty) => Some(ty),
        None => leaf.ty,
    }
}

fn condition_text(store: &TypeStore, ty: TypeId) -> (message: Option<String>)
    ensures
        match message {
            Some(message) => condition_message(store, ty) == Some(message@),
            None => condition_message(store, ty) is None,
        },
{
    if is_never(store, ty) {
        return None;
    }
    let subtypes = expand_subtypes(store, ty);
    let mut function = true;
    let mut coroutines = true;
    let mut i: usize = 0;
    while i < subtypes.len()
        invariant
            i <= subtypes@.len(),
            subtypes@ == unnecessary::subtypes(store, ty),
            function == forall|j: int|
                0 <= j < i ==> unnecessary::function_or_overloaded(
                    store.kind_of(#[trigger] subtypes@[j]),
                ),
            coroutines == forall|j: int| 0 <= j < i ==> coroutine(store, #[trigger] subtypes@[j]),
        decreases subtypes@.len() - i,
    {
        let sub = subtypes[i];
        if !is_function_or_overloaded(store, sub) {
            function = false;
        }
        let is_coroutine = match store.kind(sub) {
            TypeKind::NominalInstance(instance) => store.known(instance.class)
                == KnownClass::CoroutineType,
            _ => false,
        };
        if !is_coroutine {
            coroutines = false;
        }
        assert(sub == subtypes@[i as int]);
        i += 1;
    }
    if function {
        Some(
            "Conditional expression references function which always evaluates to True".to_string(),
        )
    } else if coroutines {
        Some(
            "Conditional expression references coroutine which always evaluates to True".to_string(),
        )
    } else {
        None
    }
}

/// An `if` / `while` / ternary / comprehension-`if` condition that references a function
/// or coroutine object is always truthy. Looks through `and` / `or` / `not`.
pub fn check_condition(
    store: &TypeStore,
    selection: RuleSelection,
    test: &Node,
    out: &mut Vec<Finding>,
)
    ensures
        views(final(out)@) == views(old(out)@) + condition_findings(store, selection, *test),
    decreases *test,
{
    if matches!(test.kind, NodeKind::BoolOp | NodeKind::Not) {
        let mut i: usize = 0;
        while i < test.children.len()
            invariant
                i <= test.children@.len(),
                views(out@) + conditions_findings(store, selection, test.children@, i as int)
                    == views(old(out)@) + conditions_findings(store, selection, test.children@, 0),
            decreases test.children@.len() - i,
        {
            check_condition(store, selection, &test.children[i], out);
            i += 1;
        }
    } else if let Some(ty) = condition_leaf_type(test) {
        if let Some(message) = condition_text(store, ty) {
            report(selection, Lint::UnnecessaryComparison, test.range, message, out);
        }
    }
}

// -- comparisons ------------------------------------------------------------------------

/// `module.attr`, where `module` is a bare name.
pub open spec fn module_attr(expr: Node, module: Seq<char>, attr: Seq<char>) -> bool {
    &&& expr.kind matches NodeKind::Attribute(name) && name@ == attr
    &&& expr.children@.len() > 0
    &&& expr.children@[0].kind matches NodeKind::Name(name) && name@ == module
}

/// A platform or version condition that is evaluated statically: `sys.version_info`,
/// `sys.version_info[...]`, `sys.platform` or `os.name` compared with a literal.
pub open spec fn static_condition(left: Node, right: Node) -> bool {
    ||| module_attr(left, "sys"@, "version_info"@) && right.kind is Tuple
    ||| left.kind is Subscript && left.children@.len() > 0 && module_attr(
        left.children@[0],
        "sys"@,
        "version_info"@,
    ) && right.kind is NumberLiteral
    ||| module_attr(left, "sys"@, "platform"@) && right.kind is StringLiteral
    ||| module_attr(left, "os"@, "name"@) && right.kind is StringLiteral
}

/// Some element of one type is assignable to the other type.
pub open spec fn possibly_equal(store: &TypeStore, left: TypeId, right: TypeId) -> bool {
    ||| exists|i: int|
        0 <= i < unnecessary::elements_of(store, left).len() && store.assignable(
            #[trigger] unnecessary::elements_of(store, left)[i],
            right,
        )
    ||| exists|i: int|
        0 <= i < unnecessary::elements_of(store, right).len() && store.assignable(
            #[trigger] unnecessary::elements_of(store, right)[i],
            left,
        )
}

/// Whether comparing operands of these types (enum values replaced) has a known result.
/// Literals are compared by assignability, unless the condition is a static one.
pub open spec fn no_overlap(
    store: &TypeStore,
    left: TypeId,
    right: TypeId,
    is_operator: bool,
    static_test: bool,
) -> bool {
    if unnecessary::literal_union(store, left) && unnecessary::literal_union(store, right) {
        !static_test && !possibly_equal(store, left, right)
    } else {
        !unnecessary::overlapping(store, left, right, is_operator)
    }
}

/// The text of a truth value.
pub open spec fn truth(value: bool) -> Seq<char> {
    if value {
        "True"@
    } else {
        "False"@
    }
}

/// The message of the comparison and the containment rule.
pub open spec fn overlap_message(
    subject: Seq<char>,
    value: bool,
    left: Seq<char>,
    right: Seq<char>,
) -> Seq<char> {
    subject + " will always evaluate to "@ + truth(value) + " since the types \""@ + left
        + "\" and \""@ + right + "\" have no overlap"@
}

/// The finding on one pair of compared operands.
pub open spec fn comparison_message(
    store: &TypeStore,
    left: Node,
    op: CmpOp,
    right: Node,
) -> Result<Option<Seq<char>>, QueryView> {
    match (left.ty, right.ty) {
        (Some(l), Some(r)) => if store.kind_of(l) is ModuleLiteral || store.kind_of(
            r,
        ) is ModuleLiteral {
            Ok(None)
        } else {
            match (unnecessary::operand_form(store, l), unnecessary::operand_form(store, r)) {
                (Err(query), _) => Err(query),
                (Ok(_), Err(query)) => Err(query),
                (Ok(a), Ok(b)) => Ok(
                    if no_overlap(
                        store,
                        a,
                        b,
                        op == CmpOp::Is || op == CmpOp::IsNot,
                        static_condition(left, right),
                    ) {
                        Some(
                            overlap_message(
                                "Condition"@,
                                !(op == CmpOp::Eq || op == CmpOp::Is),
                                types::display_of(store, a),
                                types::display_of(store, b),
                            ),
                        )
                    } else {
                        None
                    },
                ),
            }
        },
        _ => Ok(None),
    }
}

fn is_module_attr(expr: &Node, module: &str, attr: &str) -> (answer: bool)
    ensures
        answer == module_attr(*expr, module@, attr@),
{
    match &expr.kind {
        NodeKind::Attribute(name) => {
            if !same_text(name.as_str(), attr) || expr.children.len() == 0 {
                return false;
            }
            match &expr.children[0].kind {
                NodeKind::Name(name) => same_text(name.as_str(), module),
                _ => false,
            }
        },
        _ => false,
    }
}

/// Is this one of the statically evaluated platform and version conditions?
pub fn is_static_platform_or_version_condition(left: &Node, right: &Node) -> (answer: bool)
    ensures
        answer == static_condition(*left, *right),
{
    if is_module_attr(left, "sys", "version_info") && matches!(right.kind, NodeKind::Tuple) {
        return true;
    }
    if matches!(left.kind, NodeKind::Subscript) && left.children.len() > 0 && is_module_attr(
        &left.children[0],
        "sys",
        "version_info",
    ) && matches!(right.kind, NodeKind::NumberLiteral) {
        return true;
    }
    if is_module_attr(left, "sys", "platform") && matches!(right.kind, NodeKind::StringLiteral) {
        return true;
    }
    is_module_attr(left, "os", "name") && matches!(right.kind, NodeKind::StringLiteral)
}

fn any_element_assignable(store: &TypeStore, source: TypeId, target: TypeId) -> (answer: bool)
    ensures
        answer == exists|i: int|
            0 <= i < unnecessary::elements_of(store, source).len() && store.assignable(
                #[trigger] unnecessary::elements_of(store, source)[i],
                target,
            ),
{
    let elements = union_elements(store, source);
    let mut i: usize = 0;
    while i < elements.len()
        invariant
            i <= elements@.len(),
            elements@ == unnecessary::elements_of(store, source),
            forall|j: int| 0 <= j < i ==> !store.assignable(#[trigger] elements@[j], target),
        decreases elements@.len() - i,
    {
        if store.is_assignable_to(elements[i], target) {
            assert(store.assignable(
                unnecessary::elements_of(store, source)[i as int],
                target,
            ));
            return true;
        }
        i += 1;
    }
    false
}

fn overlap_text(subject: &str, value: bool, left: &str, right: &str) -> (message: String)
    ensures
        message@ == overlap_message(subject@, value, left@, right@),
{
    let mut message = String::from_str(subject);
    message.append(" will always evaluate to ");
    message.append(
        if value {
            "True"
        } else {
            "False"
        },
    );
    message.append(" since the types \"");
    message.append(left);
    message.append("\" and \"");
    message.append(right);
    message.append("\" have no overlap");
    message
}

/// `==` / `!=` / `is` / `is not` on operands whose types have no overlap.
pub fn check_comparison_pair(store: &TypeStore, left: &Node, op: CmpOp, right: &Node) -> (message:
    Result<Option<String>, Query>)
    requires
        store.wf(),
    ensures
        message_view(message) == comparison_message(store, *left, op, *right),
{
    let (Some(left_ty), Some(right_ty)) = (left.ty, right.ty) else {
        return Ok(None);
    };
    // comparisons that involve modules are skipped entirely
    if matches!(store.kind(left_ty), TypeKind::ModuleLiteral(_)) || matches!(
        store.kind(right_ty),
        TypeKind::ModuleLiteral(_)
    ) {
        return Ok(None);
    }
    let a = match replace_enum_with_literal_value(store, left_ty) {
        Ok(ty) => ty,
        Err(query) => {
            return Err(query);
        },
    };
    let b = match replace_enum_with_literal_value(store, right_ty) {
        Ok(ty) => ty,
        Err(query) => {
            return Err(query);
        },
    };
    let is_operator = matches!(op, CmpOp::Is | CmpOp::IsNot);
    let report = if is_literal_type_or_union(store, a) && is_literal_type_or_union(store, b) {
        !is_static_platform_or_version_condition(left, right) && !(any_element_assignable(
            store,
            a,
            b,
        ) || any_element_assignable(store, b, a))
    } else {
        !types_overlap(store, a, b, is_operator)
    };
    if !report {
        return Ok(None);
    }
    let always_false = matches!(op, CmpOp::Eq | CmpOp::Is);
    Ok(Some(overlap_text("Condition", !always_false, store.display(a), store.display(b))))
}

/// A message, by value.
pub open spec fn message_view(message: Result<Option<String>, Query>) -> Result<
    Option<Seq<char>>,
    QueryView,
> {
    match message {
        Ok(Some(text)) => Ok(Some(text@)),
        Ok(None) => Ok(None),
        Err(query) => Err(query@),
    }
}

// -- containment ------------------------------------------------------------------------

/// A value of type `reference` may be an element of type `element`.
pub open spec fn may_contain(store: &TypeStore, element: TypeId, reference: TypeId) -> bool {
    ||| unnecessary::dynamic(store, element)
    ||| unnecessary::comparable(store, element, reference, false, false)
    ||| (unnecessary::literal(store, element) || unnecessary::is_none_type(store, element)
        || store.kind_of(element) is ClassLiteral || store.kind_of(element) is GenericAlias)
        && store.assignable(element, reference)
    ||| (unnecessary::literal(store, reference) || unnecessary::is_none_type(store, reference))
        && store.assignable(reference, element)
}

/// A value of type `reference` may be in a container of elements of type `element`.
pub open spec fn survives(store: &TypeStore, element: TypeId, reference: TypeId) -> bool {
    exists|i: int|
        0 <= i < unnecessary::elements_of(store, element).len() && may_contain(
            store,
            #[trigger] unnecessary::elements_of(store, element)[i],
            reference,
        )
}

/// No subtype of `left` may be in the container.
pub open spec fn never_contained(store: &TypeStore, left: TypeId, element: TypeId) -> bool {
    forall|i: int|
        0 <= i < unnecessary::subtypes(store, left).len() ==> !survives(
            store,
            element,
            #[trigger] unnecessary::subtypes(store, left)[i],
        )
}

/// The finding on one containment test.
pub open spec fn contains_message(
    store: &TypeStore,
    op: CmpOp,
    left: Node,
    right: Node,
) -> Result<Option<Seq<char>>, QueryView> {
    match (left.ty, right.ty) {
        (Some(l), Some(r)) => if unnecessary::never(store, l) || unnecessary::never(store, r) {
            Ok(None)
        } else {
            match unnecessary::element_form(store, r) {
                Err(query) => Err(query),
                Ok(None) => Ok(None),
                Ok(Some(element)) => Ok(
                    if never_contained(store, l, element) {
                        Some(
                            overlap_message(
                                "Expression"@,
                                op != CmpOp::In,
                                types::display_of(store, l),
                                types::display_of(store, element),
                            ),
                        )
                    } else {
                        None
                    },
                ),
            }
        },
        _ => Ok(None),
    }
}

fn element_may_contain(store: &TypeStore, element: TypeId, reference: TypeId) -> (answer: bool)
    requires
        store.wf(),
    ensures
        answer == may_contain(store, element, reference),
{
    if is_dynamic(store, element) {
        return true;
    }
    if is_type_comparable(store, element, reference, false) {
        return true;
    }
    let element_is_literal_like = is_literal(store, element) || is_none(store, element) || matches!(
        store.kind(element),
        TypeKind::ClassLiteral(_) | TypeKind::GenericAlias(_)
    );
    if element_is_literal_like && store.is_assignable_to(element, reference) {
        return true;
    }
    let reference_is_literal_like = is_literal(store, reference) || is_none(store, reference);
    reference_is_literal_like && store.is_assignable_to(reference, element)
}

fn reference_survives(store: &TypeStore, element: TypeId, reference: TypeId) -> (answer: bool)
    requires
        store.wf(),
    ensures
        answer == survives(store, element, reference),
{
    let elements = union_elements(store, element);
    let mut i: usize = 0;
    while i < elements.len()
        invariant
            i <= elements@.len(),
            store.wf(),
            elements@ == unnecessary::elements_of(store, element),
            forall|j: int| 0 <= j < i ==> !may_contain(store, #[trigger] elements@[j], reference),
        decreases elements@.len() - i,
    {
        if element_may_contain(store, elements[i], reference) {
            assert(may_contain(
                store,
                unnecessary::elements_of(store, element)[i as int],
                reference,
            ));
            return true;
        }
        i += 1;
    }
    false
}

/// `in` / `not in` on a standard container whose element type can never match.
pub fn check_contains_pair(store: &TypeStore, op: CmpOp, left: &Node, right: &Node) -> (message:
    Result<Option<String>, Query>)
    requires
        store.wf(),
    ensures
        message_view(message) == contains_message(store, op, *left, *right),
{
    let (Some(left_ty), Some(container_ty)) = (left.ty, right.ty) else {
        return Ok(None);
    };
    if is_never(store, left_ty) || is_never(store, container_ty) {
        return Ok(None);
    }
    let element = match container_element_type(store, container_ty) {
        Ok(Some(element)) => element,
        Ok(None) => {
            return Ok(None);
        },
        Err(query) => {
            return Err(query);
        },
    };
    let references = expand_subtypes(store, left_ty);
    let mut i: usize = 0;
    while i < references.len()
        invariant
            i <= references@.len(),
            store.wf(),
            left.ty == Some(left_ty),
            right.ty == Some(container_ty),
            !unnecessary::never(store, left_ty),
            !unnecessary::never(store, container_ty),
            unnecessary::element_form(store, container_ty) == Ok::<_, QueryView>(Some(element)),
            references@ == unnecessary::subtypes(store, left_ty),
            forall|j: int| 0 <= j < i ==> !survives(store, element, #[trigger] references@[j]),
        decreases references@.len() - i,
    {
        if reference_survives(store, element, references[i]) {
            assert(survives(
                store,
                element,
                unnecessary::subtypes(store, left_ty)[i as int],
            ));
            return Ok(None);
        }
        i += 1;
    }
    let value = !matches!(op, CmpOp::In);
    Ok(Some(overlap_text("Expression", value, store.display(left_ty), store.display(element))))
}

// -- isinstance and issubclass ----------------------------------------------------------

/// A call of the bare name `isinstance` or `issubclass` with two positional arguments.
pub open spec fn class_check(call: Node) -> Option<ClassInfoFunction> {
    match call.kind {
        NodeKind::Call { keywords } => if keywords == 0 && call.children@.len() == 3 {
            match call.children@[0].kind {
                NodeKind::Name(name) => if name@ == "isinstance"@ {
                    Some(ClassInfoFunction::IsInstance)
                } else if name@ == "issubclass"@ {
                    Some(ClassInfoFunction::IsSubclass)
                } else {
                    None
                },
                _ => None,
            }
        } else {
            None
        },
        _ => None,
    }
}

/// What a class check narrows its subject to.
pub struct Narrowing {
    /// The type that the check narrows by.
    pub constraint: TypeId,
    /// The subject where the check succeeds.
    pub positive: TypeId,
    /// The subject where the check fails.
    pub negative: TypeId,
}

/// The subject of a class check, narrowed by it in both polarities. `None` where the
/// classinfo argument yields no constraint.
pub open spec fn narrowed(
    store: &TypeStore,
    function: ClassInfoFunction,
    subject: TypeId,
    classinfo: TypeId,
) -> Result<Option<Narrowing>, QueryView> {
    let filtering = !store.strict_generic_narrowing;
    match store.asked(
        QueryView::Constraint { function, classinfo, positive: true, generic_filtering: filtering },
    ) {
        Err(query) => Err(query),
        Ok(None) => Ok(None),
        Ok(Some(constraint)) => match store.asked(
            QueryView::Constraint {
                function,
                classinfo,
                positive: false,
                generic_filtering: false,
            },
        ) {
            Err(query) => Err(query),
            Ok(None) => Ok(None),
            Ok(Some(excluded)) => match store.built(
                if filtering {
                    QueryView::FilterGeneric { subject, constraint }
                } else {
                    QueryView::Intersection { left: subject, right: constraint }
                },
            ) {
                Err(query) => Err(query),
                Ok(positive) => match store.built(QueryView::Negation(excluded)) {
                    Err(query) => Err(query),
                    Ok(rest) => match store.built(
                        QueryView::Intersection { left: subject, right: rest },
                    ) {
                        Err(query) => Err(query),
                        Ok(negative) => Ok(Some(Narrowing { constraint, positive, negative })),
                    },
                },
            },
        },
    }
}

/// The type that a class check is reported against: the instance form of its classinfo.
pub open spec fn reported_class(
    store: &TypeStore,
    classinfo: TypeId,
    constraint: TypeId,
) -> Result<TypeId, QueryView> {
    match store.asked(
        QueryView::Constraint {
            function: ClassInfoFunction::IsInstance,
            classinfo,
            positive: true,
            generic_filtering: true,
        },
    ) {
        Err(query) => Err(query),
        Ok(Some(class)) => Ok(class),
        Ok(None) => Ok(constraint),
    }
}

/// The message of the class-check rule.
pub open spec fn class_check_message(
    function: ClassInfoFunction,
    always: bool,
    subject: Seq<char>,
    class: Seq<char>,
) -> Seq<char> {
    (match function {
        ClassInfoFunction::IsInstance => "Unnecessary isinstance call; \""@,
        ClassInfoFunction::IsSubclass => "Unnecessary issubclass call; \""@,
    }) + subject + (if always {
        "\" is always "@
    } else {
        "\" is never "@
    }) + (match function {
        ClassInfoFunction::IsInstance => "an instance of \""@,
        ClassInfoFunction::IsSubclass => "a subclass of \""@,
    }) + class + "\""@
}

/// The finding on one call: reported when either narrowing is `Never`.
pub open spec fn isinstance_message(store: &TypeStore, call: Node) -> Result<
    Option<Seq<char>>,
    QueryView,
> {
    match class_check(call) {
        None => Ok(None),
        Some(function) => match (call.children@[1].ty, call.children@[2].ty) {
            (Some(subject), Some(classinfo)) => match narrowed(
                store,
                function,
                subject,
                classinfo,
            ) {
                Err(query) => Err(query),
                Ok(None) => Ok(None),
                Ok(Some(n)) => {
                    let always = unnecessary::never(store, n.negative);
                    let never = unnecessary::never(store, n.positive);
                    if !always && !never {
                        Ok(None)
                    } else {
                        match reported_class(store, classinfo, n.constraint) {
                            Err(query) => Err(query),
                            Ok(class) => Ok(
                                Some(
                                    class_check_message(
                                        function,
                                        always,
                                        types::display_of(store, subject),
                                        types::display_of(store, class),
                                    ),
                                ),
                            ),
                        }
                    }
                },
            },
            _ => Ok(None),
        },
    }
}

fn as_class_check(call: &Node) -> (function: Option<ClassInfoFunction>)
    ensures
        function == class_check(*call),
{
    let NodeKind::Call { keywords } = &call.kind else {
        return None;
    };
    if *keywords != 0 || call.children.len() != 3 {
        return None;
    }
    match &call.children[0].kind {
        NodeKind::Name(name) => if same_text(name.as_str(), "isinstance") {
            Some(ClassInfoFunction::IsInstance)
        } else if same_text(name.as_str(), "issubclass") {
            Some(ClassInfoFunction::IsSubclass)
        } else {
            None
        },
        _ => None,
    }
}

fn narrow(
    store: &TypeStore,
    function: ClassInfoFunction,
    subject: TypeId,
    classinfo: TypeId,
) -> (narrowing: Result<Option<Narrowing>, Query>)
    ensures
        types::outcome(narrowing) == narrowed(store, function, subject, classinfo),
{
    let filtering = !store.strict_generic_narrowing;
    let constraint = match store.ask(
        Query::Constraint { function, classinfo, positive: true, generic_filtering: filtering },
    ) {
        Ok(Some(constraint)) => constraint,
        Ok(None) => {
            return Ok(None);
        },
        Err(query) => {
            return Err(query);
        },
    };
    let excluded = match store.ask(
        Query::Constraint { function, classinfo, positive: false, generic_filtering: false },
    ) {
        Ok(Some(excluded)) => excluded,
        Ok(None) => {
            return Ok(None);
        },
        Err(query) => {
            return Err(query);
        },
    };
    let wanted = if filtering {
        Query::FilterGeneric { subject, constraint }
    } else {
        Query::Intersection { left: subject, right: constraint }
    };
    let positive = match store.build(wanted) {
        Ok(positive) => positive,
        Err(query) => {
            return Err(query);
        },
    };
    let rest = match store.build(Query::Negation(excluded)) {
        Ok(rest) => rest,
        Err(query) => {
            return Err(query);
        },
    };
    match store.build(Query::Intersection { left: subject, right: rest }) {
        Ok(negative) => Ok(Some(Narrowing { constraint, positive, negative })),
        Err(query) => Err(query),
    }
}

fn class_check_text(function: ClassInfoFunction, always: bool, subject: &str, class: &str) -> (
message: String)
    ensures
        message@ == class_check_message(function, always, subject@, class@),
{
    let mut message = String::from_str(
        match function {
            ClassInfoFunction::IsInstance => "Unnecessary isinstance call; \"",
            ClassInfoFunction::IsSubclass => "Unnecessary issubclass call; \"",
        },
    );
    message.append(subject);
    message.append(
        if always {
            "\" is always "
        } else {
            "\" is never "
        },
    );
    message.append(
        match function {
            ClassInfoFunction::IsInstance => "an instance of \"",
            ClassInfoFunction::IsSubclass => "a subclass of \"",
        },
    );
    message.append(class);
    message.append("\"");
    message
}

/// Narrows the first argument by the classinfo argument in both polarities; reports when
/// the negative narrowing is `Never` (the call is always true) or the positive one is (it
/// can never be true). Only the bare names `isinstance` and `issubclass` with exactly two
/// positional arguments are checked, whatever the name resolves to.
pub fn check_isinstance_call(store: &TypeStore, call: &Node) -> (message: Result<
    Option<String>,
    Query,
>)
    ensures
        message_view(message) == isinstance_message(store, *call),
{
    let Some(function) = as_class_check(call) else {
        return Ok(None);
    };
    let (Some(subject), Some(classinfo)) = (call.children[1].ty, call.children[2].ty) else {
        return Ok(None);
    };
    let narrowing = match narrow(store, function, subject, classinfo) {
        Ok(Some(narrowing)) => narrowing,
        Ok(None) => {
            return Ok(None);
        },
        Err(query) => {
            return Err(query);
        },
    };
    let always_true = is_never(store, narrowing.negative);
    let never_true = is_never(store, narrowing.positive);
    if !always_true && !never_true {
        return Ok(None);
    }
    let class = match store.ask(
        Query::Constraint {
            function: ClassInfoFunction::IsInstance,
            classinfo,
            positive: true,
            generic_filtering: true,
        },
    ) {
        Ok(Some(class)) => class,
        Ok(None) => narrowing.constraint,
        Err(query) => {
            return Err(query);
        },
    };
    Ok(
        Some(
            class_check_text(function, always_true, store.display(subject), store.display(class)),
        ),
    )
}

// -- the pass ---------------------------------------------------------------------------

/// The findings of a rule, given the outcome of its check.
pub open spec fn rule_findings(
    selection: RuleSelection,
    lint: Lint,
    range: TextRange,
    message: Result<Option<Seq<char>>, QueryView>,
) -> Result<Seq<FindingView>, QueryView> {
    if selection.has(lint) {
        match message {
            Ok(message) => Ok(reported(selection, lint, range, message)),
            Err(query) => Err(query),
        }
    } else {
        Ok(Seq::empty())
    }
}

/// The range of an operand pair, with the parentheses around the operands.
pub open spec fn pair_range(left: Node, right: Node) -> TextRange {
    TextRange { start: left.outer.start, end: right.outer.end }
}

/// The findings on one operator of a comparison and the operands on its two sides.
pub open spec fn pair_findings(
    store: &TypeStore,
    selection: RuleSelection,
    left: Node,
    op: CmpOp,
    right: Node,
) -> Result<Seq<FindingView>, QueryView> {
    match op {
        CmpOp::Eq | CmpOp::NotEq | CmpOp::Is | CmpOp::IsNot => rule_findings(
            selection,
            Lint::UnnecessaryComparison,
            pair_range(left, right),
            comparison_message(store, left, op, right),
        ),
        CmpOp::In | CmpOp::NotIn => rule_findings(
            selection,
            Lint::UnnecessaryContains,
            pair_range(left, right),
            contains_message(store, op, left, right),
        ),
        CmpOp::Order => Ok(Seq::empty()),
    }
}

/// The findings on a (chained) comparison from its operator at `from` on, one operand
/// pair at a time.
pub open spec fn compare_findings(
    store: &TypeStore,
    selection: RuleSelection,
    ops: Seq<CmpOp>,
    operands: Seq<Node>,
    from: int,
) -> Result<Seq<FindingView>, QueryView>
    decreases ops.len() - from,
{
    if from < 0 || from >= ops.len() || from + 1 >= operands.len() {
        Ok(Seq::empty())
    } else {
        types::joined(
            pair_findings(store, selection, operands[from], ops[from], operands[from + 1]),
            compare_findings(store, selection, ops, operands, from + 1),
        )
    }
}

/// The child of a node at a position, where it has one.
pub open spec fn child(node: Node, at: int) -> Seq<Node> {
    if 0 <= at < node.children@.len() {
        seq![node.children@[at]]
    } else {
        Seq::empty()
    }
}

/// The tests of the `elif` clauses among the children from position `from` on.
pub open spec fn clause_tests(children: Seq<Node>, from: int) -> Seq<Node>
    decreases children.len() - from,
{
    if from < 0 || from >= children.len() {
        Seq::empty()
    } else {
        (match children[from].kind {
            NodeKind::ElifElse { has_test: true } => child(children[from], 0),
            _ => Seq::empty(),
        }) + clause_tests(children, from + 1)
    }
}

/// The conditions that a node tests.
pub open spec fn conditions(node: Node) -> Seq<Node> {
    match node.kind {
        NodeKind::If => child(node, 0) + clause_tests(node.children@, 1),
        NodeKind::While => child(node, 0),
        NodeKind::Ternary => child(node, 1),
        NodeKind::Comprehension => if node.children@.len() > 2 {
            node.children@.skip(2)
        } else {
            Seq::empty()
        },
        _ => Seq::empty(),
    }
}

/// The findings on a node itself. Only its conditions are checked within an `assert`.
pub open spec fn own_findings(
    store: &TypeStore,
    selection: RuleSelection,
    node: Node,
    in_assert: bool,
) -> Result<Seq<FindingView>, QueryView> {
    types::joined(
        Ok(conditions_findings(store, selection, conditions(node), 0)),
        match node.kind {
            NodeKind::Compare(ops) if !in_assert => compare_findings(
                store,
                selection,
                ops@,
                node.children@,
                0,
            ),
            NodeKind::Call { keywords } if !in_assert => rule_findings(
                selection,
                Lint::UnnecessaryIsinstance,
                node.range,
                isinstance_message(store, node),
            ),
            _ => Ok(Seq::empty()),
        },
    )
}

/// The findings on a node and what is below it, in source order.
pub open spec fn node_findings(
    store: &TypeStore,
    selection: RuleSelection,
    node: Node,
    in_assert: bool,
) -> Result<Seq<FindingView>, QueryView>
    decreases node, 0nat,
{
    types::joined(
        own_findings(store, selection, node, in_assert),
        nodes_findings(store, selection, node.children@, 0, in_assert || node.kind is Assert),
    )
}

/// The findings on the nodes from position `from` on.
pub open spec fn nodes_findings(
    store: &TypeStore,
    selection: RuleSelection,
    nodes: Seq<Node>,
    from: int,
    in_assert: bool,
) -> Result<Seq<FindingView>, QueryView>
    decreases nodes, nodes.len() - from,
    when 0 <= from
{
    if from >= nodes.len() {
        Ok(Seq::empty())
    } else {
        types::joined(
            node_findings(store, selection, nodes[from], in_assert),
            nodes_findings(store, selection, nodes, from + 1, in_assert),
        )
    }
}

/// The findings of the pass over a module; there are none while no rule is enabled.
pub open spec fn module_findings(
    store: &TypeStore,
    selection: RuleSelection,
    body: Seq<Node>,
) -> Result<Seq<FindingView>, QueryView> {
    if selection.isinstance || selection.comparison || selection.contains {
        nodes_findings(store, selection, body, 0, false)
    } else {
        Ok(Seq::empty())
    }
}

/// A step of the pass appended what was expected, or stopped at the expected query.
pub open spec fn emitted(
    step: Result<(), Query>,
    before: Seq<Finding>,
    after: Seq<Finding>,
    expected: Result<Seq<FindingView>, QueryView>,
) -> bool {
    match (step, expected) {
        (Ok(()), Ok(findings)) => views(after) == views(before) + findings,
        (Err(query), Err(open)) => query@ == open,
        _ => false,
    }
}

fn emit(
    selection: RuleSelection,
    lint: Lint,
    range: TextRange,
    message: Result<Option<String>, Query>,
    out: &mut Vec<Finding>,
) -> (step: Result<(), Query>)
    requires
        selection.has(lint),
    ensures
        emitted(
            step,
            old(out)@,
            final(out)@,
            rule_findings(selection, lint, range, message_view(message)),
        ),
{
    match message {
        Ok(Some(text)) => {
            report(selection, lint, range, text, out);
            Ok(())
        },
        Ok(None) => Ok(()),
        Err(query) => Err(query),
    }
}

fn check_pair(
    store: &TypeStore,
    selection: RuleSelection,
    left: &Node,
    op: CmpOp,
    right: &Node,
    out: &mut Vec<Finding>,
) -> (step: Result<(), Query>)
    requires
        store.wf(),
    ensures
        emitted(
            step,
            old(out)@,
            final(out)@,
            pair_findings(store, selection, *left, op, *right),
        ),
{
    let range = TextRange { start: left.outer.start, end: right.outer.end };
    match op {
        CmpOp::Eq | CmpOp::NotEq | CmpOp::Is | CmpOp::IsNot => {
            if selection.comparison {
                let message = check_comparison_pair(store, left, op, right);
                emit(selection, Lint::UnnecessaryComparison, range, message, out)
            } else {
                Ok(())
            }
        },
        CmpOp::In | CmpOp::NotIn => {
            if selection.contains {
                let message = check_contains_pair(store, op, left, right);
                emit(selection, Lint::UnnecessaryContains, range, message, out)
            } else {
                Ok(())
            }
        },
        CmpOp::Order => Ok(()),
    }
}

/// Dispatches one (possibly chained) comparison to the `==`/`!=`/`is`/`is not` and
/// `in`/`not in` checks, one operand pair at a time.
pub fn check_compare(
    store: &TypeStore,
    selection: RuleSelection,
    ops: &Vec<CmpOp>,
    operands: &Vec<Node>,
    out: &mut Vec<Finding>,
) -> (step: Result<(), Query>)
    requires
        store.wf(),
    ensures
        emitted(
            step,
            old(out)@,
            final(out)@,
            compare_findings(store, selection, ops@, operands@, 0),
        ),
{
    let ghost total = compare_findings(store, selection, ops@, operands@, 0);
    let ghost mut done: Seq<FindingView> = Seq::empty();
    let mut index: usize = 0;
    while index < ops.len() && index < operands.len() && operands.len() - index > 1
        invariant
            index <= ops@.len(),
            store.wf(),
            total == compare_findings(store, selection, ops@, operands@, 0),
            total == types::joined(
                Ok(done),
                compare_findings(store, selection, ops@, operands@, index as int),
            ),
            views(out@) == views(old(out)@) + done,
        decreases ops@.len() - index,
    {
        let ghost pair = pair_findings(
            store,
            selection,
            operands@[index as int],
            ops@[index as int],
            operands@[index + 1],
        );
        let step = check_pair(
            store,
            selection,
            &operands[index],
            ops[index],
            &operands[index + 1],
            out,
        );
        if let Err(query) = step {
            return Err(query);
        }
        index += 1;
        proof {
            types::lemma_joined(
                done,
                pair->Ok_0,
                compare_findings(store, selection, ops@, operands@, index as int),
            );
            done = done + pair->Ok_0;
        }
    }
    Ok(())
}

fn check_clause_tests(
    store: &TypeStore,
    selection: RuleSelection,
    children: &Vec<Node>,
    out: &mut Vec<Finding>,
)
    ensures
        views(final(out)@) == views(old(out)@) + conditions_findings(
            store,
            selection,
            clause_tests(children@, 1),
            0,
        ),
{
    let mut i: usize = 1;
    while i < children.len()
        invariant
            1 <= i,
            views(out@) + conditions_findings(
                store,
                selection,
                clause_tests(children@, i as int),
                0,
            ) == views(old(out)@) + conditions_findings(
                store,
                selection,
                clause_tests(children@, 1),
                0,
            ),
        decreases children@.len() - i,
    {
        let ghost rest = clause_tests(children@, i + 1);
        let mut tested = false;
        if let NodeKind::ElifElse { has_test } = &children[i].kind {
            tested = *has_test;
        }
        if tested && children[i].children.len() > 0 {
            check_condition(store, selection, &children[i].children[0], out);
            proof {
                let head = seq![children@[i as int].children@[0]];
                assert(clause_tests(children@, i as int) == head + rest);
                lemma_conditions_append(store, selection, head, rest);
            }
        } else {
            assert(clause_tests(children@, i as int) == rest);
        }
        i += 1;
    }
}

/// Conditions one after the other: the findings of the first, then those of the rest.
proof fn lemma_conditions_append(
    store: &TypeStore,
    selection: RuleSelection,
    head: Seq<Node>,
    rest: Seq<Node>,
)
    requires
        head.len() == 1,
    ensures
        conditions_findings(store, selection, head + rest, 0) == condition_findings(
            store,
            selection,
            head[0],
        ) + conditions_findings(store, selection, rest, 0),
{
    lemma_conditions_shift(store, selection, head, rest, 0);
}

proof fn lemma_conditions_shift(
    store: &TypeStore,
    selection: RuleSelection,
    head: Seq<Node>,
    rest: Seq<Node>,
    from: int,
)
    requires
        0 <= from <= rest.len(),
        head.len() == 1,
    ensures
        conditions_findings(store, selection, head + rest, from + 1) == conditions_findings(
            store,
            selection,
            rest,
            from,
        ),
    decreases rest.len() - from,
{
    if from < rest.len() {
        lemma_conditions_shift(store, selection, head, rest, from + 1);
    }
}

fn check_children_from(
    store: &TypeStore,
    selection: RuleSelection,
    tests: &Vec<Node>,
    from: usize,
    out: &mut Vec<Finding>,
)
    requires
        from <= tests@.len(),
    ensures
        views(final(out)@) == views(old(out)@) + conditions_findings(
            store,
            selection,
            tests@.skip(from as int),
            0,
        ),
{
    let ghost list = tests@.skip(from as int);
    let mut i: usize = from;
    while i < tests.len()
        invariant
            from <= i <= tests@.len(),
            list == tests@.skip(from as int),
            views(out@) + conditions_findings(store, selection, list, i - from) == views(old(out)@)
                + conditions_findings(store, selection, list, 0),
        decreases tests@.len() - i,
    {
        assert(list[i - from] == tests@[i as int]);
        check_condition(store, selection, &tests[i], out);
        i += 1;
    }
}

fn check_conditions(
    store: &TypeStore,
    selection: RuleSelection,
    node: &Node,
    out: &mut Vec<Finding>,
)
    ensures
        views(final(out)@) == views(old(out)@) + conditions_findings(
            store,
            selection,
            conditions(*node),
            0,
        ),
{
    let children = &node.children;
    proof {
        reveal_with_fuel(conditions_findings, 2);
    }
    match &node.kind {
        NodeKind::If => {
            if children.len() > 0 {
                check_condition(store, selection, &children[0], out);
                proof {
                    lemma_conditions_append(
                        store,
                        selection,
                        child(*node, 0),
                        clause_tests(children@, 1),
                    );
                }
            }
            check_clause_tests(store, selection, children, out);
            if children.len() == 0 {
                assert(conditions(*node) == clause_tests(children@, 1));
            }
        },
        NodeKind::While => {
            if children.len() > 0 {
                check_condition(store, selection, &children[0], out);
            }
        },
        NodeKind::Ternary => {
            if children.len() > 1 {
                check_condition(store, selection, &children[1], out);
            }
        },
        NodeKind::Comprehension => {
            if children.len() > 2 {
                check_children_from(store, selection, children, 2, out);
            }
        },
        _ => {},
    }
}

fn check_node(
    store: &TypeStore,
    selection: RuleSelection,
    node: &Node,
    in_assert: bool,
    out: &mut Vec<Finding>,
) -> (step: Result<(), Query>)
    requires
        store.wf(),
    ensures
        emitted(
            step,
            old(out)@,
            final(out)@,
            own_findings(store, selection, *node, in_assert),
        ),
{
    check_conditions(store, selection, node, out);
    if in_assert {
        return Ok(());
    }
    match &node.kind {
        NodeKind::Compare(ops) => check_compare(store, selection, ops, &node.children, out),
        NodeKind::Call { .. } => {
            if selection.isinstance {
                let message = check_isinstance_call(store, node);
                emit(selection, Lint::UnnecessaryIsinstance, node.range, message, out)
            } else {
                Ok(())
            }
        },
        _ => Ok(()),
    }
}

/// Checks a node, then what is below it. Within an `assert` only conditions are checked.
fn visit_node(
    store: &TypeStore,
    selection: RuleSelection,
    node: &Node,
    in_assert: bool,
    out: &mut Vec<Finding>,
) -> (step: Result<(), Query>)
    requires
        store.wf(),
    ensures
        emitted(
            step,
            old(out)@,
            final(out)@,
            node_findings(store, selection, *node, in_assert),
        ),
    decreases *node, 1nat,
{
    if let Err(query) = check_node(store, selection, node, in_assert, out) {
        return Err(query);
    }
    let below = in_assert || matches!(node.kind, NodeKind::Assert);
    let step = visit_nodes(store, selection, &node.children, below, out);
    proof {
        let own = own_findings(store, selection, *node, in_assert);
        let rest = nodes_findings(store, selection, node.children@, 0, below);
        if step is Ok {
            assert((views(old(out)@) + own->Ok_0) + rest->Ok_0 == views(old(out)@) + (own->Ok_0
                + rest->Ok_0));
        }
    }
    step
}

fn visit_nodes(
    store: &TypeStore,
    selection: RuleSelection,
    nodes: &Vec<Node>,
    in_assert: bool,
    out: &mut Vec<Finding>,
) -> (step: Result<(), Query>)
    requires
        store.wf(),
    ensures
        emitted(
            step,
            old(out)@,
            final(out)@,
            nodes_findings(store, selection, nodes@, 0, in_assert),
        ),
    decreases *nodes, 0nat,
{
    let ghost mut done: Seq<FindingView> = Seq::empty();
    let mut i: usize = 0;
    while i < nodes.len()
        invariant
            i <= nodes@.len(),
            store.wf(),
            nodes_findings(store, selection, nodes@, 0, in_assert) == types::joined(
                Ok(done),
                nodes_findings(store, selection, nodes@, i as int, in_assert),
            ),
            views(out@) == views(old(out)@) + done,
        decreases nodes@.len() - i,
    {
        let ghost first = node_findings(store, selection, nodes@[i as int], in_assert);
        if let Err(query) = visit_node(store, selection, &nodes[i], in_assert, out) {
            return Err(query);
        }
        i += 1;
        proof {
            types::lemma_joined(
                done,
                first->Ok_0,
                nodes_findings(store, selection, nodes@, i as int, in_assert),
            );
            done = done + first->Ok_0;
        }
    }
    Ok(())
}

/// The findings by value, or the query the pass stopped at.
pub open spec fn findings_view(findings: Result<Vec<Finding>, Query>) -> Result<
    Seq<FindingView>,
    QueryView,
> {
    match findings {
        Ok(findings) => Ok(views(findings@)),
        Err(query) => Err(query@),
    }
}

/// Runs the enabled rules over a whole module, in source order. All rules are off by
/// default; the walk is skipped unless one is enabled.
pub fn check_unnecessary_diagnostics(
    store: &TypeStore,
    selection: RuleSelection,
    body: &Vec<Node>,
) -> (findings: Result<Vec<Finding>, Query>)
    requires
        store.wf(),
    ensures
        findings_view(findings) == module_findings(store, selection, body@),
{
    let mut out: Vec<Finding> = Vec::new();
    if !selection.isinstance && !selection.comparison && !selection.contains {
        assert(views(out@) == Seq::<FindingView>::empty());
        return Ok(out);
    }
    match visit_nodes(store, selection, body, false, &mut out) {
        Ok(()) => {
            assert(views(Seq::<Finding>::empty()) == Seq::<FindingView>::empty());
            Ok(out)
        },
        Err(query) => Err(query),
    }
}

} // verus!
