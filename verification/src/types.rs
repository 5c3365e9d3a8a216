//! What the checks know of the types they meet.
//!
//! The type checker lowers the types of one question into a [`TypeStore`]: every type,
//! class and function becomes a node that is named by its index. The store also remembers
//! what the type checker answered when a check asked it to build a type ([`Query`]).

use vstd::prelude::*;

use crate::syntax::{Node, TextRange};

verus! {

#[derive(Clone, Copy, PartialEq, Eq, Structural, Debug)]
pub struct TypeId(pub usize);

#[derive(Clone, Copy, PartialEq, Eq, Structural, Debug)]
pub struct ClassId(pub usize);

#[derive(Clone, Copy, PartialEq, Eq, Structural, Debug)]
pub struct FunctionId(pub usize);

#[derive(Clone, Copy, PartialEq, Eq, Structural, Debug)]
pub struct ModuleId(pub usize);

#[derive(Clone, Copy, PartialEq, Eq, Structural, Debug)]
pub struct SignatureId(pub usize);

#[derive(Clone, Copy, PartialEq, Eq, Structural, Debug)]
pub struct FileId(pub usize);

/// A range in a file.
#[derive(Clone, Copy, PartialEq, Eq, Structural, Debug)]
pub struct FileRange {
    pub file: FileId,
    pub range: TextRange,
}

/// The classes that a rule singles out.
#[derive(Clone, Copy, PartialEq, Eq, Structural, Debug)]
pub enum KnownClass {
    Int,
    Float,
    Complex,
    Bool,
    Str,
    Bytes,
    Type,
    CoroutineType,
    NoneType,
    Other,
}

#[derive(Clone, Copy, PartialEq, Eq, Structural, Debug)]
pub enum DynamicKind {
    Any,
    Unknown,
    Other,
}

/// The value of a literal type.
#[derive(Debug)]
pub enum LiteralKind {
    Int(i64),
    Bool(bool),
    Str,
    Bytes,
    LiteralString,
    Enum { class: ClassId, member: String },
}

#[derive(Debug)]
pub enum TypeVarBound {
    Unbounded,
    UpperBound(TypeId),
    Constraints(Vec<TypeId>),
}

/// The element types of a tuple: the fixed ones, then the repeated one.
#[derive(Debug)]
pub struct TupleSpec {
    pub fixed: Vec<TypeId>,
    pub variable: Option<TypeId>,
}

/// An instance of a class; `arguments` are the type arguments of a specialized class.
#[derive(Debug)]
pub struct Instance {
    pub class: ClassId,
    pub arguments: Option<Vec<TypeId>>,
    pub tuple: Option<TupleSpec>,
}

/// One signature of a callable.
#[derive(Clone, Copy, PartialEq, Eq, Structural, Debug)]
pub struct Overload {
    pub signature: SignatureId,
    pub result: TypeId,
}

#[derive(Debug)]
pub enum TypeKind {
    Dynamic(DynamicKind),
    Never,
    Union(Vec<TypeId>),
    TypeAlias(TypeId),
    TypeVar(TypeVarBound),
    /// An intersection, by its positive elements.
    Intersection(Vec<TypeId>),
    /// The members of an enum that a narrowing left, by the equivalent intersection.
    EnumComplement(TypeId),
    ModuleLiteral(ModuleId),
    FunctionLiteral(FunctionId),
    /// A method bound to `receiver`, by the signatures that are left after binding.
    BoundMethod { function: FunctionId, receiver: TypeId, signatures: Vec<SignatureId> },
    KnownBoundMethod,
    WrapperDescriptor,
    /// A callable; `definition` is the function it was made from, where that is kept.
    Callable { overloads: Vec<Overload>, definition: Option<FunctionId> },
    DataclassDecorator,
    DataclassTransformer,
    ClassLiteral(ClassId),
    GenericAlias(ClassId),
    /// `type[C]`, or `type[...]` of a class that is not known.
    SubclassOf(Option<ClassId>),
    NominalInstance(Instance),
    /// A literal; `fallback` is the instance type of its class.
    LiteralValue { value: LiteralKind, fallback: Option<TypeId> },
    /// A property object, by its getter.
    Property(Option<TypeId>),
    /// Any other type.
    Opaque,
}

/// A type, with what the type checker said of it.
#[derive(Debug)]
pub struct TypeNode {
    pub kind: TypeKind,
    /// The types of the store that it is assignable to.
    pub assignable_to: Vec<TypeId>,
    /// Whether a class in its MRO other than `object` defines `__eq__`.
    pub defines_eq: bool,
    /// The display in messages.
    pub display: String,
    /// The display with long unions preserved.
    pub long_display: String,
}

/// What a class statement says of its class.
#[derive(Clone, Copy, PartialEq, Eq, Structural, Debug)]
pub struct StaticClass {
    pub dataclass: bool,
    /// Whether the class body itself binds `__eq__`.
    pub binds_eq: bool,
}

#[derive(Debug)]
pub struct EnumMember {
    pub name: String,
    pub value: TypeId,
}

#[derive(Debug)]
pub struct ClassNode {
    pub name: String,
    pub known: KnownClass,
    /// The classes of its MRO, itself included.
    pub mro: Vec<ClassId>,
    /// Whether a standard-library stub declares it.
    pub stdlib: bool,
    /// The type of the class object as an instance of its metaclass.
    pub metaclass_instance: TypeId,
    /// Present for a class that a class statement defines.
    pub body: Option<StaticClass>,
    /// The members of an enum class.
    pub members: Option<Vec<EnumMember>>,
    /// The classes that it is a subclass of, type arguments aside.
    pub subclass_of: Vec<ClassId>,
    /// The type of its instances, with unknown type arguments.
    pub instance: TypeId,
    /// The type of the class object.
    pub object: TypeId,
    pub definition: Option<FileRange>,
}

#[derive(Debug)]
pub struct FunctionNode {
    pub overloaded: bool,
    /// Whether it has an explicit return annotation.
    pub annotated: bool,
    pub is_async: bool,
    pub is_generator: bool,
    pub body: Vec<Node>,
    /// Whether control may fall off the end of the body.
    pub end_reachable: bool,
    /// Its signature, as its decorators left it.
    pub signature: SignatureId,
    pub definition: FileRange,
}

/// The call whose narrowing is asked for.
#[derive(Clone, Copy, PartialEq, Eq, Structural, Debug)]
pub enum ClassInfoFunction {
    IsInstance,
    IsSubclass,
}

/// A type that only the type checker can build.
#[derive(Debug)]
pub enum Query {
    /// The simplified union of the elements.
    Union(Vec<TypeId>),
    /// The element type of iterating over a type.
    ElementOf(TypeId),
    /// `Generator[yields, send, result]`.
    Generator { yields: TypeId, send: TypeId, result: TypeId },
    /// `AsyncGenerator[yields, send]`.
    AsyncGenerator { yields: TypeId, send: TypeId },
    /// The callable of a function, with one signature and another return type.
    Callable { source: FunctionId, signature: SignatureId, result: TypeId },
    /// The member of a type, where it may be defined.
    Member { receiver: TypeId, name: String },
    /// The type that a classinfo argument narrows to, if it has one.
    Constraint {
        function: ClassInfoFunction,
        classinfo: TypeId,
        positive: bool,
        generic_filtering: bool,
    },
    /// `subject` filtered by a generic constraint.
    FilterGeneric { subject: TypeId, constraint: TypeId },
    Intersection { left: TypeId, right: TypeId },
    Negation(TypeId),
}

/// A query by value.
pub enum QueryView {
    Union(Seq<TypeId>),
    ElementOf(TypeId),
    Generator { yields: TypeId, send: TypeId, result: TypeId },
    AsyncGenerator { yields: TypeId, send: TypeId },
    Callable { source: FunctionId, signature: SignatureId, result: TypeId },
    Member { receiver: TypeId, name: Seq<char> },
    Constraint {
        function: ClassInfoFunction,
        classinfo: TypeId,
        positive: bool,
        generic_filtering: bool,
    },
    FilterGeneric { subject: TypeId, constraint: TypeId },
    Intersection { left: TypeId, right: TypeId },
    Negation(TypeId),
}

impl View for Query {
    type V = QueryView;

    open spec fn view(&self) -> QueryView {
        match *self {
            Query::Union(elements) => QueryView::Union(elements@),
            Query::ElementOf(ty) => QueryView::ElementOf(ty),
            Query::Generator { yields, send, result } => QueryView::Generator {
                yields,
                send,
                result,
            },
            Query::AsyncGenerator { yields, send } => QueryView::AsyncGenerator { yields, send },
            Query::Callable { source, signature, result } => QueryView::Callable {
                source,
                signature,
                result,
            },
            Query::Member { receiver, name } => QueryView::Member { receiver, name: name@ },
            Query::Constraint { function, classinfo, positive, generic_filtering } => {
                QueryView::Constraint { function, classinfo, positive, generic_filtering }
            },
            Query::FilterGeneric { subject, constraint } => QueryView::FilterGeneric {
                subject,
                constraint,
            },
            Query::Intersection { left, right } => QueryView::Intersection { left, right },
            Query::Negation(ty) => QueryView::Negation(ty),
        }
    }
}

fn same_types(a: &Vec<TypeId>, b: &Vec<TypeId>) -> (same: bool)
    ensures
        same == (a@ == b@),
{
    if a.len() != b.len() {
        return false;
    }
    let mut i: usize = 0;
    while i < a.len()
        invariant
            i <= a@.len(),
            a@.len() == b@.len(),
            forall|j: int| 0 <= j < i ==> a@[j] == b@[j],
        decreases a@.len() - i,
    {
        if a[i] != b[i] {
            return false;
        }
        i += 1;
    }
    assert(a@ =~= b@);
    true
}

impl Query {
    /// Whether two queries ask for the same type.
    pub fn same(&self, other: &Query) -> (same: bool)
        ensures
            same == (self@ == other@),
    {
        match (self, other) {
            (Query::Union(a), Query::Union(b)) => same_types(a, b),
            (Query::ElementOf(a), Query::ElementOf(b)) => *a == *b,
            (
                Query::Generator { yields, send, result },
                Query::Generator { yields: y, send: s, result: r },
            ) => *yields == *y && *send == *s && *result == *r,
            (
                Query::AsyncGenerator { yields, send },
                Query::AsyncGenerator { yields: y, send: s },
            ) => *yields == *y && *send == *s,
            (
                Query::Callable { source, signature, result },
                Query::Callable { source: f, signature: s, result: r },
            ) => *source == *f && *signature == *s && *result == *r,
            (Query::Member { receiver, name }, Query::Member { receiver: r, name: n }) => {
                *receiver == *r && *name == *n
            },
            (
                Query::Constraint { function, classinfo, positive, generic_filtering },
                Query::Constraint {
                    function: f,
                    classinfo: c,
                    positive: p,
                    generic_filtering: g,
                },
            ) => *function == *f && *classinfo == *c && *positive == *p && *generic_filtering == *g,
            (
                Query::FilterGeneric { subject, constraint },
                Query::FilterGeneric { subject: s, constraint: c },
            ) => *subject == *s && *constraint == *c,
            (
                Query::Intersection { left, right },
                Query::Intersection { left: l, right: r },
            ) => *left == *l && *right == *r,
            (Query::Negation(a), Query::Negation(b)) => *a == *b,
            _ => false,
        }
    }
}

/// Everything the checks know of the types in one question.
#[derive(Debug)]
pub struct TypeStore {
    pub types: Vec<TypeNode>,
    pub classes: Vec<ClassNode>,
    pub functions: Vec<FunctionNode>,
    /// What the type checker answered so far; a query it could not satisfy has no type.
    pub answers: Vec<(Query, Option<TypeId>)>,
    /// `object`.
    pub object: TypeId,
    /// `Unknown`.
    pub unknown: TypeId,
    /// `Any`.
    pub any: TypeId,
    /// `None`.
    pub none: TypeId,
    /// Whether narrowing keeps generic constraints as they are.
    pub strict_generic_narrowing: bool,
}

/// The first answer to `query` at or after position `from`.
pub open spec fn first_answer(
    answers: Seq<(Query, Option<TypeId>)>,
    query: QueryView,
    from: int,
) -> Option<Option<TypeId>>
    decreases answers.len() - from,
{
    if from < 0 || from >= answers.len() {
        None
    } else if answers[from].0@ == query {
        Some(answers[from].1)
    } else {
        first_answer(answers, query, from + 1)
    }
}

/// An outcome with the query that is still open, by value.
pub open spec fn outcome<T>(r: Result<T, Query>) -> Result<T, QueryView> {
    match r {
        Ok(value) => Ok(value),
        Err(query) => Err(query@),
    }
}

/// Two outcomes in a row: the values of both, or the first error.
pub open spec fn joined<T, E>(first: Result<Seq<T>, E>, second: Result<Seq<T>, E>) -> Result<
    Seq<T>,
    E,
> {
    match (first, second) {
        (Ok(a), Ok(b)) => Ok(a + b),
        (Ok(a), Err(error)) => Err(error),
        (Err(error), _) => Err(error),
    }
}

pub proof fn lemma_joined<T, E>(done: Seq<T>, step: Seq<T>, rest: Result<Seq<T>, E>)
    ensures
        joined(Ok(done), joined(Ok(step), rest)) == joined(Ok(done + step), rest),
{
    if let Ok(values) = rest {
        assert(done + (step + values) =~= (done + step) + values);
    }
}

/// `items[at]` is the first of the items that is an error.
pub open spec fn first_error<T, E>(items: Seq<Result<T, E>>, at: int) -> bool {
    &&& 0 <= at < items.len()
    &&& items[at] is Err
    &&& forall|i: int| 0 <= i < at ==> items[i] is Ok
}

/// The values of the items, or the first error among them.
pub open spec fn all_ok<T, E>(items: Seq<Result<T, E>>) -> Result<Seq<T>, E> {
    if exists|at: int| first_error(items, at) {
        Err(items[choose|at: int| first_error(items, at)]->Err_0)
    } else {
        Ok(items.map_values(|item: Result<T, E>| item->Ok_0))
    }
}

pub proof fn lemma_first_error<T, E>(items: Seq<Result<T, E>>, at: int)
    requires
        first_error(items, at),
    ensures
        all_ok(items) == Err::<Seq<T>, E>(items[at]->Err_0),
{
    let other = choose|i: int| first_error(items, i);
    assert(first_error(items, other));
    if other < at {
        assert(items[other] is Ok);
    } else if at < other {
        assert(items[at] is Ok);
    }
}

pub proof fn lemma_all_ok<T, E>(items: Seq<Result<T, E>>, values: Seq<T>)
    requires
        items.len() == values.len(),
        forall|i: int| 0 <= i < items.len() ==> #[trigger] items[i] == Ok::<T, E>(values[i]),
    ensures
        all_ok(items) == Ok::<Seq<T>, E>(values),
{
    assert(items.map_values(|item: Result<T, E>| item->Ok_0) =~= values);
}

/// The types that `kind` is made of stand before it in a store. A union has elements, and
/// a constrained type variable constraints.
pub open spec fn parts_before(kind: TypeKind, at: int) -> bool {
    match kind {
        TypeKind::Union(elements) => elements@.len() > 0 && forall|i: int|
            0 <= i < elements@.len() ==> (#[trigger] elements@[i]).0 < at,
        TypeKind::TypeVar(TypeVarBound::Constraints(constraints)) => constraints@.len() > 0,
        TypeKind::Intersection(positive) => forall|i: int|
            0 <= i < positive@.len() ==> (#[trigger] positive@[i]).0 < at,
        TypeKind::EnumComplement(intersection) => intersection.0 < at,
        TypeKind::TypeVar(TypeVarBound::UpperBound(bound)) => bound.0 < at,
        TypeKind::LiteralValue { value, fallback: Some(instance) } => instance.0 < at,
        _ => true,
    }
}

/// The display of a type with long unions preserved.
pub open spec fn long_display_of(store: &TypeStore, ty: TypeId) -> Seq<char> {
    if ty.0 < store.types@.len() {
        store.types@[ty.0 as int].long_display@
    } else {
        Seq::empty()
    }
}

/// The display of a type in messages.
pub open spec fn display_of(store: &TypeStore, ty: TypeId) -> Seq<char> {
    if ty.0 < store.types@.len() {
        store.types@[ty.0 as int].display@
    } else {
        Seq::empty()
    }
}

impl TypeStore {
    /// A store is well formed when every union, intersection, enum complement, bounded
    /// type variable and literal stands after the types it is made of, no union and no list
    /// of constraints is empty, and `type` is no number.
    pub open spec fn wf(&self) -> bool {
        &&& forall|i: int|
            0 <= i < self.types@.len() ==> parts_before(#[trigger] self.types@[i].kind, i)
        &&& forall|class: ClassId| #[trigger]
            self.known_of(class) == KnownClass::Type ==> !self.numeric(class)
    }

    /// Whether the MRO of a class holds a numeric class.
    pub open spec fn numeric(&self, class: ClassId) -> bool {
        ||| self.inherits(class, KnownClass::Int)
        ||| self.inherits(class, KnownClass::Float)
        ||| self.inherits(class, KnownClass::Complex)
    }

    /// The kind of a type; a type that the store does not hold is opaque.
    pub open spec fn kind_of(&self, ty: TypeId) -> TypeKind {
        if ty.0 < self.types@.len() {
            self.types@[ty.0 as int].kind
        } else {
            TypeKind::Opaque
        }
    }

    /// The class named by an index, if the store holds it.
    pub open spec fn class_of(&self, class: ClassId) -> Option<ClassNode> {
        if class.0 < self.classes@.len() {
            Some(self.classes@[class.0 as int])
        } else {
            None
        }
    }

    /// The function named by an index, if the store holds it.
    pub open spec fn function_of(&self, function: FunctionId) -> Option<FunctionNode> {
        if function.0 < self.functions@.len() {
            Some(self.functions@[function.0 as int])
        } else {
            None
        }
    }

    /// The known class that a class is.
    pub open spec fn known_of(&self, class: ClassId) -> KnownClass {
        match self.class_of(class) {
            Some(node) => node.known,
            None => KnownClass::Other,
        }
    }

    /// Whether the MRO of `class` holds the known class.
    pub open spec fn inherits(&self, class: ClassId, known: KnownClass) -> bool {
        match self.class_of(class) {
            Some(node) => exists|i: int|
                0 <= i < node.mro@.len() && self.known_of(#[trigger] node.mro@[i]) == known,
            None => false,
        }
    }

    /// Whether `source` is assignable to `target`.
    pub open spec fn assignable(&self, source: TypeId, target: TypeId) -> bool {
        ty_in(source, self) && self.types@[source.0 as int].assignable_to@.contains(target)
    }

    /// What the type checker answered to `query`, if it was asked.
    pub open spec fn answer_of(&self, query: QueryView) -> Option<Option<TypeId>> {
        first_answer(self.answers@, query, 0)
    }

    /// The answer to `query`, or the query itself while it is open.
    pub open spec fn asked(&self, query: QueryView) -> Result<Option<TypeId>, QueryView> {
        match self.answer_of(query) {
            Some(answer) => Ok(answer),
            None => Err(query),
        }
    }

    /// Whether an answer is what was asked for. To the query for a callable it is a callable
    /// with just that signature and result; a definition that it keeps is the function that
    /// it was built for.
    pub open spec fn fits(&self, query: QueryView, answer: Option<TypeId>) -> bool {
        match (query, answer) {
            (QueryView::Callable { source, signature, result }, Some(form)) => match self.kind_of(
                form,
            ) {
                TypeKind::Callable { overloads, definition } => {
                    &&& overloads@ == seq![Overload { signature, result }]
                    &&& definition is None || definition == Some(source)
                },
                _ => false,
            },
            _ => true,
        }
    }

    /// Every answer is what was asked for.
    pub open spec fn answers_fit(&self) -> bool {
        forall|i: int|
            0 <= i < self.answers@.len() ==> self.fits(
                (#[trigger] self.answers@[i]).0@,
                self.answers@[i].1,
            )
    }

    /// The type built for `query`, or the query itself while there is none.
    pub open spec fn built(&self, query: QueryView) -> Result<TypeId, QueryView> {
        match self.answer_of(query) {
            Some(Some(ty)) => Ok(ty),
            _ => Err(query),
        }
    }
}

/// What a type of a well-formed store is made of stands before it.
pub proof fn lemma_parts_before(store: &TypeStore, ty: TypeId)
    requires
        store.wf(),
    ensures
        store.kind_of(ty) matches TypeKind::Union(elements) ==> elements@.len() > 0,
        store.kind_of(ty) matches TypeKind::Union(elements) ==> forall|i: int|
            0 <= i < elements@.len() ==> (#[trigger] elements@[i]).0 < ty.0,
        store.kind_of(ty) matches TypeKind::TypeVar(TypeVarBound::Constraints(constraints))
            ==> constraints@.len() > 0,
        store.kind_of(ty) matches TypeKind::Intersection(positive) ==> forall|i: int|
            0 <= i < positive@.len() ==> (#[trigger] positive@[i]).0 < ty.0,
        store.kind_of(ty) matches TypeKind::EnumComplement(intersection) ==> intersection.0 < ty.0,
        store.kind_of(ty) matches TypeKind::TypeVar(TypeVarBound::UpperBound(bound)) ==> bound.0
            < ty.0,
        store.kind_of(ty) matches TypeKind::LiteralValue {
            value,
            fallback: Some(instance),
        } ==> instance.0 < ty.0,
{
    if ty.0 < store.types@.len() {
        assert(parts_before(store.types@[ty.0 as int].kind, ty.0 as int));
    }
}

/// Whether the store holds a type.
pub open spec fn ty_in(ty: TypeId, store: &TypeStore) -> bool {
    ty.0 < store.types@.len()
}

pub(crate) fn contains_type(types: &Vec<TypeId>, ty: TypeId) -> (found: bool)
    ensures
        found == types@.contains(ty),
{
    let mut i: usize = 0;
    while i < types.len()
        invariant
            i <= types@.len(),
            forall|j: int| 0 <= j < i ==> types@[j] != ty,
        decreases types@.len() - i,
    {
        if types[i] == ty {
            return true;
        }
        i += 1;
    }
    false
}

pub(crate) fn contains_class(classes: &Vec<ClassId>, class: ClassId) -> (found: bool)
    ensures
        found == classes@.contains(class),
{
    let mut i: usize = 0;
    while i < classes.len()
        invariant
            i <= classes@.len(),
            forall|j: int| 0 <= j < i ==> classes@[j] != class,
        decreases classes@.len() - i,
    {
        if classes[i] == class {
            return true;
        }
        i += 1;
    }
    false
}

impl TypeStore {
    /// The kind of a type; a type that the store does not hold is opaque.
    pub fn kind(&self, ty: TypeId) -> (kind: &TypeKind)
        ensures
            *kind == self.kind_of(ty),
    {
        if ty.0 < self.types.len() {
            &self.types[ty.0].kind
        } else {
            &TypeKind::Opaque
        }
    }

    /// The class named by an index, if the store holds it.
    pub fn class(&self, class: ClassId) -> (node: Option<&ClassNode>)
        ensures
            match node {
                Some(node) => self.class_of(class) == Some(*node),
                None => self.class_of(class) is None,
            },
    {
        if class.0 < self.classes.len() {
            Some(&self.classes[class.0])
        } else {
            None
        }
    }

    /// The function named by an index, if the store holds it.
    pub fn function(&self, function: FunctionId) -> (node: Option<&FunctionNode>)
        ensures
            match node {
                Some(node) => self.function_of(function) == Some(*node),
                None => self.function_of(function) is None,
            },
    {
        if function.0 < self.functions.len() {
            Some(&self.functions[function.0])
        } else {
            None
        }
    }

    /// The known class that a class is.
    pub fn known(&self, class: ClassId) -> (known: KnownClass)
        ensures
            known == self.known_of(class),
    {
        match self.class(class) {
            Some(node) => node.known,
            None => KnownClass::Other,
        }
    }

    /// Whether the MRO of `class` holds the known class.
    pub fn has_base(&self, class: ClassId, known: KnownClass) -> (answer: bool)
        ensures
            answer == self.inherits(class, known),
    {
        match self.class(class) {
            Some(node) => {
                let mut i: usize = 0;
                while i < node.mro.len()
                    invariant
                        i <= node.mro@.len(),
                        self.class_of(class) == Some(*node),
                        forall|j: int| 0 <= j < i ==> self.known_of(#[trigger] node.mro@[j]) != known,
                    decreases node.mro@.len() - i,
                {
                    if self.known(node.mro[i]) == known {
                        assert(self.known_of(node.mro@[i as int]) == known);
                        return true;
                    }
                    i += 1;
                }
                false
            },
            None => false,
        }
    }

    /// The display of a type with long unions preserved.
    pub fn long_display(&self, ty: TypeId) -> (text: &str)
        ensures
            text@ == long_display_of(self, ty),
    {
        if ty.0 < self.types.len() {
            self.types[ty.0].long_display.as_str()
        } else {
            proof {
                reveal_strlit("");
            }
            ""
        }
    }

    /// The display of a type in messages.
    pub fn display(&self, ty: TypeId) -> (text: &str)
        ensures
            text@ == display_of(self, ty),
    {
        if ty.0 < self.types.len() {
            self.types[ty.0].display.as_str()
        } else {
            proof {
                reveal_strlit("");
            }
            ""
        }
    }

    /// Whether `source` is assignable to `target`.
    pub fn is_assignable_to(&self, source: TypeId, target: TypeId) -> (answer: bool)
        ensures
            answer == self.assignable(source, target),
    {
        source.0 < self.types.len() && contains_type(&self.types[source.0].assignable_to, target)
    }

    /// The recorded answer to `query`.
    pub fn answer(&self, query: &Query) -> (answer: Option<Option<TypeId>>)
        ensures
            answer == self.answer_of(query@),
    {
        let mut i: usize = 0;
        while i < self.answers.len()
            invariant
                i <= self.answers@.len(),
                self.answer_of(query@) == first_answer(self.answers@, query@, i as int),
            decreases self.answers@.len() - i,
        {
            if self.answers[i].0.same(query) {
                return Some(self.answers[i].1);
            }
            i += 1;
        }
        None
    }

    /// The answer to `query`; `Err` hands back a query that has none yet.
    pub fn ask(&self, query: Query) -> (answer: Result<Option<TypeId>, Query>)
        ensures
            outcome(answer) == self.asked(query@),
    {
        match self.answer(&query) {
            Some(answer) => Ok(answer),
            None => Err(query),
        }
    }

    /// The type built for `query`; `Err` hands back a query for which there is none.
    pub fn build(&self, query: Query) -> (ty: Result<TypeId, Query>)
        ensures
            outcome(ty) == self.built(query@),
    {
        match self.answer(&query) {
            Some(Some(ty)) => Ok(ty),
            _ => Err(query),
        }
    }
}

// -- building a store -------------------------------------------------------------------

/// Whether all the types stand before position `at`.
pub open spec fn all_before(types: Seq<TypeId>, at: int) -> bool {
    forall|i: int| 0 <= i < types.len() ==> (#[trigger] types[i]).0 < at
}

fn are_before(types: &Vec<TypeId>, at: usize) -> (answer: bool)
    ensures
        answer == all_before(types@, at as int),
{
    let mut i: usize = 0;
    while i < types.len()
        invariant
            i <= types@.len(),
            forall|j: int| 0 <= j < i ==> (#[trigger] types@[j]).0 < at,
        decreases types@.len() - i,
    {
        if types[i].0 >= at {
            return false;
        }
        i += 1;
    }
    true
}

fn has_parts_before(kind: &TypeKind, at: usize) -> (answer: bool)
    ensures
        answer == parts_before(*kind, at as int),
{
    match kind {
        TypeKind::Union(elements) => elements.len() > 0 && are_before(elements, at),
        TypeKind::TypeVar(TypeVarBound::Constraints(constraints)) => constraints.len() > 0,
        TypeKind::Intersection(positive) => are_before(positive, at),
        TypeKind::EnumComplement(intersection) => intersection.0 < at,
        TypeKind::TypeVar(TypeVarBound::UpperBound(bound)) => bound.0 < at,
        TypeKind::LiteralValue { value: _, fallback: Some(instance) } => instance.0 < at,
        _ => true,
    }
}

impl TypeStore {
    /// A store without types; the well-known types are named by the indexes that are given.
    pub fn new(object: TypeId, unknown: TypeId, any: TypeId, none: TypeId) -> (store: TypeStore)
        ensures
            store.wf(),
            store.answers_fit(),
            store.types@.len() == 0,
            store.classes@.len() == 0,
            store.functions@.len() == 0,
            store.answers@.len() == 0,
            store.object == object,
            store.unknown == unknown,
            store.any == any,
            store.none == none,
            !store.strict_generic_narrowing,
    {
        TypeStore {
            types: Vec::new(),
            classes: Vec::new(),
            functions: Vec::new(),
            answers: Vec::new(),
            object,
            unknown,
            any,
            none,
            strict_generic_narrowing: false,
        }
    }

    /// Whether the store is well formed.
    pub fn is_wf(&self) -> (answer: bool)
        ensures
            answer == self.wf(),
    {
        let mut i: usize = 0;
        while i < self.types.len()
            invariant
                i <= self.types@.len(),
                forall|j: int| 0 <= j < i ==> parts_before(#[trigger] self.types@[j].kind, j),
            decreases self.types@.len() - i,
        {
            if !has_parts_before(&self.types[i].kind, i) {
                return false;
            }
            i += 1;
        }
        let mut c: usize = 0;
        while c < self.classes.len()
            invariant
                c <= self.classes@.len(),
                forall|j: usize|
                    j < c && #[trigger] self.known_of(ClassId(j)) == KnownClass::Type
                        ==> !self.numeric(ClassId(j)),
            decreases self.classes@.len() - c,
        {
            let class = ClassId(c);
            if self.known(class) == KnownClass::Type && (self.has_base(class, KnownClass::Int)
                || self.has_base(class, KnownClass::Float) || self.has_base(
                class,
                KnownClass::Complex,
            )) {
                return false;
            }
            c += 1;
        }
        proof {
            assert forall|class: ClassId| #[trigger]
                self.known_of(class) == KnownClass::Type implies !self.numeric(class) by {
                assert(class == ClassId(class.0));
            }
        }
        true
    }

    /// Adds a type. One that is made of types the store does not hold yet is refused, and so
    /// is an empty union or list of constraints.
    pub fn add_type(&mut self, node: TypeNode) -> (ty: Option<TypeId>)
        ensures
            match ty {
                Some(ty) => {
                    &&& parts_before(node.kind, old(self).types@.len() as int)
                    &&& ty.0 == old(self).types@.len()
                    &&& final(self).types@ == old(self).types@.push(node)
                    &&& old(self).wf() ==> final(self).wf()
                    &&& old(self).answers_fit() ==> final(self).answers_fit()
                },
                None => {
                    &&& !parts_before(node.kind, old(self).types@.len() as int)
                    &&& final(self).types@ == old(self).types@
                },
            },
            final(self).classes == old(self).classes,
            final(self).functions == old(self).functions,
            final(self).answers == old(self).answers,
            final(self).object == old(self).object,
            final(self).unknown == old(self).unknown,
            final(self).any == old(self).any,
            final(self).none == old(self).none,
            final(self).strict_generic_narrowing == old(self).strict_generic_narrowing,
    {
        let at: usize = self.types.len();
        if has_parts_before(&node.kind, at) {
            self.types.push(node);
            proof {
                assert forall|class: ClassId|
                    old(self).wf() && #[trigger] self.known_of(class) == KnownClass::Type implies
                    !self.numeric(class) by {
                    assert(old(self).known_of(class) == self.known_of(class));
                    lemma_same_classes(old(self), self);
                }
                assert forall|i: int|
                    old(self).answers_fit() && 0 <= i < self.answers@.len() implies self.fits(
                    (#[trigger] self.answers@[i]).0@,
                    self.answers@[i].1,
                ) by {
                    assert(old(self).fits(old(self).answers@[i].0@, old(self).answers@[i].1));
                }
            }
            Some(TypeId(at))
        } else {
            None
        }
    }

    fn is_fit(&self, query: &Query, answer: Option<TypeId>) -> (fit: bool)
        ensures
            fit == self.fits(query@, answer),
    {
        match (query, answer) {
            (Query::Callable { source, signature, result }, Some(form)) => match self.kind(form) {
                TypeKind::Callable { overloads, definition } => {
                    if overloads.len() != 1 {
                        return false;
                    }
                    let only = overloads[0];
                    assert(only == (Overload { signature: *signature, result: *result })
                        ==> overloads@ =~= seq![only]);
                    let kept = match definition {
                        None => true,
                        Some(kept) => *kept == *source,
                    };
                    only.signature == *signature && only.result == *result && kept
                },
                _ => false,
            },
            _ => true,
        }
    }

    /// Records what the type checker answered to a query, if it is what was asked for. The
    /// first answer to a query counts: a later one changes nothing.
    pub fn record(&mut self, query: Query, answer: Option<TypeId>) -> (recorded: bool)
        ensures
            recorded == old(self).fits(query@, answer),
            !recorded ==> *final(self) == *old(self),
            old(self).wf() ==> final(self).wf(),
            old(self).answers_fit() ==> final(self).answers_fit(),
            forall|q: QueryView| #[trigger]
                final(self).answer_of(q) == if recorded && old(self).answer_of(q) is None && q
                    == query@ {
                    Some(answer)
                } else {
                    old(self).answer_of(q)
                },
            final(self).types == old(self).types,
            final(self).classes == old(self).classes,
            final(self).functions == old(self).functions,
            final(self).object == old(self).object,
            final(self).unknown == old(self).unknown,
            final(self).any == old(self).any,
            final(self).none == old(self).none,
            final(self).strict_generic_narrowing == old(self).strict_generic_narrowing,
    {
        if !self.is_fit(&query, answer) {
            return false;
        }
        let ghost before = self.answers@;
        self.answers.push((query, answer));
        proof {
            lemma_same_classes(old(self), self);
            assert forall|class: ClassId|
                old(self).wf() && #[trigger] self.known_of(class) == KnownClass::Type implies
                !self.numeric(class) by {
                assert(old(self).known_of(class) == KnownClass::Type);
            }
            assert forall|i: int|
                old(self).answers_fit() && 0 <= i < self.answers@.len() implies self.fits(
                (#[trigger] self.answers@[i]).0@,
                self.answers@[i].1,
            ) by {
                if i < before.len() {
                    assert(old(self).fits(before[i].0@, before[i].1));
                }
            }
            assert forall|q: QueryView| #[trigger]
                self.answer_of(q) == if first_answer(before, q, 0) is None && q == query@ {
                    Some(answer)
                } else {
                    first_answer(before, q, 0)
                } by {
                lemma_answer_push(before, (query, answer), q, 0);
            }
        }
        true
    }
}

/// What is known of the classes depends on the classes alone.
pub proof fn lemma_same_classes(a: &TypeStore, b: &TypeStore)
    requires
        a.classes == b.classes,
    ensures
        forall|class: ClassId| #[trigger] a.known_of(class) == b.known_of(class),
        forall|class: ClassId, known: KnownClass| #[trigger]
            a.inherits(class, known) == b.inherits(class, known),
{
    assert forall|class: ClassId, known: KnownClass| #[trigger]
        a.inherits(class, known) == b.inherits(class, known) by {
        if let Some(node) = a.class_of(class) {
            assert(b.class_of(class) == Some(node));
            assert forall|i: int| 0 <= i < node.mro@.len() implies #[trigger] a.known_of(
                node.mro@[i],
            ) == b.known_of(node.mro@[i]) by {}
            if a.inherits(class, known) {
                let i = choose|i: int|
                    0 <= i < node.mro@.len() && a.known_of(#[trigger] node.mro@[i]) == known;
                assert(b.known_of(node.mro@[i]) == known);
            }
            if b.inherits(class, known) {
                let i = choose|i: int|
                    0 <= i < node.mro@.len() && b.known_of(#[trigger] node.mro@[i]) == known;
                assert(a.known_of(node.mro@[i]) == known);
            }
        }
    }
}

/// One more answer stands behind the others.
proof fn lemma_answer_push(
    answers: Seq<(Query, Option<TypeId>)>,
    last: (Query, Option<TypeId>),
    query: QueryView,
    from: int,
)
    requires
        0 <= from <= answers.len(),
    ensures
        first_answer(answers.push(last), query, from) == if first_answer(
            answers,
            query,
            from,
        ) is None && query == last.0@ {
            Some(last.1)
        } else {
            first_answer(answers, query, from)
        },
    decreases answers.len() - from,
{
    reveal_with_fuel(first_answer, 2);
    if from < answers.len() && answers[from].0@ != query {
        lemma_answer_push(answers, last, query, from + 1);
    }
}

} // verus!
