//! What lowering produces before any text is written: type expressions, data
//! type definitions and routes, and the failures of lowering.

use vstd::prelude::*;
use vstd::string::StringExecFns;

verus! {

/// Why a description could not be lowered. Nothing is generated then.
#[derive(Debug, Clone, PartialEq, Eq)]
pub enum GenerateError {
    /// A schema combines other schemas; it holds the keyword: `allOf`,
    /// `oneOf`, `anyOf` or `not`.
    UnsupportedConstruct(String),
    /// A reference points to no named schema; it holds the pointer.
    UnresolvedReference(String),
    /// Two names give the same identifier; it holds the identifier.
    IdentifierCollision(String),
}

/// A `GenerateError` as a mathematical value.
pub enum GenerateErrorView {
    UnsupportedConstruct(Seq<char>),
    UnresolvedReference(Seq<char>),
    IdentifierCollision(Seq<char>),
}

impl DeepView for GenerateError {
    type V = GenerateErrorView;

    open spec fn deep_view(&self) -> GenerateErrorView {
        match self {
            GenerateError::UnsupportedConstruct(k) => GenerateErrorView::UnsupportedConstruct(k@),
            GenerateError::UnresolvedReference(p) => GenerateErrorView::UnresolvedReference(p@),
            GenerateError::IdentifierCollision(i) => GenerateErrorView::IdentifierCollision(i@),
        }
    }
}

impl View for GenerateError {
    type V = GenerateErrorView;

    open spec fn view(&self) -> GenerateErrorView {
        self.deep_view()
    }
}

impl GenerateErrorView {
    /// How early a failure is reported: an unsupported construct before an
    /// unresolved reference, and that before a collision of identifiers.
    pub open spec fn rank(self) -> int {
        match self {
            GenerateErrorView::UnsupportedConstruct(_) => 0,
            GenerateErrorView::UnresolvedReference(_) => 1,
            GenerateErrorView::IdentifierCollision(_) => 2,
        }
    }

    /// The sentence that reports the failure.
    pub open spec fn message(self) -> Seq<char> {
        match self {
            GenerateErrorView::UnsupportedConstruct(k) => "Unsupported schema construct: "@ + k,
            GenerateErrorView::UnresolvedReference(p) => "Unresolved reference: "@ + p,
            GenerateErrorView::IdentifierCollision(i) => "Identifier collision: "@ + i,
        }
    }
}

impl GenerateError {
    /// The sentence that reports the failure.
    pub fn message(&self) -> (text: String)
        ensures
            text@ == self@.message(),
    {
        match self {
            GenerateError::UnsupportedConstruct(k) => {
                let mut text = "Unsupported schema construct: ".to_owned();
                text.append(k.as_str());
                text
            },
            GenerateError::UnresolvedReference(p) => {
                let mut text = "Unresolved reference: ".to_owned();
                text.append(p.as_str());
                text
            },
            GenerateError::IdentifierCollision(i) => {
                let mut text = "Identifier collision: ".to_owned();
                text.append(i.as_str());
                text
            },
        }
    }
}

/// A type of the generated code.
#[derive(Debug, PartialEq, Eq)]
pub enum TypeExpr {
    /// A generated data type, by its identifier.
    Named(String),
    /// A list of values of one type.
    Sequence(Box<TypeExpr>),
    /// Any JSON value.
    Untyped,
    /// A UUID.
    Uuid,
    /// A text.
    Text,
    /// A 32-bit integer.
    Int32,
    /// A 64-bit integer.
    Int64,
    /// A 64-bit floating-point number.
    Float64,
    /// A truth value.
    Boolean,
}

/// A `TypeExpr` as a mathematical value.
pub enum TypeExprView {
    Named(Seq<char>),
    Sequence(Box<TypeExprView>),
    Untyped,
    Uuid,
    Text,
    Int32,
    Int64,
    Float64,
    Boolean,
}

impl TypeExpr {
    /// The mathematical value of the type expression.
    pub open spec fn model(self) -> TypeExprView
        decreases self,
    {
        match self {
            TypeExpr::Named(name) => TypeExprView::Named(name@),
            TypeExpr::Sequence(item) => TypeExprView::Sequence(Box::new((*item).model())),
            TypeExpr::Untyped => TypeExprView::Untyped,
            TypeExpr::Uuid => TypeExprView::Uuid,
            TypeExpr::Text => TypeExprView::Text,
            TypeExpr::Int32 => TypeExprView::Int32,
            TypeExpr::Int64 => TypeExprView::Int64,
            TypeExpr::Float64 => TypeExprView::Float64,
            TypeExpr::Boolean => TypeExprView::Boolean,
        }
    }
}

impl TypeExpr {
    /// A copy of the type expression.
    pub fn duplicate(&self) -> (copy: TypeExpr)
        ensures
            copy@ == self@,
        decreases self,
    {
        match self {
            TypeExpr::Named(name) => TypeExpr::Named(name.clone()),
            TypeExpr::Sequence(item) => TypeExpr::Sequence(Box::new(item.duplicate())),
            TypeExpr::Untyped => TypeExpr::Untyped,
            TypeExpr::Uuid => TypeExpr::Uuid,
            TypeExpr::Text => TypeExpr::Text,
            TypeExpr::Int32 => TypeExpr::Int32,
            TypeExpr::Int64 => TypeExpr::Int64,
            TypeExpr::Float64 => TypeExpr::Float64,
            TypeExpr::Boolean => TypeExpr::Boolean,
        }
    }
}

impl Clone for TypeExpr {
    fn clone(&self) -> (copy: TypeExpr)
        ensures
            copy@ == self@,
    {
        self.duplicate()
    }
}

impl DeepView for TypeExpr {
    type V = TypeExprView;

    open spec fn deep_view(&self) -> TypeExprView {
        self.model()
    }
}

impl View for TypeExpr {
    type V = TypeExprView;

    open spec fn view(&self) -> TypeExprView {
        self.model()
    }
}

/// One field of a generated data type.
#[derive(Debug, Clone, PartialEq, Eq)]
pub struct FieldDef {
    pub name: String,
    pub ty: TypeExpr,
    /// Whether the field may be absent.
    pub optional: bool,
}

/// A `FieldDef` as a mathematical value.
pub struct FieldDefView {
    pub name: Seq<char>,
    pub ty: TypeExprView,
    pub optional: bool,
}

impl DeepView for FieldDef {
    type V = FieldDefView;

    open spec fn deep_view(&self) -> FieldDefView {
        FieldDefView { name: self.name@, ty: self.ty@, optional: self.optional }
    }
}

impl View for FieldDef {
    type V = FieldDefView;

    open spec fn view(&self) -> FieldDefView {
        self.deep_view()
    }
}

/// What a generated data type holds.
#[derive(Debug, Clone, PartialEq, Eq)]
pub enum StructBody {
    /// One public field for each property, in the order of the properties'
    /// names.
    Record(Vec<FieldDef>),
    /// One private field, `value`, of the given type.
    Wrapper(TypeExpr),
}

/// A `StructBody` as a mathematical value.
pub enum StructBodyView {
    Record(Seq<FieldDefView>),
    Wrapper(TypeExprView),
}

impl DeepView for StructBody {
    type V = StructBodyView;

    open spec fn deep_view(&self) -> StructBodyView {
        match self {
            StructBody::Record(fields) => StructBodyView::Record(fields.deep_view()),
            StructBody::Wrapper(ty) => StructBodyView::Wrapper(ty@),
        }
    }
}

impl View for StructBody {
    type V = StructBodyView;

    open spec fn view(&self) -> StructBodyView {
        self.deep_view()
    }
}

/// A generated data type.
#[derive(Debug, Clone, PartialEq, Eq)]
pub struct StructDef {
    pub name: String,
    pub body: StructBody,
}

/// A `StructDef` as a mathematical value.
pub struct StructDefView {
    pub name: Seq<char>,
    pub body: StructBodyView,
}

impl DeepView for StructDef {
    type V = StructDefView;

    open spec fn deep_view(&self) -> StructDefView {
        StructDefView { name: self.name@, body: self.body@ }
    }
}

impl View for StructDef {
    type V = StructDefView;

    open spec fn view(&self) -> StructDefView {
        self.deep_view()
    }
}

/// A route: the method and the path under which a handler is registered.
#[derive(Debug, Clone, PartialEq, Eq)]
pub struct RouteDef {
    /// The HTTP method in lower case.
    pub method: String,
    pub path: String,
    pub handler: String,
}

/// A `RouteDef` as a mathematical value.
pub struct RouteDefView {
    pub method: Seq<char>,
    pub path: Seq<char>,
    pub handler: Seq<char>,
}

impl DeepView for RouteDef {
    type V = RouteDefView;

    open spec fn deep_view(&self) -> RouteDefView {
        RouteDefView { method: self.method@, path: self.path@, handler: self.handler@ }
    }
}

impl View for RouteDef {
    type V = RouteDefView;

    open spec fn view(&self) -> RouteDefView {
        self.deep_view()
    }
}

} // verus!
