//! The description of an API as typed values: the document, its paths and
//! operations, and the schemas of its data.

use vstd::prelude::*;
use vstd::string::StringExecFns;
use crate::node::{Node, NodeView};

verus! {

/// Why a description could not be read.
#[derive(Debug, Clone, PartialEq, Eq)]
pub enum OpenApiError {
    /// The text is not JSON or YAML, or its tree does not have the shape of a
    /// description; the message says what was found.
    ParseError(String),
    /// The description declares a version that is not handled.
    UnsupportedVersion(String),
}

/// An `OpenApiError` as a mathematical value.
pub enum OpenApiErrorView {
    ParseError(Seq<char>),
    UnsupportedVersion(Seq<char>),
}

impl DeepView for OpenApiError {
    type V = OpenApiErrorView;

    open spec fn deep_view(&self) -> OpenApiErrorView {
        match self {
            OpenApiError::ParseError(m) => OpenApiErrorView::ParseError(m@),
            OpenApiError::UnsupportedVersion(v) => OpenApiErrorView::UnsupportedVersion(v@),
        }
    }
}

impl View for OpenApiError {
    type V = OpenApiErrorView;

    open spec fn view(&self) -> OpenApiErrorView {
        self.deep_view()
    }
}

impl OpenApiErrorView {
    /// The sentence that reports the error.
    pub open spec fn message(self) -> Seq<char> {
        match self {
            OpenApiErrorView::ParseError(m) => "Failed to parse OpenAPI spec: "@ + m,
            OpenApiErrorView::UnsupportedVersion(v) => "Unsupported OpenAPI version: "@ + v,
        }
    }
}

impl OpenApiError {
    /// The sentence that reports the error.
    pub fn message(&self) -> (text: String)
        ensures
            text@ == self@.message(),
    {
        match self {
            OpenApiError::ParseError(m) => {
                let mut text = "Failed to parse OpenAPI spec: ".to_owned();
                text.append(m.as_str());
                text
            },
            OpenApiError::UnsupportedVersion(v) => {
                let mut text = "Unsupported OpenAPI version: ".to_owned();
                text.append(v.as_str());
                text
            },
        }
    }
}

/// The title and the version of the described API.
#[derive(Debug, Clone, PartialEq, Eq)]
pub struct Info {
    pub title: String,
    pub version: String,
}

/// An `Info` as a mathematical value.
pub struct InfoView {
    pub title: Seq<char>,
    pub version: Seq<char>,
}

impl DeepView for Info {
    type V = InfoView;

    open spec fn deep_view(&self) -> InfoView {
        InfoView { title: self.title@, version: self.version@ }
    }
}

impl View for Info {
    type V = InfoView;

    open spec fn view(&self) -> InfoView {
        self.deep_view()
    }
}

/// The property that tells the alternatives of a `oneOf` apart. It documents
/// the schema and plays no part in what is generated.
#[derive(Debug, PartialEq, Eq)]
pub struct Discriminator {
    pub property_name: String,
    pub mapping: Option<Vec<(String, String)>>,
}

/// A `Discriminator` as a mathematical value.
pub struct DiscriminatorView {
    pub property_name: Seq<char>,
    pub mapping: Option<Seq<(Seq<char>, Seq<char>)>>,
}

impl DeepView for Discriminator {
    type V = DiscriminatorView;

    open spec fn deep_view(&self) -> DiscriminatorView {
        DiscriminatorView {
            property_name: self.property_name@,
            mapping: self.mapping.deep_view(),
        }
    }
}

impl View for Discriminator {
    type V = DiscriminatorView;

    open spec fn view(&self) -> DiscriminatorView {
        self.deep_view()
    }
}

/// The shape of a piece of data. A schema has exactly one of these forms.
#[derive(Debug, PartialEq, Eq)]
#[allow(inconsistent_fields)]
pub enum Schema {
    /// A pointer to a named schema, such as `#/components/schemas/Task`.
    Reference { ref_: String },
    /// Data that matches every one of the listed schemas.
    AllOf { all_of: Vec<Schema> },
    /// Data that matches exactly one of the listed schemas.
    OneOf { one_of: Vec<Schema>, discriminator: Option<Discriminator> },
    /// Data that matches at least one of the listed schemas.
    AnyOf { any_of: Vec<Schema> },
    /// Data that does not match the schema.
    Not { not: Box<Schema> },
    /// An object with named properties.
    Object {
        type_: Option<String>,
        properties: Option<Vec<(String, Schema)>>,
        required: Option<Vec<String>>,
        items: Option<Box<Schema>>,
        format: Option<String>,
        enum_values: Option<Vec<Node>>,
    },
    /// A primitive: `string`, `integer`, `number` or `boolean`.
    SimpleType { type_: String, format: Option<String>, enum_values: Option<Vec<Node>> },
    /// A list whose items all have one schema.
    ArrayType { type_: String, items: Box<Schema> },
}

/// A `Schema` as a mathematical value.
#[allow(inconsistent_fields)]
pub enum SchemaView {
    Reference { ref_: Seq<char> },
    AllOf { all_of: Seq<SchemaView> },
    OneOf { one_of: Seq<SchemaView>, discriminator: Option<DiscriminatorView> },
    AnyOf { any_of: Seq<SchemaView> },
    Not { not: Box<SchemaView> },
    Object {
        type_: Option<Seq<char>>,
        properties: Option<Seq<(Seq<char>, SchemaView)>>,
        required: Option<Seq<Seq<char>>>,
        items: Option<Box<SchemaView>>,
        format: Option<Seq<char>>,
        enum_values: Option<Seq<NodeView>>,
    },
    SimpleType { type_: Seq<char>, format: Option<Seq<char>>, enum_values: Option<Seq<NodeView>> },
    ArrayType { type_: Seq<char>, items: Box<SchemaView> },
}

/// The views of a list of schemas.
pub open spec fn schema_views(schemas: Vec<Schema>) -> Seq<SchemaView>
    decreases schemas, 1int,
{
    Seq::new(
        schemas.len() as nat,
        |i: int|
            if 0 <= i < schemas.len() {
                schemas[i].model()
            } else {
                arbitrary()
            },
    )
}

/// The views of a list of named schemas.
pub open spec fn named_schema_views(schemas: Vec<(String, Schema)>) -> Seq<(Seq<char>, SchemaView)>
    decreases schemas, 1int,
{
    Seq::new(
        schemas.len() as nat,
        |i: int|
            if 0 <= i < schemas.len() {
                (schemas[i].0@, schemas[i].1.model())
            } else {
                arbitrary()
            },
    )
}

impl Schema {
    /// The mathematical value of the schema.
    pub open spec fn model(self) -> SchemaView
        decreases self, 0int,
    {
        match self {
            Schema::Reference { ref_ } => SchemaView::Reference { ref_: ref_@ },
            Schema::AllOf { all_of } => SchemaView::AllOf { all_of: schema_views(all_of) },
            Schema::OneOf { one_of, discriminator } => SchemaView::OneOf {
                one_of: schema_views(one_of),
                discriminator: discriminator.deep_view(),
            },
            Schema::AnyOf { any_of } => SchemaView::AnyOf { any_of: schema_views(any_of) },
            Schema::Not { not } => SchemaView::Not { not: Box::new((*not).model()) },
            Schema::Object { type_, properties, required, items, format, enum_values } => {
                SchemaView::Object {
                    type_: type_.deep_view(),
                    properties: match properties {
                        Some(named) => Some(named_schema_views(named)),
                        None => None,
                    },
                    required: required.deep_view(),
                    items: match items {
                        Some(item) => Some(Box::new((*item).model())),
                        None => None,
                    },
                    format: format.deep_view(),
                    enum_values: enum_values.deep_view(),
                }
            },
            Schema::SimpleType { type_, format, enum_values } => SchemaView::SimpleType {
                type_: type_@,
                format: format.deep_view(),
                enum_values: enum_values.deep_view(),
            },
            Schema::ArrayType { type_, items } => SchemaView::ArrayType {
                type_: type_@,
                items: Box::new((*items).model()),
            },
        }
    }
}

impl DeepView for Schema {
    type V = SchemaView;

    open spec fn deep_view(&self) -> SchemaView {
        self.model()
    }
}

impl View for Schema {
    type V = SchemaView;

    open spec fn view(&self) -> SchemaView {
        self.model()
    }
}

/// The view of a list of schemas, as the containers of the library give it.
pub proof fn lemma_schema_views(schemas: Vec<Schema>)
    ensures
        schema_views(schemas) == schemas.deep_view(),
{
    assert(schema_views(schemas) =~= schemas.deep_view());
}

/// The view of a list of named schemas, as the containers of the library give it.
pub proof fn lemma_named_schema_views(schemas: Vec<(String, Schema)>)
    ensures
        named_schema_views(schemas) == schemas.deep_view(),
{
    assert(named_schema_views(schemas) =~= schemas.deep_view());
}

impl SchemaView {
    /// Whether the schema combines other schemas: `allOf`, `oneOf`, `anyOf` or
    /// `not`.
    pub open spec fn is_composition(self) -> bool {
        self is AllOf || self is OneOf || self is AnyOf || self is Not
    }

    /// The word that names the schema's kind: the declared type of an object,
    /// a primitive or an array, and the keyword of every other form.
    pub open spec fn kind_word(self) -> Option<Seq<char>> {
        match self {
            SchemaView::Reference { .. } => Some("reference"@),
            SchemaView::AllOf { .. } => Some("allOf"@),
            SchemaView::OneOf { .. } => Some("oneOf"@),
            SchemaView::AnyOf { .. } => Some("anyOf"@),
            SchemaView::Not { .. } => Some("not"@),
            SchemaView::Object { type_, .. } => type_,
            SchemaView::SimpleType { type_, .. } => Some(type_),
            SchemaView::ArrayType { type_, .. } => Some(type_),
        }
    }

    /// The pointer of a reference.
    pub open spec fn reference(self) -> Option<Seq<char>> {
        match self {
            SchemaView::Reference { ref_ } => Some(ref_),
            _ => None,
        }
    }
}

impl Schema {
    /// The word that names the schema's kind.
    pub fn get_type(&self) -> (name: Option<&str>)
        ensures
            name.deep_view() == self@.kind_word(),
    {
        match self {
            Schema::Reference { .. } => Some("reference"),
            Schema::AllOf { .. } => Some("allOf"),
            Schema::OneOf { .. } => Some("oneOf"),
            Schema::AnyOf { .. } => Some("anyOf"),
            Schema::Not { .. } => Some("not"),
            Schema::Object { type_, .. } => match type_ {
                Some(t) => Some(t.as_str()),
                None => None,
            },
            Schema::SimpleType { type_, .. } => Some(type_.as_str()),
            Schema::ArrayType { type_, .. } => Some(type_.as_str()),
        }
    }

    /// Whether the schema is a pointer to a named schema.
    pub fn is_reference(&self) -> (yes: bool)
        ensures
            yes == (self@ is Reference),
    {
        match self {
            Schema::Reference { .. } => true,
            _ => false,
        }
    }

    /// The pointer, where the schema is a reference.
    pub fn get_reference(&self) -> (pointer: Option<&str>)
        ensures
            pointer.deep_view() == self@.reference(),
    {
        match self {
            Schema::Reference { ref_ } => Some(ref_.as_str()),
            _ => None,
        }
    }

    /// Whether the schema combines other schemas.
    pub fn is_composition(&self) -> (yes: bool)
        ensures
            yes == self@.is_composition(),
    {
        match self {
            Schema::AllOf { .. } | Schema::OneOf { .. } | Schema::AnyOf { .. } | Schema::Not {
                ..
            } => true,
            _ => false,
        }
    }
}

/// The schema of the data sent under one media type.
#[derive(Debug, Clone, PartialEq, Eq)]
pub struct MediaType {
    pub schema: Option<Schema>,
}

/// A `MediaType` as a mathematical value.
pub struct MediaTypeView {
    pub schema: Option<SchemaView>,
}

impl DeepView for MediaType {
    type V = MediaTypeView;

    open spec fn deep_view(&self) -> MediaTypeView {
        MediaTypeView { schema: self.schema.deep_view() }
    }
}

impl View for MediaType {
    type V = MediaTypeView;

    open spec fn view(&self) -> MediaTypeView {
        self.deep_view()
    }
}

/// A parameter of an operation.
#[derive(Debug, Clone, PartialEq, Eq)]
pub struct Parameter {
    pub name: String,
    /// Where the parameter is sent: `path`, `query`, `header` or `cookie`.
    pub in_: String,
    pub required: bool,
    pub schema: Option<Schema>,
}

/// A `Parameter` as a mathematical value.
pub struct ParameterView {
    pub name: Seq<char>,
    pub in_: Seq<char>,
    pub required: bool,
    pub schema: Option<SchemaView>,
}

impl DeepView for Parameter {
    type V = ParameterView;

    open spec fn deep_view(&self) -> ParameterView {
        ParameterView {
            name: self.name@,
            in_: self.in_@,
            required: self.required,
            schema: self.schema.deep_view(),
        }
    }
}

impl View for Parameter {
    type V = ParameterView;

    open spec fn view(&self) -> ParameterView {
        self.deep_view()
    }
}

/// The body of a request, by media type.
#[derive(Debug, Clone, PartialEq, Eq)]
pub struct RequestBody {
    pub content: Vec<(String, MediaType)>,
}

/// A `RequestBody` as a mathematical value.
pub struct RequestBodyView {
    pub content: Seq<(Seq<char>, MediaTypeView)>,
}

impl DeepView for RequestBody {
    type V = RequestBodyView;

    open spec fn deep_view(&self) -> RequestBodyView {
        RequestBodyView { content: self.content.deep_view() }
    }
}

impl View for RequestBody {
    type V = RequestBodyView;

    open spec fn view(&self) -> RequestBodyView {
        self.deep_view()
    }
}

/// One answer of an operation.
#[derive(Debug, Clone, PartialEq, Eq)]
pub struct Response {
    pub description: String,
    pub content: Option<Vec<(String, MediaType)>>,
}

/// A `Response` as a mathematical value.
pub struct ResponseView {
    pub description: Seq<char>,
    pub content: Option<Seq<(Seq<char>, MediaTypeView)>>,
}

impl DeepView for Response {
    type V = ResponseView;

    open spec fn deep_view(&self) -> ResponseView {
        ResponseView { description: self.description@, content: self.content.deep_view() }
    }
}

impl View for Response {
    type V = ResponseView;

    open spec fn view(&self) -> ResponseView {
        self.deep_view()
    }
}

/// What one HTTP method does on one path.
#[derive(Debug, Clone, PartialEq, Eq)]
pub struct Operation {
    pub operation_id: Option<String>,
    pub summary: Option<String>,
    pub parameters: Option<Vec<Parameter>>,
    pub request_body: Option<RequestBody>,
    /// The answers by status code; a description read from a text has at
    /// least one.
    pub responses: Vec<(String, Response)>,
}

/// An `Operation` as a mathematical value.
pub struct OperationView {
    pub operation_id: Option<Seq<char>>,
    pub summary: Option<Seq<char>>,
    pub parameters: Option<Seq<ParameterView>>,
    pub request_body: Option<RequestBodyView>,
    pub responses: Seq<(Seq<char>, ResponseView)>,
}

impl DeepView for Operation {
    type V = OperationView;

    open spec fn deep_view(&self) -> OperationView {
        OperationView {
            operation_id: self.operation_id.deep_view(),
            summary: self.summary.deep_view(),
            parameters: self.parameters.deep_view(),
            request_body: self.request_body.deep_view(),
            responses: self.responses.deep_view(),
        }
    }
}

impl View for Operation {
    type V = OperationView;

    open spec fn view(&self) -> OperationView {
        self.deep_view()
    }
}

/// The operations of one path, at most one for each method.
#[derive(Debug, Clone, PartialEq, Eq)]
pub struct PathItem {
    pub get: Option<Operation>,
    pub post: Option<Operation>,
    pub put: Option<Operation>,
    pub delete: Option<Operation>,
}

/// A `PathItem` as a mathematical value.
pub struct PathItemView {
    pub get: Option<OperationView>,
    pub post: Option<OperationView>,
    pub put: Option<OperationView>,
    pub delete: Option<OperationView>,
}

impl DeepView for PathItem {
    type V = PathItemView;

    open spec fn deep_view(&self) -> PathItemView {
        PathItemView {
            get: self.get.deep_view(),
            post: self.post.deep_view(),
            put: self.put.deep_view(),
            delete: self.delete.deep_view(),
        }
    }
}

impl View for PathItem {
    type V = PathItemView;

    open spec fn view(&self) -> PathItemView {
        self.deep_view()
    }
}

/// The named schemas of a description: the only source of generated types.
#[derive(Debug, Clone, PartialEq, Eq)]
pub struct Components {
    pub schemas: Vec<(String, Schema)>,
}

/// A `Components` as a mathematical value.
pub struct ComponentsView {
    pub schemas: Seq<(Seq<char>, SchemaView)>,
}

impl DeepView for Components {
    type V = ComponentsView;

    open spec fn deep_view(&self) -> ComponentsView {
        ComponentsView { schemas: self.schemas.deep_view() }
    }
}

impl View for Components {
    type V = ComponentsView;

    open spec fn view(&self) -> ComponentsView {
        self.deep_view()
    }
}

/// A whole description.
#[derive(Debug, Clone, PartialEq, Eq)]
pub struct OpenApiSpec {
    pub openapi: String,
    pub info: Info,
    /// The operations by URL template.
    pub paths: Vec<(String, PathItem)>,
    pub components: Option<Components>,
}

/// An `OpenApiSpec` as a mathematical value.
pub struct OpenApiSpecView {
    pub openapi: Seq<char>,
    pub info: InfoView,
    pub paths: Seq<(Seq<char>, PathItemView)>,
    pub components: Option<ComponentsView>,
}

impl DeepView for OpenApiSpec {
    type V = OpenApiSpecView;

    open spec fn deep_view(&self) -> OpenApiSpecView {
        OpenApiSpecView {
            openapi: self.openapi@,
            info: self.info@,
            paths: self.paths.deep_view(),
            components: self.components.deep_view(),
        }
    }
}

impl View for OpenApiSpec {
    type V = OpenApiSpecView;

    open spec fn view(&self) -> OpenApiSpecView {
        self.deep_view()
    }
}

/// A copy of a list of texts.
pub fn copy_texts(texts: &Vec<String>) -> (copies: Vec<String>)
    ensures
        copies.deep_view() == texts.deep_view(),
{
    let mut copies: Vec<String> = Vec::new();
    let mut i: usize = 0;
    while i < texts.len()
        invariant
            i <= texts.len(),
            copies.len() == i,
            forall|k: int| 0 <= k < i ==> (#[trigger] copies[k])@ == texts[k]@,
        decreases texts.len() - i,
    {
        copies.push(texts[i].clone());
        i += 1;
    }
    assert(copies.deep_view() =~= texts.deep_view());
    copies
}

/// A copy of a list of values.
pub fn copy_nodes(nodes: &Vec<Node>) -> (copies: Vec<Node>)
    ensures
        copies.deep_view() == nodes.deep_view(),
{
    let mut copies: Vec<Node> = Vec::new();
    let mut i: usize = 0;
    while i < nodes.len()
        invariant
            i <= nodes.len(),
            copies.len() == i,
            forall|k: int| 0 <= k < i ==> (#[trigger] copies[k])@ == nodes[k]@,
        decreases nodes.len() - i,
    {
        copies.push(nodes[i].clone());
        i += 1;
    }
    assert(copies.deep_view() =~= nodes.deep_view());
    copies
}

/// A copy of a text that may be absent.
pub fn copy_optional_text(text: &Option<String>) -> (copy: Option<String>)
    ensures
        copy.deep_view() == text.deep_view(),
{
    match text {
        Some(t) => Some(t.clone()),
        None => None,
    }
}

/// A copy of a list of values that may be absent.
pub fn copy_optional_nodes(nodes: &Option<Vec<Node>>) -> (copy: Option<Vec<Node>>)
    ensures
        copy.deep_view() == nodes.deep_view(),
{
    match nodes {
        Some(list) => Some(copy_nodes(list)),
        None => None,
    }
}

impl Clone for Discriminator {
    fn clone(&self) -> (copy: Discriminator)
        ensures
            copy@ == self@,
    {
        let mapping = match &self.mapping {
            Some(pairs) => {
                let mut copies: Vec<(String, String)> = Vec::new();
                let mut i: usize = 0;
                while i < pairs.len()
                    invariant
                        i <= pairs.len(),
                        copies.len() == i,
                        forall|k: int|
                            0 <= k < i ==> (#[trigger] copies[k]).0@ == pairs[k].0@ && copies[k].1@
                                == pairs[k].1@,
                    decreases pairs.len() - i,
                {
                    copies.push((pairs[i].0.clone(), pairs[i].1.clone()));
                    i += 1;
                }
                assert(copies.deep_view() =~= pairs.deep_view());
                Some(copies)
            },
            None => None,
        };
        Discriminator { property_name: self.property_name.clone(), mapping }
    }
}

/// A copy of a list of schemas.
pub fn copy_schemas(schemas: &Vec<Schema>) -> (copies: Vec<Schema>)
    ensures
        schema_views(copies) == schema_views(*schemas),
    decreases schemas,
{
    let mut copies: Vec<Schema> = Vec::new();
    let mut i: usize = 0;
    while i < schemas.len()
        invariant
            i <= schemas.len(),
            copies.len() == i,
            forall|k: int| 0 <= k < i ==> (#[trigger] copies[k])@ == schemas[k]@,
        decreases schemas.len() - i,
    {
        copies.push(schemas[i].duplicate());
        i += 1;
    }
    assert(schema_views(copies) =~= schema_views(*schemas));
    copies
}

/// A copy of a list of named schemas.
pub fn copy_named_schemas(schemas: &Vec<(String, Schema)>) -> (copies: Vec<(String, Schema)>)
    ensures
        named_schema_views(copies) == named_schema_views(*schemas),
    decreases schemas,
{
    let mut copies: Vec<(String, Schema)> = Vec::new();
    let mut i: usize = 0;
    while i < schemas.len()
        invariant
            i <= schemas.len(),
            copies.len() == i,
            forall|k: int|
                0 <= k < i ==> (#[trigger] copies[k]).0@ == schemas[k].0@ && copies[k].1@
                    == schemas[k].1@,
        decreases schemas.len() - i,
    {
        copies.push((schemas[i].0.clone(), schemas[i].1.duplicate()));
        i += 1;
    }
    assert(named_schema_views(copies) =~= named_schema_views(*schemas));
    copies
}

impl Schema {
    /// A copy of the schema.
    pub fn duplicate(&self) -> (copy: Schema)
        ensures
            copy@ == self@,
        decreases self,
    {
        match self {
            Schema::Reference { ref_ } => Schema::Reference { ref_: ref_.clone() },
            Schema::AllOf { all_of } => Schema::AllOf { all_of: copy_schemas(all_of) },
            Schema::OneOf { one_of, discriminator } => Schema::OneOf {
                one_of: copy_schemas(one_of),
                discriminator: match discriminator {
                    Some(d) => Some(d.clone()),
                    None => None,
                },
            },
            Schema::AnyOf { any_of } => Schema::AnyOf { any_of: copy_schemas(any_of) },
            Schema::Not { not } => Schema::Not { not: Box::new(not.duplicate()) },
            Schema::Object { type_, properties, required, items, format, enum_values } => {
                Schema::Object {
                    type_: copy_optional_text(type_),
                    properties: match properties {
                        Some(named) => Some(copy_named_schemas(named)),
                        None => None,
                    },
                    required: match required {
                        Some(list) => Some(copy_texts(list)),
                        None => None,
                    },
                    items: match items {
                        Some(item) => Some(Box::new(item.duplicate())),
                        None => None,
                    },
                    format: copy_optional_text(format),
                    enum_values: copy_optional_nodes(enum_values),
                }
            },
            Schema::SimpleType { type_, format, enum_values } => Schema::SimpleType {
                type_: type_.clone(),
                format: copy_optional_text(format),
                enum_values: copy_optional_nodes(enum_values),
            },
            Schema::ArrayType { type_, items } => Schema::ArrayType {
                type_: type_.clone(),
                items: Box::new(items.duplicate()),
            },
        }
    }
}

impl Clone for Schema {
    fn clone(&self) -> (copy: Schema)
        ensures
            copy@ == self@,
    {
        self.duplicate()
    }
}

} // verus!
