//! What a tree means as a description: for each part of a description, the
//! value that a tree of the right shape stands for, and the complaint about
//! any other tree.
//!
//! A member whose value is null counts as absent, the first of several
//! members with one name counts, and members that a part does not know are
//! passed over. A dictionary that holds a name twice is refused.

use vstd::prelude::*;
use crate::model::{
    ComponentsView, DiscriminatorView, InfoView, MediaTypeView, OpenApiErrorView, OpenApiSpecView,
    OperationView, ParameterView, PathItemView, RequestBodyView, ResponseView, SchemaView,
};
use crate::names::{first_repeat, names_of};
use crate::node::NodeView;

verus! {

/// The complaint that `part` is missing.
pub open spec fn missing(part: Seq<char>) -> OpenApiErrorView {
    OpenApiErrorView::ParseError("missing field `"@ + part + "`"@)
}

/// The complaint that `part` is not `wanted`.
pub open spec fn mistyped(part: Seq<char>, wanted: Seq<char>) -> OpenApiErrorView {
    OpenApiErrorView::ParseError("invalid type for `"@ + part + "`: expected "@ + wanted)
}

/// The complaint that a dictionary holds `name` twice.
pub open spec fn duplicate(name: Seq<char>) -> OpenApiErrorView {
    OpenApiErrorView::ParseError("duplicate entry `"@ + name + "`"@)
}

/// The complaint that a tree has none of the forms of a schema.
pub open spec fn no_schema_form() -> OpenApiErrorView {
    OpenApiErrorView::ParseError("data did not match any variant of untagged enum Schema"@)
}

/// The complaint that an operation has no response.
pub open spec fn no_response() -> OpenApiErrorView {
    OpenApiErrorView::ParseError("invalid value for `responses`: expected at least one response"@)
}

/// The first position at or behind `start` that holds a member named `key`,
/// where its value is not null.
pub open spec fn position_from(members: Seq<(Seq<char>, NodeView)>, key: Seq<char>, start: int)
    -> Option<int>
    decreases members.len() - start,
{
    if start < 0 || start >= members.len() {
        None
    } else if members[start].0 == key {
        if members[start].1 is Null {
            None
        } else {
            Some(start)
        }
    } else {
        position_from(members, key, start + 1)
    }
}

/// The position of the member named `key`.
pub open spec fn position(members: Seq<(Seq<char>, NodeView)>, key: Seq<char>) -> Option<int> {
    position_from(members, key, 0)
}

/// Whether a member named `key` is present.
pub open spec fn holds(members: Seq<(Seq<char>, NodeView)>, key: Seq<char>) -> bool {
    position(members, key) is Some
}

/// The value of the member named `key`.
pub open spec fn member(members: Seq<(Seq<char>, NodeView)>, key: Seq<char>) -> Option<NodeView> {
    match position(members, key) {
        Some(i) => Some(members[i].1),
        None => None,
    }
}

/// The first complaint among `results`.
pub open spec fn first_complaint<T>(results: Seq<Result<T, OpenApiErrorView>>) -> Option<
    OpenApiErrorView,
>
    decreases results.len(),
{
    if results.len() == 0 {
        None
    } else {
        match first_complaint(results.drop_last()) {
            Some(e) => Some(e),
            None => match results.last() {
                Ok(_) => None,
                Err(e) => Some(e),
            },
        }
    }
}

/// What the results hold, where none is a complaint; else the first
/// complaint.
pub open spec fn all_of<T>(results: Seq<Result<T, OpenApiErrorView>>) -> Result<
    Seq<T>,
    OpenApiErrorView,
> {
    match first_complaint(results) {
        Some(e) => Err(e),
        None => Ok(results.map_values(|r: Result<T, OpenApiErrorView>| r->Ok_0)),
    }
}

/// The entries of a dictionary, given what each member's value was read as:
/// each name with its value. The first complaint about a value is reported,
/// and where there is none, the first name that stands twice.
pub open spec fn named<T>(
    members: Seq<(Seq<char>, NodeView)>,
    read: Seq<Result<T, OpenApiErrorView>>,
) -> Result<Seq<(Seq<char>, T)>, OpenApiErrorView> {
    match all_of(read) {
        Ok(values) => match first_repeat(names_of(members)) {
            Some(k) => Err(duplicate(names_of(members)[k])),
            None => Ok(Seq::new(members.len(), |i: int| (members[i].0, values[i]))),
        },
        Err(e) => Err(e),
    }
}

/// A required text.
pub open spec fn text_at(members: Seq<(Seq<char>, NodeView)>, key: Seq<char>) -> Result<
    Seq<char>,
    OpenApiErrorView,
> {
    match member(members, key) {
        Some(NodeView::Text(t)) => Ok(t),
        Some(_) => Err(mistyped(key, "a string"@)),
        None => Err(missing(key)),
    }
}

/// A text that may be absent.
pub open spec fn optional_text_at(members: Seq<(Seq<char>, NodeView)>, key: Seq<char>) -> Result<
    Option<Seq<char>>,
    OpenApiErrorView,
> {
    match member(members, key) {
        Some(NodeView::Text(t)) => Ok(Some(t)),
        Some(_) => Err(mistyped(key, "a string"@)),
        None => Ok(None),
    }
}

/// A required truth value.
pub open spec fn flag_at(members: Seq<(Seq<char>, NodeView)>, key: Seq<char>) -> Result<
    bool,
    OpenApiErrorView,
> {
    match member(members, key) {
        Some(NodeView::Bool(b)) => Ok(b),
        Some(_) => Err(mistyped(key, "a boolean"@)),
        None => Err(missing(key)),
    }
}

/// A text, where the node is one.
pub open spec fn text_of_node(node: NodeView, part: Seq<char>) -> Result<
    Seq<char>,
    OpenApiErrorView,
> {
    match node {
        NodeView::Text(t) => Ok(t),
        _ => Err(mistyped(part, "a string"@)),
    }
}

/// A list of texts.
pub open spec fn texts_in(node: NodeView, part: Seq<char>) -> Result<
    Seq<Seq<char>>,
    OpenApiErrorView,
> {
    match node {
        NodeView::Sequence(items) => all_of(
            items.map_values(|item: NodeView| text_of_node(item, part)),
        ),
        _ => Err(mistyped(part, "a sequence"@)),
    }
}

/// A list of texts that may be absent.
pub open spec fn optional_texts_at(members: Seq<(Seq<char>, NodeView)>, key: Seq<char>) -> Result<
    Option<Seq<Seq<char>>>,
    OpenApiErrorView,
> {
    match member(members, key) {
        Some(node) => match texts_in(node, key) {
            Ok(texts) => Ok(Some(texts)),
            Err(e) => Err(e),
        },
        None => Ok(None),
    }
}

/// A list of values of any kind that may be absent.
pub open spec fn optional_values_at(members: Seq<(Seq<char>, NodeView)>, key: Seq<char>) -> Result<
    Option<Seq<NodeView>>,
    OpenApiErrorView,
> {
    match member(members, key) {
        Some(NodeView::Sequence(items)) => Ok(Some(items)),
        Some(_) => Err(mistyped(key, "a sequence"@)),
        None => Ok(None),
    }
}

/// A dictionary of texts.
pub open spec fn text_entries_in(node: NodeView, part: Seq<char>) -> Result<
    Seq<(Seq<char>, Seq<char>)>,
    OpenApiErrorView,
> {
    match node {
        NodeView::Mapping(members) => named(
            members,
            members.map_values(|m: (Seq<char>, NodeView)| text_of_node(m.1, part)),
        ),
        _ => Err(mistyped(part, "a mapping"@)),
    }
}

/// The title and version of a description.
pub open spec fn info_of(node: NodeView) -> Result<InfoView, OpenApiErrorView> {
    match node {
        NodeView::Mapping(members) => {
            let title = text_at(members, "title"@);
            let version = text_at(members, "version"@);
            if title is Err {
                Err(title->Err_0)
            } else if version is Err {
                Err(version->Err_0)
            } else {
                Ok(InfoView { title: title->Ok_0, version: version->Ok_0 })
            }
        },
        _ => Err(mistyped("info"@, "a mapping"@)),
    }
}

/// The discriminator of a `oneOf`.
pub open spec fn discriminator_of(node: NodeView) -> Result<DiscriminatorView, OpenApiErrorView> {
    match node {
        NodeView::Mapping(members) => {
            let property_name = text_at(members, "propertyName"@);
            let mapping = match member(members, "mapping"@) {
                Some(entries) => match text_entries_in(entries, "mapping"@) {
                    Ok(pairs) => Ok(Some(pairs)),
                    Err(e) => Err(e),
                },
                None => Ok(None),
            };
            if property_name is Err {
                Err(property_name->Err_0)
            } else if mapping is Err {
                Err(mapping->Err_0)
            } else {
                Ok(
                    DiscriminatorView {
                        property_name: property_name->Ok_0,
                        mapping: mapping->Ok_0,
                    },
                )
            }
        },
        _ => Err(mistyped("discriminator"@, "a mapping"@)),
    }
}

/// A discriminator that may be absent.
pub open spec fn optional_discriminator_at(members: Seq<(Seq<char>, NodeView)>) -> Result<
    Option<DiscriminatorView>,
    OpenApiErrorView,
> {
    match member(members, "discriminator"@) {
        Some(node) => match discriminator_of(node) {
            Ok(d) => Ok(Some(d)),
            Err(e) => Err(e),
        },
        None => Ok(None),
    }
}

/// Whether the member `type` is the text `word`.
pub open spec fn declares(members: Seq<(Seq<char>, NodeView)>, word: Seq<char>) -> bool {
    member(members, "type"@) == Some(NodeView::Text(word))
}

/// The schema that a mapping stands for, given what each member's value is
/// when it is read as a schema, as a list of schemas, and as a dictionary of
/// schemas.
///
/// The forms are tried in a fixed order, and the first that fits decides: a
/// reference (the mapping has `$ref`); a combination (`allOf`, then `oneOf`,
/// then `anyOf`, then `not`); an array (`items`, and `type` is `array`); an
/// object (`properties`, or `type` is `object`); a primitive (`type` is a
/// text). A mapping that fits a form and has a member of the wrong kind is
/// refused: no later form is tried.
pub open spec fn schema_of_members(
    members: Seq<(Seq<char>, NodeView)>,
    single: Seq<Result<SchemaView, OpenApiErrorView>>,
    lists: Seq<Result<Seq<SchemaView>, OpenApiErrorView>>,
    tables: Seq<Result<Seq<(Seq<char>, SchemaView)>, OpenApiErrorView>>,
) -> Result<SchemaView, OpenApiErrorView> {
    if holds(members, "$ref"@) {
        match text_at(members, "$ref"@) {
            Ok(pointer) => Ok(SchemaView::Reference { ref_: pointer }),
            Err(e) => Err(e),
        }
    } else if holds(members, "allOf"@) {
        match lists[position(members, "allOf"@)->0] {
            Ok(all_of) => Ok(SchemaView::AllOf { all_of }),
            Err(e) => Err(e),
        }
    } else if holds(members, "oneOf"@) {
        let one_of = lists[position(members, "oneOf"@)->0];
        let discriminator = optional_discriminator_at(members);
        if one_of is Err {
            Err(one_of->Err_0)
        } else if discriminator is Err {
            Err(discriminator->Err_0)
        } else {
            Ok(SchemaView::OneOf { one_of: one_of->Ok_0, discriminator: discriminator->Ok_0 })
        }
    } else if holds(members, "anyOf"@) {
        match lists[position(members, "anyOf"@)->0] {
            Ok(any_of) => Ok(SchemaView::AnyOf { any_of }),
            Err(e) => Err(e),
        }
    } else if holds(members, "not"@) {
        match single[position(members, "not"@)->0] {
            Ok(not) => Ok(SchemaView::Not { not: Box::new(not) }),
            Err(e) => Err(e),
        }
    } else if holds(members, "items"@) && declares(members, "array"@) {
        match single[position(members, "items"@)->0] {
            Ok(items) => Ok(SchemaView::ArrayType { type_: "array"@, items: Box::new(items) }),
            Err(e) => Err(e),
        }
    } else if holds(members, "properties"@) || declares(members, "object"@) {
        let type_ = optional_text_at(members, "type"@);
        let properties = match position(members, "properties"@) {
            Some(i) => match tables[i] {
                Ok(entries) => Ok(Some(entries)),
                Err(e) => Err(e),
            },
            None => Ok(None),
        };
        let required = optional_texts_at(members, "required"@);
        let items = match position(members, "items"@) {
            Some(i) => match single[i] {
                Ok(item) => Ok(Some(Box::new(item))),
                Err(e) => Err(e),
            },
            None => Ok(None),
        };
        let format = optional_text_at(members, "format"@);
        let enum_values = optional_values_at(members, "enum"@);
        if type_ is Err {
            Err(type_->Err_0)
        } else if properties is Err {
            Err(properties->Err_0)
        } else if required is Err {
            Err(required->Err_0)
        } else if items is Err {
            Err(items->Err_0)
        } else if format is Err {
            Err(format->Err_0)
        } else if enum_values is Err {
            Err(enum_values->Err_0)
        } else {
            Ok(
                SchemaView::Object {
                    type_: type_->Ok_0,
                    properties: properties->Ok_0,
                    required: required->Ok_0,
                    items: items->Ok_0,
                    format: format->Ok_0,
                    enum_values: enum_values->Ok_0,
                },
            )
        }
    } else {
        match member(members, "type"@) {
            Some(NodeView::Text(word)) => {
                let format = optional_text_at(members, "format"@);
                let enum_values = optional_values_at(members, "enum"@);
                if format is Err {
                    Err(format->Err_0)
                } else if enum_values is Err {
                    Err(enum_values->Err_0)
                } else {
                    Ok(
                        SchemaView::SimpleType {
                            type_: word,
                            format: format->Ok_0,
                            enum_values: enum_values->Ok_0,
                        },
                    )
                }
            },
            _ => Err(no_schema_form()),
        }
    }
}

/// Each of `items` read as a schema.
pub open spec fn schema_of_each(items: Seq<NodeView>) -> Seq<Result<SchemaView, OpenApiErrorView>>
    decreases items, 0int,
{
    Seq::new(
        items.len(),
        |i: int|
            if 0 <= i < items.len() {
                schema_of(items[i])
            } else {
                arbitrary()
            },
    )
}

/// The value of each of `members` read as a schema.
pub open spec fn schema_of_each_value(members: Seq<(Seq<char>, NodeView)>) -> Seq<
    Result<SchemaView, OpenApiErrorView>,
>
    decreases members, 0int,
{
    Seq::new(
        members.len(),
        |i: int|
            if 0 <= i < members.len() {
                schema_of(members[i].1)
            } else {
                arbitrary()
            },
    )
}

/// The value of each of `members` read as a list of schemas.
pub open spec fn schemas_in_each_value(members: Seq<(Seq<char>, NodeView)>) -> Seq<
    Result<Seq<SchemaView>, OpenApiErrorView>,
>
    decreases members, 0int,
{
    Seq::new(
        members.len(),
        |i: int|
            if 0 <= i < members.len() {
                schemas_in(members[i].1)
            } else {
                arbitrary()
            },
    )
}

/// The value of each of `members` read as a dictionary of schemas.
pub open spec fn named_schemas_in_each_value(members: Seq<(Seq<char>, NodeView)>) -> Seq<
    Result<Seq<(Seq<char>, SchemaView)>, OpenApiErrorView>,
>
    decreases members, 0int,
{
    Seq::new(
        members.len(),
        |i: int|
            if 0 <= i < members.len() {
                named_schemas_in(members[i].1)
            } else {
                arbitrary()
            },
    )
}

/// The schema that a tree stands for.
pub open spec fn schema_of(node: NodeView) -> Result<SchemaView, OpenApiErrorView>
    decreases node, 1int,
{
    match node {
        NodeView::Mapping(members) => schema_of_members(
            members,
            schema_of_each_value(members),
            schemas_in_each_value(members),
            named_schemas_in_each_value(members),
        ),
        _ => Err(mistyped("schema"@, "a mapping"@)),
    }
}

/// The list of schemas that a tree stands for.
pub open spec fn schemas_in(node: NodeView) -> Result<Seq<SchemaView>, OpenApiErrorView>
    decreases node, 1int,
{
    match node {
        NodeView::Sequence(items) => all_of(schema_of_each(items)),
        _ => Err(mistyped("schemas"@, "a sequence"@)),
    }
}

/// The dictionary of schemas that a tree stands for.
pub open spec fn named_schemas_in(node: NodeView) -> Result<
    Seq<(Seq<char>, SchemaView)>,
    OpenApiErrorView,
>
    decreases node, 1int,
{
    match node {
        NodeView::Mapping(members) => named(members, schema_of_each_value(members)),
        _ => Err(mistyped("schemas"@, "a mapping"@)),
    }
}

/// A schema that may be absent.
pub open spec fn optional_schema_at(members: Seq<(Seq<char>, NodeView)>) -> Result<
    Option<SchemaView>,
    OpenApiErrorView,
> {
    match member(members, "schema"@) {
        Some(node) => match schema_of(node) {
            Ok(s) => Ok(Some(s)),
            Err(e) => Err(e),
        },
        None => Ok(None),
    }
}

/// The schema of the data sent under one media type.
pub open spec fn media_type_of(node: NodeView) -> Result<MediaTypeView, OpenApiErrorView> {
    match node {
        NodeView::Mapping(members) => match optional_schema_at(members) {
            Ok(schema) => Ok(MediaTypeView { schema }),
            Err(e) => Err(e),
        },
        _ => Err(mistyped("media type"@, "a mapping"@)),
    }
}

/// The dictionary of media types that a tree stands for.
pub open spec fn content_in(node: NodeView) -> Result<
    Seq<(Seq<char>, MediaTypeView)>,
    OpenApiErrorView,
> {
    match node {
        NodeView::Mapping(members) => named(
            members,
            members.map_values(|m: (Seq<char>, NodeView)| media_type_of(m.1)),
        ),
        _ => Err(mistyped("content"@, "a mapping"@)),
    }
}

/// A parameter of an operation.
pub open spec fn parameter_of(node: NodeView) -> Result<ParameterView, OpenApiErrorView> {
    match node {
        NodeView::Mapping(members) => {
            let name = text_at(members, "name"@);
            let in_ = text_at(members, "in"@);
            let required = flag_at(members, "required"@);
            let schema = optional_schema_at(members);
            if name is Err {
                Err(name->Err_0)
            } else if in_ is Err {
                Err(in_->Err_0)
            } else if required is Err {
                Err(required->Err_0)
            } else if schema is Err {
                Err(schema->Err_0)
            } else {
                Ok(
                    ParameterView {
                        name: name->Ok_0,
                        in_: in_->Ok_0,
                        required: required->Ok_0,
                        schema: schema->Ok_0,
                    },
                )
            }
        },
        _ => Err(mistyped("parameter"@, "a mapping"@)),
    }
}

/// The list of parameters that a tree stands for.
pub open spec fn parameters_in(node: NodeView) -> Result<Seq<ParameterView>, OpenApiErrorView> {
    match node {
        NodeView::Sequence(items) => all_of(items.map_values(|item: NodeView| parameter_of(item))),
        _ => Err(mistyped("parameters"@, "a sequence"@)),
    }
}

/// The body of a request.
pub open spec fn request_body_of(node: NodeView) -> Result<RequestBodyView, OpenApiErrorView> {
    match node {
        NodeView::Mapping(members) => match member(members, "content"@) {
            Some(content) => match content_in(content) {
                Ok(entries) => Ok(RequestBodyView { content: entries }),
                Err(e) => Err(e),
            },
            None => Err(missing("content"@)),
        },
        _ => Err(mistyped("requestBody"@, "a mapping"@)),
    }
}

/// One answer of an operation.
pub open spec fn response_of(node: NodeView) -> Result<ResponseView, OpenApiErrorView> {
    match node {
        NodeView::Mapping(members) => {
            let description = text_at(members, "description"@);
            let content = match member(members, "content"@) {
                Some(entries) => match content_in(entries) {
                    Ok(c) => Ok(Some(c)),
                    Err(e) => Err(e),
                },
                None => Ok(None),
            };
            if description is Err {
                Err(description->Err_0)
            } else if content is Err {
                Err(content->Err_0)
            } else {
                Ok(ResponseView { description: description->Ok_0, content: content->Ok_0 })
            }
        },
        _ => Err(mistyped("response"@, "a mapping"@)),
    }
}

/// The dictionary of answers that a tree stands for, be it empty.
pub open spec fn response_entries_in(node: NodeView) -> Result<
    Seq<(Seq<char>, ResponseView)>,
    OpenApiErrorView,
> {
    match node {
        NodeView::Mapping(members) => named(
            members,
            members.map_values(|m: (Seq<char>, NodeView)| response_of(m.1)),
        ),
        _ => Err(mistyped("responses"@, "a mapping"@)),
    }
}

/// The answers of an operation by status code: at least one.
pub open spec fn responses_in(node: NodeView) -> Result<
    Seq<(Seq<char>, ResponseView)>,
    OpenApiErrorView,
> {
    match response_entries_in(node) {
        Ok(entries) => if entries.len() == 0 {
            Err(no_response())
        } else {
            Ok(entries)
        },
        Err(e) => Err(e),
    }
}

/// What one method does on one path.
pub open spec fn operation_of(node: NodeView) -> Result<OperationView, OpenApiErrorView> {
    match node {
        NodeView::Mapping(members) => {
            let operation_id = optional_text_at(members, "operationId"@);
            let summary = optional_text_at(members, "summary"@);
            let parameters = match member(members, "parameters"@) {
                Some(list) => match parameters_in(list) {
                    Ok(p) => Ok(Some(p)),
                    Err(e) => Err(e),
                },
                None => Ok(None),
            };
            let request_body = match member(members, "requestBody"@) {
                Some(body) => match request_body_of(body) {
                    Ok(b) => Ok(Some(b)),
                    Err(e) => Err(e),
                },
                None => Ok(None),
            };
            let responses = match member(members, "responses"@) {
                Some(answers) => responses_in(answers),
                None => Err(missing("responses"@)),
            };
            if operation_id is Err {
                Err(operation_id->Err_0)
            } else if summary is Err {
                Err(summary->Err_0)
            } else if parameters is Err {
                Err(parameters->Err_0)
            } else if request_body is Err {
                Err(request_body->Err_0)
            } else if responses is Err {
                Err(responses->Err_0)
            } else {
                Ok(
                    OperationView {
                        operation_id: operation_id->Ok_0,
                        summary: summary->Ok_0,
                        parameters: parameters->Ok_0,
                        request_body: request_body->Ok_0,
                        responses: responses->Ok_0,
                    },
                )
            }
        },
        _ => Err(mistyped("operation"@, "a mapping"@)),
    }
}

/// An operation that may be absent.
pub open spec fn optional_operation_at(members: Seq<(Seq<char>, NodeView)>, method: Seq<char>)
    -> Result<Option<OperationView>, OpenApiErrorView> {
    match member(members, method) {
        Some(node) => match operation_of(node) {
            Ok(operation) => Ok(Some(operation)),
            Err(e) => Err(e),
        },
        None => Ok(None),
    }
}

/// The operations of one path.
pub open spec fn path_item_of(node: NodeView) -> Result<PathItemView, OpenApiErrorView> {
    match node {
        NodeView::Mapping(members) => {
            let get = optional_operation_at(members, "get"@);
            let post = optional_operation_at(members, "post"@);
            let put = optional_operation_at(members, "put"@);
            let delete = optional_operation_at(members, "delete"@);
            if get is Err {
                Err(get->Err_0)
            } else if post is Err {
                Err(post->Err_0)
            } else if put is Err {
                Err(put->Err_0)
            } else if delete is Err {
                Err(delete->Err_0)
            } else {
                Ok(
                    PathItemView {
                        get: get->Ok_0,
                        post: post->Ok_0,
                        put: put->Ok_0,
                        delete: delete->Ok_0,
                    },
                )
            }
        },
        _ => Err(mistyped("path item"@, "a mapping"@)),
    }
}

/// The operations by path that a tree stands for.
pub open spec fn paths_in(node: NodeView) -> Result<
    Seq<(Seq<char>, PathItemView)>,
    OpenApiErrorView,
> {
    match node {
        NodeView::Mapping(members) => named(
            members,
            members.map_values(|m: (Seq<char>, NodeView)| path_item_of(m.1)),
        ),
        _ => Err(mistyped("paths"@, "a mapping"@)),
    }
}

/// The named schemas of a description.
pub open spec fn components_of(node: NodeView) -> Result<ComponentsView, OpenApiErrorView> {
    match node {
        NodeView::Mapping(members) => match member(members, "schemas"@) {
            Some(schemas) => match named_schemas_in(schemas) {
                Ok(entries) => Ok(ComponentsView { schemas: entries }),
                Err(e) => Err(e),
            },
            None => Err(missing("schemas"@)),
        },
        _ => Err(mistyped("components"@, "a mapping"@)),
    }
}

/// The description that a tree stands for.
pub open spec fn document_of(node: NodeView) -> Result<OpenApiSpecView, OpenApiErrorView> {
    match node {
        NodeView::Mapping(members) => {
            let openapi = text_at(members, "openapi"@);
            let info = match member(members, "info"@) {
                Some(i) => info_of(i),
                None => Err(missing("info"@)),
            };
            let paths = match member(members, "paths"@) {
                Some(p) => paths_in(p),
                None => Err(missing("paths"@)),
            };
            let components = match member(members, "components"@) {
                Some(c) => match components_of(c) {
                    Ok(held) => Ok(Some(held)),
                    Err(e) => Err(e),
                },
                None => Ok(None),
            };
            if openapi is Err {
                Err(openapi->Err_0)
            } else if info is Err {
                Err(info->Err_0)
            } else if paths is Err {
                Err(paths->Err_0)
            } else if components is Err {
                Err(components->Err_0)
            } else {
                Ok(
                    OpenApiSpecView {
                        openapi: openapi->Ok_0,
                        info: info->Ok_0,
                        paths: paths->Ok_0,
                        components: components->Ok_0,
                    },
                )
            }
        },
        _ => Err(mistyped("document"@, "a mapping"@)),
    }
}

/// The forms of a schema are tried in one order, and the first that fits
/// decides: a mapping with `$ref` is read as a reference whatever else it
/// holds, one with `allOf` and no `$ref` as an `allOf`, and so on down to
/// the primitive. Where the form that fits cannot be read, the mapping is
/// refused and no later form is tried.
pub proof fn law_forms_are_tried_in_order(members: Seq<(Seq<char>, NodeView)>)
    ensures
        ({
            let read = schema_of(NodeView::Mapping(members));
            let before_array = holds(members, "$ref"@) || holds(members, "allOf"@) || holds(
                members,
                "oneOf"@,
            ) || holds(members, "anyOf"@) || holds(members, "not"@);
            let array = holds(members, "items"@) && declares(members, "array"@);
            let object = holds(members, "properties"@) || declares(members, "object"@);
            &&& holds(members, "$ref"@) ==> (read is Ok ==> read->Ok_0 is Reference)
            &&& !holds(members, "$ref"@) && holds(members, "allOf"@) ==> (read is Ok ==> read->Ok_0 is AllOf)
            &&& !holds(members, "$ref"@) && !holds(members, "allOf"@) && holds(members, "oneOf"@) ==> (read is Ok
                ==> read->Ok_0 is OneOf)
            &&& !holds(members, "$ref"@) && !holds(members, "allOf"@) && !holds(members, "oneOf"@) && holds(
                members,
                "anyOf"@,
            ) ==> (read is Ok ==> read->Ok_0 is AnyOf)
            &&& !holds(members, "$ref"@) && !holds(members, "allOf"@) && !holds(members, "oneOf"@) && !holds(
                members,
                "anyOf"@,
            ) && holds(members, "not"@) ==> (read is Ok ==> read->Ok_0 is Not)
            &&& !before_array && array ==> (read is Ok ==> read->Ok_0 is ArrayType)
            &&& !before_array && !array && object ==> (read is Ok ==> read->Ok_0 is Object)
            &&& !before_array && !array && !object ==> (read is Ok ==> read->Ok_0 is SimpleType)
        }),
{
}

} // verus!
