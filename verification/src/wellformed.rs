//! What a description that was read from a tree can be relied on to be: no
//! dictionary in it holds a name twice, and every operation has a response.

use vstd::prelude::*;
use crate::model::{
    ComponentsView, DiscriminatorView, MediaTypeView, OpenApiErrorView, OpenApiSpecView,
    OperationView, ParameterView, PathItemView, RequestBodyView, ResponseView, SchemaView,
};
use crate::names::{lemma_first_repeat, names_of};
use crate::node::NodeView;
use crate::shape::{
    all_of, content_in, discriminator_of, document_of, first_complaint, media_type_of, member,
    named, named_schemas_in, operation_of, parameter_of, path_item_of, position, position_from,
    response_of, schema_of, schema_of_each, schema_of_each_value, schemas_in, text_of_node,
};

verus! {

/// Whether no two of `entries` have one name.
pub open spec fn distinct<T>(entries: Seq<(Seq<char>, T)>) -> bool {
    names_of(entries).no_duplicates()
}

impl DiscriminatorView {
    /// Whether the mapping holds no name twice.
    pub open spec fn well_formed(self) -> bool {
        self.mapping is Some ==> distinct(self.mapping->0)
    }
}

/// Whether each of `schemas` is well formed.
pub open spec fn each_well_formed(schemas: Seq<SchemaView>) -> bool
    decreases schemas, 0int,
{
    forall|i: int| 0 <= i < schemas.len() ==> (#[trigger] schemas[i]).well_formed()
}

/// Whether each of the named `schemas` is well formed.
pub open spec fn each_named_well_formed(schemas: Seq<(Seq<char>, SchemaView)>) -> bool
    decreases schemas, 0int,
{
    forall|i: int| 0 <= i < schemas.len() ==> (#[trigger] schemas[i]).1.well_formed()
}

impl SchemaView {
    /// Whether no object in the schema has two properties of one name, and
    /// no discriminator two entries of one name.
    pub open spec fn well_formed(self) -> bool
        decreases self, 1int,
    {
        match self {
            SchemaView::Reference { .. } => true,
            SchemaView::AllOf { all_of } => each_well_formed(all_of),
            SchemaView::OneOf { one_of, discriminator } => each_well_formed(one_of) && (
            discriminator is Some ==> discriminator->0.well_formed()),
            SchemaView::AnyOf { any_of } => each_well_formed(any_of),
            SchemaView::Not { not } => (*not).well_formed(),
            SchemaView::Object { properties, items, .. } => (properties is Some ==> distinct(
                properties->0,
            ) && each_named_well_formed(properties->0)) && (items is Some ==> (
            *items->0).well_formed()),
            SchemaView::SimpleType { .. } => true,
            SchemaView::ArrayType { items, .. } => (*items).well_formed(),
        }
    }
}

impl MediaTypeView {
    pub open spec fn well_formed(self) -> bool {
        self.schema is Some ==> self.schema->0.well_formed()
    }
}

/// Whether a dictionary of media types holds each name once, and well-formed
/// schemas.
pub open spec fn content_well_formed(content: Seq<(Seq<char>, MediaTypeView)>) -> bool {
    distinct(content) && forall|i: int|
        0 <= i < content.len() ==> (#[trigger] content[i]).1.well_formed()
}

impl ParameterView {
    pub open spec fn well_formed(self) -> bool {
        self.schema is Some ==> self.schema->0.well_formed()
    }
}

impl RequestBodyView {
    pub open spec fn well_formed(self) -> bool {
        content_well_formed(self.content)
    }
}

impl ResponseView {
    pub open spec fn well_formed(self) -> bool {
        self.content is Some ==> content_well_formed(self.content->0)
    }
}

impl OperationView {
    /// Whether the operation has a response, holds each status code once,
    /// and all its parts are well formed.
    pub open spec fn well_formed(self) -> bool {
        &&& self.parameters is Some ==> forall|i: int|
            0 <= i < self.parameters->0.len() ==> (#[trigger] self.parameters->0[i]).well_formed()
        &&& self.request_body is Some ==> self.request_body->0.well_formed()
        &&& self.responses.len() > 0
        &&& distinct(self.responses)
        &&& forall|i: int|
            0 <= i < self.responses.len() ==> (#[trigger] self.responses[i]).1.well_formed()
    }
}

impl PathItemView {
    pub open spec fn well_formed(self) -> bool {
        &&& self.get is Some ==> self.get->0.well_formed()
        &&& self.post is Some ==> self.post->0.well_formed()
        &&& self.put is Some ==> self.put->0.well_formed()
        &&& self.delete is Some ==> self.delete->0.well_formed()
    }
}

impl ComponentsView {
    pub open spec fn well_formed(self) -> bool {
        distinct(self.schemas) && each_named_well_formed(self.schemas)
    }
}

impl OpenApiSpecView {
    /// Whether every path and every named schema stands once, every
    /// operation has a response, and all parts are well formed.
    pub open spec fn well_formed(self) -> bool {
        &&& distinct(self.paths)
        &&& forall|i: int| 0 <= i < self.paths.len() ==> (#[trigger] self.paths[i]).1.well_formed()
        &&& self.components is Some ==> self.components->0.well_formed()
    }
}

/// Where nothing is complained of, every result is a success.
pub proof fn lemma_all_of<T>(results: Seq<Result<T, OpenApiErrorView>>)
    ensures
        all_of(results) is Ok <==> forall|i: int| 0 <= i < results.len() ==> results[i] is Ok,
        all_of(results) is Ok ==> all_of(results)->Ok_0.len() == results.len() && forall|i: int|
            0 <= i < results.len() ==> results[i] == Ok::<T, OpenApiErrorView>(
                #[trigger] all_of(results)->Ok_0[i],
            ),
    decreases results.len(),
{
    if results.len() > 0 {
        let front = results.drop_last();
        lemma_all_of(front);
        if first_complaint(results) is None {
            assert forall|i: int| 0 <= i < results.len() implies results[i] is Ok by {
                if i < front.len() {
                    assert(front[i] is Ok);
                }
            }
        } else {
            if first_complaint(front) is None {
                assert(!(results[results.len() - 1] is Ok));
            } else {
                let i = choose|i: int| 0 <= i < front.len() && !(front[i] is Ok);
                assert(!(results[i] is Ok));
            }
        }
    }
}

/// A dictionary that is read holds the names of the tree, each once, and
/// what each value was read as.
pub proof fn lemma_named<T>(
    members: Seq<(Seq<char>, NodeView)>,
    read: Seq<Result<T, OpenApiErrorView>>,
)
    requires
        read.len() == members.len(),
        named(members, read) is Ok,
    ensures
        ({
            let entries = named(members, read)->Ok_0;
            &&& entries.len() == members.len()
            &&& distinct(entries)
            &&& forall|i: int|
                0 <= i < members.len() ==> (#[trigger] entries[i]).0 == members[i].0 && read[i]
                    == Ok::<T, OpenApiErrorView>(entries[i].1)
        }),
{
    lemma_all_of(read);
    lemma_first_repeat(names_of(members));
    let entries = named(members, read)->Ok_0;
    assert(names_of(entries) =~= names_of(members));
    assert forall|a: int, b: int|
        0 <= a < names_of(members).len() && 0 <= b < names_of(members).len() && a != b implies names_of(
        members,
    )[a] != names_of(members)[b] by {
        if a < b {
        } else {
            assert(0 <= b < a < names_of(members).len());
        }
    }
}

/// A position that is found lies within the members.
pub proof fn lemma_position_from(members: Seq<(Seq<char>, NodeView)>, key: Seq<char>, start: int)
    requires
        0 <= start,
    ensures
        position_from(members, key, start) matches Some(i) ==> start <= i < members.len(),
    decreases members.len() - start,
{
    if start < members.len() && members[start].0 != key {
        lemma_position_from(members, key, start + 1);
    }
}

/// A position that is found lies within the members.
pub proof fn lemma_position(members: Seq<(Seq<char>, NodeView)>, key: Seq<char>)
    ensures
        position(members, key) matches Some(i) ==> 0 <= i < members.len(),
{
    lemma_position_from(members, key, 0);
}

/// A discriminator that is read is well formed.
pub proof fn lemma_discriminator(node: NodeView)
    requires
        discriminator_of(node) is Ok,
    ensures
        discriminator_of(node)->Ok_0.well_formed(),
{
    match node {
        NodeView::Mapping(members) => {
            match member(members, "mapping"@) {
                Some(NodeView::Mapping(pairs)) => {
                    lemma_named(
                        pairs,
                        pairs.map_values(
                            |m: (Seq<char>, NodeView)|
                                text_of_node(m.1, "mapping"@),
                        ),
                    );
                },
                _ => {},
            }
        },
        _ => {},
    }
}

/// A schema that is read is well formed.
pub proof fn lemma_schema(node: NodeView)
    requires
        schema_of(node) is Ok,
    ensures
        schema_of(node)->Ok_0.well_formed(),
    decreases node, 1int,
{
    match node {
        NodeView::Mapping(members) => {
            let single = schema_of_each_value(members);
            lemma_position(members, "allOf"@);
            lemma_position(members, "oneOf"@);
            lemma_position(members, "anyOf"@);
            lemma_position(members, "not"@);
            lemma_position(members, "items"@);
            lemma_position(members, "properties"@);
            lemma_position(members, "discriminator"@);
            let schema = schema_of(node)->Ok_0;
            match schema {
                SchemaView::Reference { .. } => {},
                SchemaView::AllOf { .. } => {
                    lemma_schemas(members[position(members, "allOf"@)->0].1);
                },
                SchemaView::OneOf { .. } => {
                    lemma_schemas(members[position(members, "oneOf"@)->0].1);
                    if member(members, "discriminator"@) is Some {
                        lemma_discriminator(member(members, "discriminator"@)->0);
                    }
                },
                SchemaView::AnyOf { .. } => {
                    lemma_schemas(members[position(members, "anyOf"@)->0].1);
                },
                SchemaView::Not { .. } => {
                    let i = position(members, "not"@)->0;
                    assert(single[i] == schema_of(members[i].1));
                    lemma_schema(members[i].1);
                },
                SchemaView::ArrayType { .. } => {
                    let i = position(members, "items"@)->0;
                    assert(single[i] == schema_of(members[i].1));
                    lemma_schema(members[i].1);
                },
                SchemaView::Object { .. } => {
                    if position(members, "properties"@) is Some {
                        lemma_named_schemas(members[position(members, "properties"@)->0].1);
                    }
                    if position(members, "items"@) is Some {
                        let i = position(members, "items"@)->0;
                        assert(single[i] == schema_of(members[i].1));
                        lemma_schema(members[i].1);
                    }
                },
                SchemaView::SimpleType { .. } => {},
            }
        },
        _ => {},
    }
}

/// Schemas that are read from a list are well formed.
pub proof fn lemma_schemas(node: NodeView)
    requires
        schemas_in(node) is Ok,
    ensures
        each_well_formed(schemas_in(node)->Ok_0),
    decreases node, 1int,
{
    match node {
        NodeView::Sequence(items) => {
            let results = schema_of_each(items);
            lemma_all_of(results);
            let schemas = schemas_in(node)->Ok_0;
            assert forall|i: int| 0 <= i < schemas.len() implies (#[trigger] schemas[i]).well_formed() by {
                assert(results[i] == schema_of(items[i]));
                lemma_schema(items[i]);
            }
        },
        _ => {},
    }
}

/// Schemas that are read from a dictionary are well formed, and each has a
/// name of its own.
pub proof fn lemma_named_schemas(node: NodeView)
    requires
        named_schemas_in(node) is Ok,
    ensures
        distinct(named_schemas_in(node)->Ok_0),
        each_named_well_formed(named_schemas_in(node)->Ok_0),
    decreases node, 1int,
{
    match node {
        NodeView::Mapping(members) => {
            let results = schema_of_each_value(members);
            lemma_named(members, results);
            let schemas = named_schemas_in(node)->Ok_0;
            assert forall|i: int| 0 <= i < schemas.len() implies (#[trigger] schemas[i]).1.well_formed() by {
                assert(results[i] == schema_of(members[i].1));
                assert(results[i] is Ok) by {
                    let held = named(members, results)->Ok_0;
                    assert(held[i].0 == members[i].0);
                }
                lemma_schema(members[i].1);
            }
        },
        _ => {},
    }
}

/// A media type that is read is well formed.
pub proof fn lemma_media_type(node: NodeView)
    requires
        media_type_of(node) is Ok,
    ensures
        media_type_of(node)->Ok_0.well_formed(),
{
    match node {
        NodeView::Mapping(members) => {
            if member(members, "schema"@) is Some {
                lemma_schema(member(members, "schema"@)->0);
            }
        },
        _ => {},
    }
}

/// Media types that are read from a dictionary are well formed, and each has
/// a name of its own.
pub proof fn lemma_content(node: NodeView)
    requires
        content_in(node) is Ok,
    ensures
        content_well_formed(content_in(node)->Ok_0),
{
    match node {
        NodeView::Mapping(members) => {
            let results = members.map_values(|m: (Seq<char>, NodeView)| media_type_of(m.1));
            lemma_named(members, results);
            let content = content_in(node)->Ok_0;
            assert forall|i: int| 0 <= i < content.len() implies (#[trigger] content[i]).1.well_formed() by {
                assert(results[i] == media_type_of(members[i].1));
                assert(results[i] is Ok) by {
                    let held = named(members, results)->Ok_0;
                    assert(held[i].0 == members[i].0);
                }
                lemma_media_type(members[i].1);
            }
        },
        _ => {},
    }
}

/// A parameter that is read is well formed.
pub proof fn lemma_parameter(node: NodeView)
    requires
        parameter_of(node) is Ok,
    ensures
        parameter_of(node)->Ok_0.well_formed(),
{
    match node {
        NodeView::Mapping(members) => {
            if member(members, "schema"@) is Some {
                lemma_schema(member(members, "schema"@)->0);
            }
        },
        _ => {},
    }
}

/// An answer that is read is well formed.
pub proof fn lemma_response(node: NodeView)
    requires
        response_of(node) is Ok,
    ensures
        response_of(node)->Ok_0.well_formed(),
{
    match node {
        NodeView::Mapping(members) => {
            if member(members, "content"@) is Some {
                lemma_content(member(members, "content"@)->0);
            }
        },
        _ => {},
    }
}

/// An operation that is read is well formed.
pub proof fn lemma_operation(node: NodeView)
    requires
        operation_of(node) is Ok,
    ensures
        operation_of(node)->Ok_0.well_formed(),
{
    match node {
        NodeView::Mapping(members) => {
            let operation = operation_of(node)->Ok_0;
            match member(members, "parameters"@) {
                Some(NodeView::Sequence(items)) => {
                    let results = items.map_values(|item: NodeView| parameter_of(item));
                    lemma_all_of(results);
                    let parameters = operation.parameters->0;
                    assert forall|i: int| 0 <= i < parameters.len() implies (
                    #[trigger] parameters[i]).well_formed() by {
                        assert(results[i] == parameter_of(items[i]));
                        lemma_parameter(items[i]);
                    }
                },
                _ => {},
            }
            match member(members, "requestBody"@) {
                Some(NodeView::Mapping(inner)) => {
                    if member(inner, "content"@) is Some {
                        lemma_content(member(inner, "content"@)->0);
                    }
                },
                _ => {},
            }
            match member(members, "responses"@) {
                Some(NodeView::Mapping(answers)) => {
                    let results = answers.map_values(
                        |m: (Seq<char>, NodeView)| response_of(m.1),
                    );
                    lemma_named(answers, results);
                    let responses = operation.responses;
                    assert forall|i: int| 0 <= i < responses.len() implies (
                    #[trigger] responses[i]).1.well_formed() by {
                        assert(results[i] == response_of(answers[i].1));
                        assert(results[i] is Ok) by {
                            let held = named(answers, results)->Ok_0;
                            assert(held[i].0 == answers[i].0);
                        }
                        lemma_response(answers[i].1);
                    }
                },
                _ => {},
            }
        },
        _ => {},
    }
}

/// The operations of a path that are read are well formed.
pub proof fn lemma_path_item(node: NodeView)
    requires
        path_item_of(node) is Ok,
    ensures
        path_item_of(node)->Ok_0.well_formed(),
{
    match node {
        NodeView::Mapping(members) => {
            if member(members, "get"@) is Some {
                lemma_operation(member(members, "get"@)->0);
            }
            if member(members, "post"@) is Some {
                lemma_operation(member(members, "post"@)->0);
            }
            if member(members, "put"@) is Some {
                lemma_operation(member(members, "put"@)->0);
            }
            if member(members, "delete"@) is Some {
                lemma_operation(member(members, "delete"@)->0);
            }
        },
        _ => {},
    }
}

/// A description that is read from a tree is well formed: every path and
/// every named schema stands once, as does every property of an object and
/// every status code of an operation, and every operation has a response.
pub proof fn law_read_description_is_well_formed(node: NodeView)
    requires
        document_of(node) is Ok,
    ensures
        document_of(node)->Ok_0.well_formed(),
{
    match node {
        NodeView::Mapping(members) => {
            let document = document_of(node)->Ok_0;
            match member(members, "paths"@) {
                Some(NodeView::Mapping(entries)) => {
                    let results = entries.map_values(
                        |m: (Seq<char>, NodeView)| path_item_of(m.1),
                    );
                    lemma_named(entries, results);
                    let paths = document.paths;
                    assert forall|i: int| 0 <= i < paths.len() implies (#[trigger] paths[i]).1.well_formed() by {
                        assert(results[i] == path_item_of(entries[i].1));
                        assert(results[i] is Ok) by {
                            let held = named(entries, results)->Ok_0;
                            assert(held[i].0 == entries[i].0);
                        }
                        lemma_path_item(entries[i].1);
                    }
                },
                _ => {},
            }
            match member(members, "components"@) {
                Some(NodeView::Mapping(inner)) => {
                    if member(inner, "schemas"@) is Some {
                        lemma_named_schemas(member(inner, "schemas"@)->0);
                    }
                },
                _ => {},
            }
        },
        _ => {},
    }
}

} // verus!
