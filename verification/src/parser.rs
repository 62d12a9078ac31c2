//! The parser: from the tree of a text to the typed description.

use vstd::prelude::*;
use vstd::string::StringExecFns;
use crate::model::{
    copy_nodes, lemma_named_schema_views, lemma_schema_views, Components, Discriminator, Info, MediaType,
    MediaTypeView, OpenApiError, OpenApiErrorView, OpenApiSpec, Operation, Parameter,
    ParameterView, PathItem, PathItemView, RequestBody, Response, ResponseView, Schema, SchemaView,
};
use crate::names::{find_repeat, first_repeat, names_of};
use crate::node::{lemma_mapping_view, lemma_sequence_view, Node, NodeView};
use crate::shape::{
    all_of, components_of, content_in, declares, discriminator_of, document_of, duplicate,
    first_complaint, flag_at, info_of, media_type_of, member, missing, mistyped, named,
    named_schemas_in, no_schema_form, operation_of, optional_discriminator_at,
    optional_operation_at, optional_schema_at, optional_text_at, optional_texts_at,
    optional_values_at, parameter_of, parameters_in, path_item_of, paths_in, position,
    position_from, request_body_of, response_entries_in, response_of, responses_in, schema_of,
    schema_of_each, schema_of_each_value, schemas_in, text_at, text_entries_in, text_of_node,
    texts_in,
};
use crate::text::same_text;
use crate::views::result_view;
use crate::wellformed::law_read_description_is_well_formed;

verus! {

/// The complaint that `part` is missing.
pub fn missing_error(part: &str) -> (e: OpenApiError)
    ensures
        e@ == missing(part@),
{
    let mut message = "missing field `".to_owned();
    message.append(part);
    message.append("`");
    OpenApiError::ParseError(message)
}

/// The complaint that `part` is not `wanted`.
pub fn mistyped_error(part: &str, wanted: &str) -> (e: OpenApiError)
    ensures
        e@ == mistyped(part@, wanted@),
{
    let mut message = "invalid type for `".to_owned();
    message.append(part);
    message.append("`: expected ");
    message.append(wanted);
    OpenApiError::ParseError(message)
}

/// The complaint that a dictionary holds `name` twice.
pub fn duplicate_error(name: &str) -> (e: OpenApiError)
    ensures
        e@ == duplicate(name@),
{
    let mut message = "duplicate entry `".to_owned();
    message.append(name);
    message.append("`");
    OpenApiError::ParseError(message)
}

/// The position of the member named `key`, where its value is not null.
pub fn find(members: &Vec<(String, Node)>, key: &str) -> (at: Option<usize>)
    ensures
        match at {
            Some(i) => i < members.len() && position(members.deep_view(), key@) == Some(i as int)
                && !(members[i as int].1 is Null),
            None => position(members.deep_view(), key@) is None,
        },
{
    let ghost all = members.deep_view();
    let mut i: usize = 0;
    while i < members.len()
        invariant
            i <= members.len(),
            all == members.deep_view(),
            position(all, key@) == position_from(all, key@, i as int),
        decreases members.len() - i,
    {
        assert(all[i as int] == (members[i as int].0@, members[i as int].1@));
        if same_text(members[i].0.as_str(), key) {
            return match &members[i].1 {
                Node::Null => None,
                _ => Some(i),
            };
        }
        i += 1;
    }
    None
}

/// The first complaint of a front part with one more result.
pub proof fn lemma_first_complaint_step<T>(results: Seq<Result<T, OpenApiErrorView>>, k: int)
    requires
        0 <= k < results.len(),
    ensures
        first_complaint(results.take(k + 1)) == match first_complaint(results.take(k)) {
            Some(e) => Some(e),
            None => match results[k] {
                Ok(_) => None,
                Err(e) => Some(e),
            },
        },
{
    assert(results.take(k + 1).drop_last() == results.take(k));
    assert(results.take(k + 1).last() == results[k]);
}

/// A complaint in a front part is the first complaint of the whole.
pub proof fn lemma_first_complaint_stays<T>(results: Seq<Result<T, OpenApiErrorView>>, n: int)
    requires
        0 <= n <= results.len(),
        first_complaint(results.take(n)) is Some,
    ensures
        first_complaint(results) == first_complaint(results.take(n)),
    decreases results.len() - n,
{
    if n < results.len() {
        lemma_first_complaint_step(results, n);
        lemma_first_complaint_stays(results, n + 1);
    } else {
        assert(results.take(n) == results);
    }
}

/// A required text.
pub fn text_field(members: &Vec<(String, Node)>, key: &str) -> (r: Result<String, OpenApiError>)
    ensures
        result_view(r) == text_at(members.deep_view(), key@),
{
    match find(members, key) {
        Some(i) => {
            assert(members.deep_view()[i as int] == (members[i as int].0@, members[i as int].1@));
            match &members[i].1 {
                Node::Text(t) => Ok(t.clone()),
                _ => Err(mistyped_error(key, "a string")),
            }
        },
        None => Err(missing_error(key)),
    }
}

/// A text that may be absent.
pub fn optional_text_field(members: &Vec<(String, Node)>, key: &str) -> (r: Result<
    Option<String>,
    OpenApiError,
>)
    ensures
        result_view(r) == optional_text_at(members.deep_view(), key@),
{
    match find(members, key) {
        Some(i) => {
            assert(members.deep_view()[i as int] == (members[i as int].0@, members[i as int].1@));
            match &members[i].1 {
                Node::Text(t) => Ok(Some(t.clone())),
                _ => Err(mistyped_error(key, "a string")),
            }
        },
        None => Ok(None),
    }
}

/// A required truth value.
pub fn flag_field(members: &Vec<(String, Node)>, key: &str) -> (r: Result<bool, OpenApiError>)
    ensures
        result_view(r) == flag_at(members.deep_view(), key@),
{
    match find(members, key) {
        Some(i) => {
            assert(members.deep_view()[i as int] == (members[i as int].0@, members[i as int].1@));
            match &members[i].1 {
                Node::Bool(b) => Ok(*b),
                _ => Err(mistyped_error(key, "a boolean")),
            }
        },
        None => Err(missing_error(key)),
    }
}

/// The complaint about the first name that stands twice among `members`.
pub fn repeated_name(members: &Vec<(String, Node)>) -> (complaint: Option<OpenApiError>)
    ensures
        complaint.deep_view() == match first_repeat(names_of(members.deep_view())) {
            Some(k) => Some(duplicate(names_of(members.deep_view())[k])),
            None => None,
        },
{
    let mut names: Vec<String> = Vec::new();
    let mut i: usize = 0;
    while i < members.len()
        invariant
            i <= members.len(),
            names.len() == i,
            forall|k: int| 0 <= k < i ==> (#[trigger] names[k])@ == members[k].0@,
        decreases members.len() - i,
    {
        names.push(members[i].0.clone());
        i += 1;
    }
    assert(names.deep_view() =~= names_of(members.deep_view()));
    match find_repeat(&names) {
        Some(k) => Some(duplicate_error(names[k].as_str())),
        None => None,
    }
}

/// The list of texts that a tree stands for.
pub fn texts_from(node: &Node, part: &str) -> (r: Result<Vec<String>, OpenApiError>)
    ensures
        result_view(r) == texts_in(node@, part@),
{
    match node {
        Node::Sequence(items) => {
            proof {
                lemma_sequence_view(*items);
            }
            let ghost results = items.deep_view().map_values(
                |item: NodeView| text_of_node(item, part@),
            );
            let mut texts: Vec<String> = Vec::new();
            let mut i: usize = 0;
            assert(results.take(0) =~= Seq::empty());
            while i < items.len()
                invariant
                    i <= items.len(),
                    node@ == NodeView::Sequence(items.deep_view()),
                    results == items.deep_view().map_values(
                        |item: NodeView| text_of_node(item, part@),
                    ),
                    first_complaint(results.take(i as int)) is None,
                    texts.len() == i,
                    forall|k: int| 0 <= k < i ==> results[k] == Ok::<Seq<char>, OpenApiErrorView>((#[trigger] texts[k])@),
                decreases items.len() - i,
            {
                proof {
                    lemma_first_complaint_step(results, i as int);
                    assert(results[i as int] == text_of_node(items[i as int]@, part@));
                }
                match &items[i] {
                    Node::Text(t) => texts.push(t.clone()),
                    _ => {
                        proof {
                            lemma_first_complaint_stays(results, i + 1);
                        }
                        return Err(mistyped_error(part, "a string"));
                    },
                }
                i += 1;
            }
            proof {
                assert(results.take(i as int) == results);
                assert(texts.deep_view() =~= results.map_values(
                    |r: Result<Seq<char>, OpenApiErrorView>| r->Ok_0,
                ));
            }
            Ok(texts)
        },
        _ => Err(mistyped_error(part, "a sequence")),
    }
}

/// A list of texts that may be absent.
pub fn optional_texts_field(members: &Vec<(String, Node)>, key: &str) -> (r: Result<
    Option<Vec<String>>,
    OpenApiError,
>)
    ensures
        result_view(r) == optional_texts_at(members.deep_view(), key@),
{
    match find(members, key) {
        Some(i) => {
            assert(members.deep_view()[i as int] == (members[i as int].0@, members[i as int].1@));
            match texts_from(&members[i].1, key) {
                Ok(texts) => Ok(Some(texts)),
                Err(e) => Err(e),
            }
        },
        None => Ok(None),
    }
}

/// A list of values of any kind that may be absent.
pub fn optional_values_field(members: &Vec<(String, Node)>, key: &str) -> (r: Result<
    Option<Vec<Node>>,
    OpenApiError,
>)
    ensures
        result_view(r) == optional_values_at(members.deep_view(), key@),
{
    match find(members, key) {
        Some(i) => {
            assert(members.deep_view()[i as int] == (members[i as int].0@, members[i as int].1@));
            match &members[i].1 {
                Node::Sequence(items) => {
                    proof {
                        lemma_sequence_view(*items);
                    }
                    Ok(Some(copy_nodes(items)))
                },
                _ => Err(mistyped_error(key, "a sequence")),
            }
        },
        None => Ok(None),
    }
}

/// The dictionary of texts that a tree stands for.
pub fn text_entries_from(node: &Node, part: &str) -> (r: Result<
    Vec<(String, String)>,
    OpenApiError,
>)
    ensures
        result_view(r) == text_entries_in(node@, part@),
{
    match node {
        Node::Mapping(members) => {
            proof {
                lemma_mapping_view(*members);
            }
            let ghost all = members.deep_view();
            let ghost results = all.map_values(
                |m: (Seq<char>, NodeView)| text_of_node(m.1, part@),
            );
            let mut entries: Vec<(String, String)> = Vec::new();
            let mut i: usize = 0;
            assert(results.take(0) =~= Seq::empty());
            while i < members.len()
                invariant
                    i <= members.len(),
                    all == members.deep_view(),
                    node@ == NodeView::Mapping(all),
                    results == all.map_values(|m: (Seq<char>, NodeView)| text_of_node(m.1, part@)),
                    first_complaint(results.take(i as int)) is None,
                    entries.len() == i,
                    forall|k: int|
                        0 <= k < i ==> (#[trigger] entries[k]).0@ == all[k].0 && results[k] == Ok::<
                            Seq<char>,
                            OpenApiErrorView,
                        >(entries[k].1@),
                decreases members.len() - i,
            {
                proof {
                    lemma_first_complaint_step(results, i as int);
                    assert(all[i as int] == (members[i as int].0@, members[i as int].1@));
                }
                match &members[i].1 {
                    Node::Text(t) => entries.push((members[i].0.clone(), t.clone())),
                    _ => {
                        proof {
                            lemma_first_complaint_stays(results, i + 1);
                        }
                        return Err(mistyped_error(part, "a string"));
                    },
                }
                i += 1;
            }
            proof {
                assert(results.take(i as int) == results);
            }
            match repeated_name(members) {
                Some(e) => Err(e),
                None => {
                    proof {
                        let values = results.map_values(
                            |r: Result<Seq<char>, OpenApiErrorView>| r->Ok_0,
                        );
                        assert(entries.deep_view() =~= Seq::new(
                            all.len(),
                            |i: int| (all[i].0, values[i]),
                        ));
                    }
                    Ok(entries)
                },
            }
        },
        _ => Err(mistyped_error(part, "a mapping")),
    }
}

/// The title and version of a description.
pub fn info_from(node: &Node) -> (r: Result<Info, OpenApiError>)
    ensures
        result_view(r) == info_of(node@),
{
    match node {
        Node::Mapping(members) => {
            proof {
                lemma_mapping_view(*members);
            }
            let title = match text_field(members, "title") {
                Ok(v) => v,
                Err(e) => return Err(e),
            };
            let version = match text_field(members, "version") {
                Ok(v) => v,
                Err(e) => return Err(e),
            };
            Ok(Info { title, version })
        },
        _ => Err(mistyped_error("info", "a mapping")),
    }
}

/// The discriminator of a `oneOf`.
pub fn discriminator_from(node: &Node) -> (r: Result<Discriminator, OpenApiError>)
    ensures
        result_view(r) == discriminator_of(node@),
{
    match node {
        Node::Mapping(members) => {
            proof {
                lemma_mapping_view(*members);
            }
            let property_name = match text_field(members, "propertyName") {
                Ok(v) => v,
                Err(e) => return Err(e),
            };
            let mapping = match find(members, "mapping") {
                Some(i) => {
                    assert(members.deep_view()[i as int] == (
                        members[i as int].0@,
                        members[i as int].1@,
                    ));
                    match text_entries_from(&members[i].1, "mapping") {
                        Ok(pairs) => Some(pairs),
                        Err(e) => return Err(e),
                    }
                },
                None => None,
            };
            Ok(Discriminator { property_name, mapping })
        },
        _ => Err(mistyped_error("discriminator", "a mapping")),
    }
}

/// A discriminator that may be absent.
pub fn optional_discriminator_field(members: &Vec<(String, Node)>) -> (r: Result<
    Option<Discriminator>,
    OpenApiError,
>)
    ensures
        result_view(r) == optional_discriminator_at(members.deep_view()),
{
    match find(members, "discriminator") {
        Some(i) => {
            assert(members.deep_view()[i as int] == (members[i as int].0@, members[i as int].1@));
            match discriminator_from(&members[i].1) {
                Ok(d) => Ok(Some(d)),
                Err(e) => Err(e),
            }
        },
        None => Ok(None),
    }
}

/// Whether the member `type` is the text `word`.
pub fn declares_type(members: &Vec<(String, Node)>, word: &str) -> (yes: bool)
    ensures
        yes == declares(members.deep_view(), word@),
{
    match find(members, "type") {
        Some(i) => {
            assert(members.deep_view()[i as int] == (members[i as int].0@, members[i as int].1@));
            match &members[i].1 {
                Node::Text(t) => same_text(t.as_str(), word),
                _ => false,
            }
        },
        None => false,
    }
}

/// The schema that a tree stands for.
pub fn schema_from(node: &Node) -> (r: Result<Schema, OpenApiError>)
    ensures
        result_view(r) == schema_of(node@),
    decreases node,
{
    match node {
        Node::Mapping(members) => {
            proof {
                lemma_mapping_view(*members);
                assert(node->Mapping_0 == *members);
                assert forall|i: int| 0 <= i < members.len() implies #[trigger] members.deep_view()[i]
                    == (members[i].0@, members[i].1@) by {}
            }
            if find(members, "$ref").is_some() {
                match text_field(members, "$ref") {
                    Ok(pointer) => Ok(Schema::Reference { ref_: pointer }),
                    Err(e) => Err(e),
                }
            } else if let Some(i) = find(members, "allOf") {
                match schema_list_from(&members[i].1) {
                    Ok(all_of) => {
                        proof {
                            lemma_schema_views(all_of);
                        }
                        Ok(Schema::AllOf { all_of })
                    },
                    Err(e) => Err(e),
                }
            } else if let Some(i) = find(members, "oneOf") {
                let one_of = match schema_list_from(&members[i].1) {
                    Ok(v) => v,
                    Err(e) => return Err(e),
                };
                let discriminator = match optional_discriminator_field(members) {
                    Ok(v) => v,
                    Err(e) => return Err(e),
                };
                proof {
                    lemma_schema_views(one_of);
                }
                Ok(Schema::OneOf { one_of, discriminator })
            } else if let Some(i) = find(members, "anyOf") {
                match schema_list_from(&members[i].1) {
                    Ok(any_of) => {
                        proof {
                            lemma_schema_views(any_of);
                        }
                        Ok(Schema::AnyOf { any_of })
                    },
                    Err(e) => Err(e),
                }
            } else if let Some(i) = find(members, "not") {
                match schema_from(&members[i].1) {
                    Ok(not) => Ok(Schema::Not { not: Box::new(not) }),
                    Err(e) => Err(e),
                }
            } else if find(members, "items").is_some() && declares_type(members, "array") {
                let i = find(members, "items").unwrap();
                match schema_from(&members[i].1) {
                    Ok(items) => Ok(
                        Schema::ArrayType { type_: "array".to_owned(), items: Box::new(items) },
                    ),
                    Err(e) => Err(e),
                }
            } else if find(members, "properties").is_some() || declares_type(members, "object") {
                let type_ = match optional_text_field(members, "type") {
                    Ok(v) => v,
                    Err(e) => return Err(e),
                };
                let properties = match find(members, "properties") {
                    Some(i) => match named_schemas_from(&members[i].1) {
                        Ok(entries) => {
                            proof {
                                lemma_named_schema_views(entries);
                            }
                            Some(entries)
                        },
                        Err(e) => return Err(e),
                    },
                    None => None,
                };
                let required = match optional_texts_field(members, "required") {
                    Ok(v) => v,
                    Err(e) => return Err(e),
                };
                let items = match find(members, "items") {
                    Some(i) => match schema_from(&members[i].1) {
                        Ok(item) => Some(Box::new(item)),
                        Err(e) => return Err(e),
                    },
                    None => None,
                };
                let format = match optional_text_field(members, "format") {
                    Ok(v) => v,
                    Err(e) => return Err(e),
                };
                let enum_values = match optional_values_field(members, "enum") {
                    Ok(v) => v,
                    Err(e) => return Err(e),
                };
                Ok(Schema::Object { type_, properties, required, items, format, enum_values })
            } else {
                let word = match find(members, "type") {
                    Some(i) => match &members[i].1 {
                        Node::Text(t) => t.clone(),
                        _ => return Err(no_schema_form_error()),
                    },
                    None => return Err(no_schema_form_error()),
                };
                let format = match optional_text_field(members, "format") {
                    Ok(v) => v,
                    Err(e) => return Err(e),
                };
                let enum_values = match optional_values_field(members, "enum") {
                    Ok(v) => v,
                    Err(e) => return Err(e),
                };
                Ok(Schema::SimpleType { type_: word, format, enum_values })
            }
        },
        _ => Err(mistyped_error("schema", "a mapping")),
    }
}

/// The complaint that a tree has none of the forms of a schema.
pub fn no_schema_form_error() -> (e: OpenApiError)
    ensures
        e@ == no_schema_form(),
{
    OpenApiError::ParseError("data did not match any variant of untagged enum Schema".to_owned())
}

/// The list of schemas that a tree stands for.
pub fn schema_list_from(node: &Node) -> (r: Result<Vec<Schema>, OpenApiError>)
    ensures
        result_view(r) == schemas_in(node@),
    decreases node,
{
    match node {
        Node::Sequence(items) => {
            proof {
                lemma_sequence_view(*items);
            }
            let ghost all = items.deep_view();
            let ghost results = Seq::new(
                all.len(),
                |i: int|
                    if 0 <= i < all.len() {
                        schema_of(all[i])
                    } else {
                        arbitrary()
                    },
            );
            let mut schemas: Vec<Schema> = Vec::new();
            let mut i: usize = 0;
            assert(results.take(0) =~= Seq::empty());
            assert(schema_of_each(all) =~= results);
            while i < items.len()
                invariant
                    i <= items.len(),
                    node is Sequence,
                    node->Sequence_0 == *items,
                    all == items.deep_view(),
                    node@ == NodeView::Sequence(all),
                    schemas_in(node@) == all_of(results),
                    results.len() == all.len(),
                    forall|k: int| 0 <= k < all.len() ==> #[trigger] results[k] == schema_of(all[k]),
                    first_complaint(results.take(i as int)) is None,
                    schemas.len() == i,
                    forall|k: int|
                        0 <= k < i ==> results[k] == Ok::<SchemaView, OpenApiErrorView>(
                            (#[trigger] schemas[k])@,
                        ),
                decreases items.len() - i,
            {
                proof {
                    lemma_first_complaint_step(results, i as int);
                    assert(all[i as int] == items[i as int]@);
                }
                match schema_from(&items[i]) {
                    Ok(schema) => schemas.push(schema),
                    Err(e) => {
                        proof {
                            lemma_first_complaint_stays(results, i + 1);
                        }
                        return Err(e);
                    },
                }
                i += 1;
            }
            proof {
                assert(results.take(i as int) == results);
                assert(schemas.deep_view() =~= results.map_values(
                    |r: Result<SchemaView, OpenApiErrorView>| r->Ok_0,
                ));
            }
            Ok(schemas)
        },
        _ => Err(mistyped_error("schemas", "a sequence")),
    }
}

/// The dictionary of schemas that a tree stands for.
pub fn named_schemas_from(node: &Node) -> (r: Result<Vec<(String, Schema)>, OpenApiError>)
    ensures
        result_view(r) == named_schemas_in(node@),
    decreases node,
{
    match node {
        Node::Mapping(members) => {
            proof {
                lemma_mapping_view(*members);
            }
            let ghost all = members.deep_view();
            let ghost results = Seq::new(
                all.len(),
                |i: int|
                    if 0 <= i < all.len() {
                        schema_of(all[i].1)
                    } else {
                        arbitrary()
                    },
            );
            let mut entries: Vec<(String, Schema)> = Vec::new();
            let mut i: usize = 0;
            assert(results.take(0) =~= Seq::empty());
            assert(schema_of_each_value(all) =~= results);
            while i < members.len()
                invariant
                    i <= members.len(),
                    node is Mapping,
                    node->Mapping_0 == *members,
                    all == members.deep_view(),
                    node@ == NodeView::Mapping(all),
                    named_schemas_in(node@) == named(all, results),
                    results.len() == all.len(),
                    forall|k: int|
                        0 <= k < all.len() ==> #[trigger] results[k] == schema_of(all[k].1),
                    first_complaint(results.take(i as int)) is None,
                    entries.len() == i,
                    forall|k: int|
                        0 <= k < i ==> (#[trigger] entries[k]).0@ == all[k].0 && results[k] == Ok::<
                            SchemaView,
                            OpenApiErrorView,
                        >(entries[k].1@),
                decreases members.len() - i,
            {
                proof {
                    lemma_first_complaint_step(results, i as int);
                    assert(all[i as int] == (members[i as int].0@, members[i as int].1@));
                }
                match schema_from(&members[i].1) {
                    Ok(schema) => entries.push((members[i].0.clone(), schema)),
                    Err(e) => {
                        proof {
                            lemma_first_complaint_stays(results, i + 1);
                        }
                        return Err(e);
                    },
                }
                i += 1;
            }
            proof {
                assert(results.take(i as int) == results);
            }
            match repeated_name(members) {
                Some(e) => Err(e),
                None => {
                    proof {
                        let values = results.map_values(
                            |r: Result<SchemaView, OpenApiErrorView>| r->Ok_0,
                        );
                        assert(entries.deep_view() =~= Seq::new(
                            all.len(),
                            |i: int| (all[i].0, values[i]),
                        ));
                    }
                    Ok(entries)
                },
            }
        },
        _ => Err(mistyped_error("schemas", "a mapping")),
    }
}

/// A schema that may be absent.
pub fn optional_schema_field(members: &Vec<(String, Node)>) -> (r: Result<
    Option<Schema>,
    OpenApiError,
>)
    ensures
        result_view(r) == optional_schema_at(members.deep_view()),
{
    match find(members, "schema") {
        Some(i) => {
            assert(members.deep_view()[i as int] == (members[i as int].0@, members[i as int].1@));
            match schema_from(&members[i].1) {
                Ok(schema) => Ok(Some(schema)),
                Err(e) => Err(e),
            }
        },
        None => Ok(None),
    }
}

/// The schema of the data sent under one media type.
pub fn media_type_from(node: &Node) -> (r: Result<MediaType, OpenApiError>)
    ensures
        result_view(r) == media_type_of(node@),
{
    match node {
        Node::Mapping(members) => {
            proof {
                lemma_mapping_view(*members);
            }
            match optional_schema_field(members) {
                Ok(schema) => Ok(MediaType { schema }),
                Err(e) => Err(e),
            }
        },
        _ => Err(mistyped_error("media type", "a mapping")),
    }
}

/// The dictionary of media types that a tree stands for.
pub fn content_from(node: &Node) -> (r: Result<Vec<(String, MediaType)>, OpenApiError>)
    ensures
        result_view(r) == content_in(node@),
{
    match node {
        Node::Mapping(members) => {
            proof {
                lemma_mapping_view(*members);
            }
            let ghost all = members.deep_view();
            let ghost results = all.map_values(|m: (Seq<char>, NodeView)| media_type_of(m.1));
            let mut entries: Vec<(String, MediaType)> = Vec::new();
            let mut i: usize = 0;
            assert(results.take(0) =~= Seq::empty());
            while i < members.len()
                invariant
                    i <= members.len(),
                    all == members.deep_view(),
                    node@ == NodeView::Mapping(all),
                    results == all.map_values(|m: (Seq<char>, NodeView)| media_type_of(m.1)),
                    first_complaint(results.take(i as int)) is None,
                    entries.len() == i,
                    forall|k: int|
                        0 <= k < i ==> (#[trigger] entries[k]).0@ == all[k].0 && results[k] == Ok::<
                            MediaTypeView,
                            OpenApiErrorView,
                        >(entries[k].1@),
                decreases members.len() - i,
            {
                proof {
                    lemma_first_complaint_step(results, i as int);
                    assert(all[i as int] == (members[i as int].0@, members[i as int].1@));
                }
                match media_type_from(&members[i].1) {
                    Ok(value) => entries.push((members[i].0.clone(), value)),
                    Err(e) => {
                        proof {
                            lemma_first_complaint_stays(results, i + 1);
                        }
                        return Err(e);
                    },
                }
                i += 1;
            }
            proof {
                assert(results.take(i as int) == results);
            }
            match repeated_name(members) {
                Some(e) => Err(e),
                None => {
                    proof {
                        let values = results.map_values(
                            |r: Result<MediaTypeView, OpenApiErrorView>| r->Ok_0,
                        );
                        assert(entries.deep_view() =~= Seq::new(
                            all.len(),
                            |i: int| (all[i].0, values[i]),
                        ));
                    }
                    Ok(entries)
                },
            }
        },
        _ => Err(mistyped_error("content", "a mapping")),
    }
}

/// A parameter of an operation.
pub fn parameter_from(node: &Node) -> (r: Result<Parameter, OpenApiError>)
    ensures
        result_view(r) == parameter_of(node@),
{
    match node {
        Node::Mapping(members) => {
            proof {
                lemma_mapping_view(*members);
            }
            let name = match text_field(members, "name") {
                Ok(v) => v,
                Err(e) => return Err(e),
            };
            let in_ = match text_field(members, "in") {
                Ok(v) => v,
                Err(e) => return Err(e),
            };
            let required = match flag_field(members, "required") {
                Ok(v) => v,
                Err(e) => return Err(e),
            };
            let schema = match optional_schema_field(members) {
                Ok(v) => v,
                Err(e) => return Err(e),
            };
            Ok(Parameter { name, in_, required, schema })
        },
        _ => Err(mistyped_error("parameter", "a mapping")),
    }
}

/// The list of parameters that a tree stands for.
pub fn parameters_from(node: &Node) -> (r: Result<Vec<Parameter>, OpenApiError>)
    ensures
        result_view(r) == parameters_in(node@),
{
    match node {
        Node::Sequence(items) => {
            proof {
                lemma_sequence_view(*items);
            }
            let ghost all = items.deep_view();
            let ghost results = all.map_values(|item: NodeView| parameter_of(item));
            let mut parameters: Vec<Parameter> = Vec::new();
            let mut i: usize = 0;
            assert(results.take(0) =~= Seq::empty());
            while i < items.len()
                invariant
                    i <= items.len(),
                    all == items.deep_view(),
                    node@ == NodeView::Sequence(all),
                    results == all.map_values(|item: NodeView| parameter_of(item)),
                    first_complaint(results.take(i as int)) is None,
                    parameters.len() == i,
                    forall|k: int|
                        0 <= k < i ==> results[k] == Ok::<ParameterView, OpenApiErrorView>(
                            (#[trigger] parameters[k])@,
                        ),
                decreases items.len() - i,
            {
                proof {
                    lemma_first_complaint_step(results, i as int);
                    assert(all[i as int] == items[i as int]@);
                }
                match parameter_from(&items[i]) {
                    Ok(parameter) => parameters.push(parameter),
                    Err(e) => {
                        proof {
                            lemma_first_complaint_stays(results, i + 1);
                        }
                        return Err(e);
                    },
                }
                i += 1;
            }
            proof {
                assert(results.take(i as int) == results);
                assert(parameters.deep_view() =~= results.map_values(
                    |r: Result<ParameterView, OpenApiErrorView>| r->Ok_0,
                ));
            }
            Ok(parameters)
        },
        _ => Err(mistyped_error("parameters", "a sequence")),
    }
}

/// The body of a request.
pub fn request_body_from(node: &Node) -> (r: Result<RequestBody, OpenApiError>)
    ensures
        result_view(r) == request_body_of(node@),
{
    match node {
        Node::Mapping(members) => {
            proof {
                lemma_mapping_view(*members);
            }
            match find(members, "content") {
                Some(i) => {
                    assert(members.deep_view()[i as int] == (
                        members[i as int].0@,
                        members[i as int].1@,
                    ));
                    match content_from(&members[i].1) {
                        Ok(content) => Ok(RequestBody { content }),
                        Err(e) => Err(e),
                    }
                },
                None => Err(missing_error("content")),
            }
        },
        _ => Err(mistyped_error("requestBody", "a mapping")),
    }
}

/// One answer of an operation.
pub fn response_from(node: &Node) -> (r: Result<Response, OpenApiError>)
    ensures
        result_view(r) == response_of(node@),
{
    match node {
        Node::Mapping(members) => {
            proof {
                lemma_mapping_view(*members);
            }
            let description = match text_field(members, "description") {
                Ok(v) => v,
                Err(e) => return Err(e),
            };
            let content = match find(members, "content") {
                Some(i) => {
                    assert(members.deep_view()[i as int] == (
                        members[i as int].0@,
                        members[i as int].1@,
                    ));
                    match content_from(&members[i].1) {
                        Ok(c) => Some(c),
                        Err(e) => return Err(e),
                    }
                },
                None => None,
            };
            Ok(Response { description, content })
        },
        _ => Err(mistyped_error("response", "a mapping")),
    }
}

/// The dictionary of answers that a tree stands for, be it empty.
pub fn response_entries_from(node: &Node) -> (r: Result<Vec<(String, Response)>, OpenApiError>)
    ensures
        result_view(r) == response_entries_in(node@),
{
    match node {
        Node::Mapping(members) => {
            proof {
                lemma_mapping_view(*members);
            }
            let ghost all = members.deep_view();
            let ghost results = all.map_values(|m: (Seq<char>, NodeView)| response_of(m.1));
            let mut entries: Vec<(String, Response)> = Vec::new();
            let mut i: usize = 0;
            assert(results.take(0) =~= Seq::empty());
            while i < members.len()
                invariant
                    i <= members.len(),
                    all == members.deep_view(),
                    node@ == NodeView::Mapping(all),
                    results == all.map_values(|m: (Seq<char>, NodeView)| response_of(m.1)),
                    first_complaint(results.take(i as int)) is None,
                    entries.len() == i,
                    forall|k: int|
                        0 <= k < i ==> (#[trigger] entries[k]).0@ == all[k].0 && results[k] == Ok::<
                            ResponseView,
                            OpenApiErrorView,
                        >(entries[k].1@),
                decreases members.len() - i,
            {
                proof {
                    lemma_first_complaint_step(results, i as int);
                    assert(all[i as int] == (members[i as int].0@, members[i as int].1@));
                }
                match response_from(&members[i].1) {
                    Ok(value) => entries.push((members[i].0.clone(), value)),
                    Err(e) => {
                        proof {
                            lemma_first_complaint_stays(results, i + 1);
                        }
                        return Err(e);
                    },
                }
                i += 1;
            }
            proof {
                assert(results.take(i as int) == results);
            }
            match repeated_name(members) {
                Some(e) => Err(e),
                None => {
                    proof {
                        let values = results.map_values(
                            |r: Result<ResponseView, OpenApiErrorView>| r->Ok_0,
                        );
                        assert(entries.deep_view() =~= Seq::new(
                            all.len(),
                            |i: int| (all[i].0, values[i]),
                        ));
                    }
                    Ok(entries)
                },
            }
        },
        _ => Err(mistyped_error("responses", "a mapping")),
    }
}

/// The answers of an operation by status code: at least one.
pub fn responses_from(node: &Node) -> (r: Result<Vec<(String, Response)>, OpenApiError>)
    ensures
        result_view(r) == responses_in(node@),
{
    match response_entries_from(node) {
        Ok(entries) => if entries.len() == 0 {
            Err(
                OpenApiError::ParseError(
                    "invalid value for `responses`: expected at least one response".to_owned(),
                ),
            )
        } else {
            Ok(entries)
        },
        Err(e) => Err(e),
    }
}

/// What one method does on one path.
pub fn operation_from(node: &Node) -> (r: Result<Operation, OpenApiError>)
    ensures
        result_view(r) == operation_of(node@),
{
    match node {
        Node::Mapping(members) => {
            proof {
                lemma_mapping_view(*members);
                assert forall|i: int| 0 <= i < members.len() implies #[trigger] members.deep_view()[i]
                    == (members[i].0@, members[i].1@) by {}
            }
            let operation_id = match optional_text_field(members, "operationId") {
                Ok(v) => v,
                Err(e) => return Err(e),
            };
            let summary = match optional_text_field(members, "summary") {
                Ok(v) => v,
                Err(e) => return Err(e),
            };
            let parameters = match find(members, "parameters") {
                Some(i) => match parameters_from(&members[i].1) {
                    Ok(p) => Some(p),
                    Err(e) => return Err(e),
                },
                None => None,
            };
            let request_body = match find(members, "requestBody") {
                Some(i) => match request_body_from(&members[i].1) {
                    Ok(b) => Some(b),
                    Err(e) => return Err(e),
                },
                None => None,
            };
            let responses = match find(members, "responses") {
                Some(i) => match responses_from(&members[i].1) {
                    Ok(answers) => answers,
                    Err(e) => return Err(e),
                },
                None => return Err(missing_error("responses")),
            };
            Ok(Operation { operation_id, summary, parameters, request_body, responses })
        },
        _ => Err(mistyped_error("operation", "a mapping")),
    }
}

/// An operation that may be absent.
pub fn optional_operation_field(members: &Vec<(String, Node)>, method: &str) -> (r: Result<
    Option<Operation>,
    OpenApiError,
>)
    ensures
        result_view(r) == optional_operation_at(members.deep_view(), method@),
{
    match find(members, method) {
        Some(i) => {
            assert(members.deep_view()[i as int] == (members[i as int].0@, members[i as int].1@));
            match operation_from(&members[i].1) {
                Ok(operation) => Ok(Some(operation)),
                Err(e) => Err(e),
            }
        },
        None => Ok(None),
    }
}

/// The operations of one path.
pub fn path_item_from(node: &Node) -> (r: Result<PathItem, OpenApiError>)
    ensures
        result_view(r) == path_item_of(node@),
{
    match node {
        Node::Mapping(members) => {
            proof {
                lemma_mapping_view(*members);
            }
            let get = match optional_operation_field(members, "get") {
                Ok(v) => v,
                Err(e) => return Err(e),
            };
            let post = match optional_operation_field(members, "post") {
                Ok(v) => v,
                Err(e) => return Err(e),
            };
            let put = match optional_operation_field(members, "put") {
                Ok(v) => v,
                Err(e) => return Err(e),
            };
            let delete = match optional_operation_field(members, "delete") {
                Ok(v) => v,
                Err(e) => return Err(e),
            };
            Ok(PathItem { get, post, put, delete })
        },
        _ => Err(mistyped_error("path item", "a mapping")),
    }
}

/// The operations by path that a tree stands for.
pub fn paths_from(node: &Node) -> (r: Result<Vec<(String, PathItem)>, OpenApiError>)
    ensures
        result_view(r) == paths_in(node@),
{
    match node {
        Node::Mapping(members) => {
            proof {
                lemma_mapping_view(*members);
            }
            let ghost all = members.deep_view();
            let ghost results = all.map_values(|m: (Seq<char>, NodeView)| path_item_of(m.1));
            let mut entries: Vec<(String, PathItem)> = Vec::new();
            let mut i: usize = 0;
            assert(results.take(0) =~= Seq::empty());
            while i < members.len()
                invariant
                    i <= members.len(),
                    all == members.deep_view(),
                    node@ == NodeView::Mapping(all),
                    results == all.map_values(|m: (Seq<char>, NodeView)| path_item_of(m.1)),
                    first_complaint(results.take(i as int)) is None,
                    entries.len() == i,
                    forall|k: int|
                        0 <= k < i ==> (#[trigger] entries[k]).0@ == all[k].0 && results[k] == Ok::<
                            PathItemView,
                            OpenApiErrorView,
                        >(entries[k].1@),
                decreases members.len() - i,
            {
                proof {
                    lemma_first_complaint_step(results, i as int);
                    assert(all[i as int] == (members[i as int].0@, members[i as int].1@));
                }
                match path_item_from(&members[i].1) {
                    Ok(value) => entries.push((members[i].0.clone(), value)),
                    Err(e) => {
                        proof {
                            lemma_first_complaint_stays(results, i + 1);
                        }
                        return Err(e);
                    },
                }
                i += 1;
            }
            proof {
                assert(results.take(i as int) == results);
            }
            match repeated_name(members) {
                Some(e) => Err(e),
                None => {
                    proof {
                        let values = results.map_values(
                            |r: Result<PathItemView, OpenApiErrorView>| r->Ok_0,
                        );
                        assert(entries.deep_view() =~= Seq::new(
                            all.len(),
                            |i: int| (all[i].0, values[i]),
                        ));
                    }
                    Ok(entries)
                },
            }
        },
        _ => Err(mistyped_error("paths", "a mapping")),
    }
}

/// The named schemas of a description.
pub fn components_from(node: &Node) -> (r: Result<Components, OpenApiError>)
    ensures
        result_view(r) == components_of(node@),
{
    match node {
        Node::Mapping(members) => {
            proof {
                lemma_mapping_view(*members);
            }
            match find(members, "schemas") {
                Some(i) => {
                    assert(members.deep_view()[i as int] == (
                        members[i as int].0@,
                        members[i as int].1@,
                    ));
                    match named_schemas_from(&members[i].1) {
                        Ok(schemas) => Ok(Components { schemas }),
                        Err(e) => Err(e),
                    }
                },
                None => Err(missing_error("schemas")),
            }
        },
        _ => Err(mistyped_error("components", "a mapping")),
    }
}

impl OpenApiSpec {
    /// The description that a tree stands for.
    ///
    /// The tree must have the shape of a description; what the description
    /// says is not examined, so a reference may point to a schema that is not
    /// there.
    pub fn from_node(node: &Node) -> (r: Result<OpenApiSpec, OpenApiError>)
        ensures
            result_view(r) == document_of(node@),
            r matches Ok(spec) ==> spec@.well_formed(),
    {
        proof {
            if document_of(node@) is Ok {
                law_read_description_is_well_formed(node@);
            }
        }
        match node {
            Node::Mapping(members) => {
                proof {
                    lemma_mapping_view(*members);
                    assert forall|i: int| 0 <= i < members.len() implies #[trigger] members.deep_view()[i]
                        == (members[i].0@, members[i].1@) by {}
                }
                let openapi = match text_field(members, "openapi") {
                    Ok(v) => v,
                    Err(e) => return Err(e),
                };
                let info = match find(members, "info") {
                    Some(i) => match info_from(&members[i].1) {
                        Ok(v) => v,
                        Err(e) => return Err(e),
                    },
                    None => return Err(missing_error("info")),
                };
                let paths = match find(members, "paths") {
                    Some(i) => match paths_from(&members[i].1) {
                        Ok(v) => v,
                        Err(e) => return Err(e),
                    },
                    None => return Err(missing_error("paths")),
                };
                let components = match find(members, "components") {
                    Some(i) => match components_from(&members[i].1) {
                        Ok(v) => Some(v),
                        Err(e) => return Err(e),
                    },
                    None => None,
                };
                Ok(OpenApiSpec { openapi, info, paths, components })
            },
            _ => Err(mistyped_error("document", "a mapping")),
        }
    }
}

} // verus!
