//! The type mapper: from a schema to the type that stands for it in the
//! generated code.

use vstd::prelude::*;
use crate::model::{Schema, SchemaView};
use crate::names::{contains_name, names_of};
use crate::text::{chars_of, same_text, sanitize, sanitized};
use crate::types::{GenerateError, GenerateErrorView, TypeExpr, TypeExprView};
use crate::views::result_view;

verus! {

/// The generator of the server skeleton. It holds no state: every function
/// takes what it reads as an argument.
pub struct CodeGenerator;

/// What follows the last `/` of a pointer; the whole pointer where it holds no
/// `/`.
pub open spec fn last_segment(pointer: Seq<char>) -> Seq<char>
    decreases pointer.len(),
{
    if pointer.len() == 0 {
        pointer
    } else if pointer.last() == '/' {
        Seq::empty()
    } else {
        last_segment(pointer.drop_last()).push(pointer.last())
    }
}

/// The type of a primitive with the given type word and format.
pub open spec fn primitive(word: Seq<char>, format: Option<Seq<char>>) -> TypeExprView {
    if word == "string"@ {
        if format == Some("uuid"@) {
            TypeExprView::Uuid
        } else {
            TypeExprView::Text
        }
    } else if word == "integer"@ {
        if format == Some("int32"@) {
            TypeExprView::Int32
        } else {
            TypeExprView::Int64
        }
    } else if word == "number"@ {
        TypeExprView::Float64
    } else if word == "boolean"@ {
        TypeExprView::Boolean
    } else if word == "array"@ {
        TypeExprView::Sequence(Box::new(TypeExprView::Untyped))
    } else {
        TypeExprView::Untyped
    }
}

/// A list of what `item` is, where `item` is a type.
pub open spec fn sequence_of(item: Result<TypeExprView, GenerateErrorView>) -> Result<
    TypeExprView,
    GenerateErrorView,
> {
    match item {
        Ok(ty) => Ok(TypeExprView::Sequence(Box::new(ty))),
        Err(e) => Err(e),
    }
}

/// The type that stands for `schema`, where `names` are the names of the
/// named schemas.
///
/// A reference becomes the identifier of the schema that its last segment
/// names, and fails where no schema has that name. A combination of schemas
/// fails. An array becomes a list of its items' type, or of untyped values
/// where it declares no items. A primitive becomes the type of its word and
/// format. Everything else is an untyped value.
pub open spec fn resolved(schema: SchemaView, names: Seq<Seq<char>>) -> Result<
    TypeExprView,
    GenerateErrorView,
>
    decreases schema,
{
    match schema {
        SchemaView::Reference { ref_ } => {
            if names.contains(last_segment(ref_)) {
                Ok(TypeExprView::Named(sanitized(last_segment(ref_))))
            } else {
                Err(GenerateErrorView::UnresolvedReference(ref_))
            }
        },
        SchemaView::AllOf { .. } => Err(GenerateErrorView::UnsupportedConstruct("allOf"@)),
        SchemaView::OneOf { .. } => Err(GenerateErrorView::UnsupportedConstruct("oneOf"@)),
        SchemaView::AnyOf { .. } => Err(GenerateErrorView::UnsupportedConstruct("anyOf"@)),
        SchemaView::Not { .. } => Err(GenerateErrorView::UnsupportedConstruct("not"@)),
        SchemaView::ArrayType { items, .. } => sequence_of(resolved(*items, names)),
        SchemaView::Object { type_, items, .. } => {
            if type_ == Some("array"@) {
                match items {
                    Some(item) => sequence_of(resolved(*item, names)),
                    None => Ok(TypeExprView::Sequence(Box::new(TypeExprView::Untyped))),
                }
            } else {
                Ok(TypeExprView::Untyped)
            }
        },
        SchemaView::SimpleType { type_, format, .. } => Ok(primitive(type_, format)),
    }
}

/// Where the last `/` stands decides the last segment.
pub proof fn lemma_last_segment_after(pointer: Seq<char>, cut: int)
    requires
        0 <= cut <= pointer.len(),
        cut > 0 ==> pointer[cut - 1] == '/',
        forall|k: int| cut <= k < pointer.len() ==> pointer[k] != '/',
    ensures
        last_segment(pointer) == pointer.skip(cut),
    decreases pointer.len(),
{
    if pointer.len() == 0 {
        assert(pointer.skip(cut) =~= pointer);
    } else if cut == pointer.len() {
        if cut > 0 {
            assert(pointer.last() == '/');
        }
        assert(pointer.skip(cut) =~= Seq::<char>::empty());
    } else {
        assert(pointer.last() != '/');
        lemma_last_segment_after(pointer.drop_last(), cut);
        assert(pointer.drop_last().skip(cut).push(pointer.last()) =~= pointer.skip(cut));
    }
}

/// What follows the last `/` of `pointer`.
pub fn last_segment_of(pointer: &str) -> (segment: String)
    ensures
        segment@ == last_segment(pointer@),
{
    let chars = chars_of(pointer);
    let mut cut: usize = chars.len();
    while cut > 0 && chars[cut - 1] != '/'
        invariant
            cut <= chars.len(),
            forall|k: int| cut <= k < chars.len() ==> chars[k] != '/',
        decreases cut,
    {
        cut -= 1;
    }
    let mut segment = String::new();
    let mut i: usize = cut;
    while i < chars.len()
        invariant
            cut <= i <= chars.len(),
            segment@ == chars@.subrange(cut as int, i as int),
        decreases chars.len() - i,
    {
        segment.push(chars[i]);
        assert(chars@.subrange(cut as int, i + 1) == chars@.subrange(cut as int, i as int).push(
            chars@[i as int],
        ));
        i += 1;
    }
    proof {
        lemma_last_segment_after(pointer@, cut as int);
        assert(chars@.subrange(cut as int, chars.len() as int) == chars@.skip(cut as int));
    }
    segment
}

impl CodeGenerator {
    /// The identifier that stands for `ident`: every character that is
    /// neither alphanumeric nor an underscore becomes an underscore.
    pub fn sanitize_identifier(ident: &str) -> (clean: String)
        ensures
            clean@ == sanitized(ident@),
    {
        sanitize(ident)
    }

    /// The type that stands for `schema`, where `components` holds the named
    /// schemas that a reference may point to.
    pub fn schema_to_type(schema: &Schema, components: &Vec<(String, Schema)>) -> (result: Result<
        TypeExpr,
        GenerateError,
    >)
        ensures
            result_view(result) == resolved(schema@, names_of(components.deep_view())),
        decreases schema,
    {
        proof {
            reveal_with_fuel(TypeExpr::model, 2);
        }
        match schema {
            Schema::Reference { ref_ } => {
                let target = last_segment_of(ref_.as_str());
                if contains_name(components, target.as_str()) {
                    Ok(TypeExpr::Named(sanitize(target.as_str())))
                } else {
                    Err(GenerateError::UnresolvedReference(ref_.clone()))
                }
            },
            Schema::AllOf { .. } => Err(GenerateError::UnsupportedConstruct("allOf".to_owned())),
            Schema::OneOf { .. } => Err(GenerateError::UnsupportedConstruct("oneOf".to_owned())),
            Schema::AnyOf { .. } => Err(GenerateError::UnsupportedConstruct("anyOf".to_owned())),
            Schema::Not { .. } => Err(GenerateError::UnsupportedConstruct("not".to_owned())),
            Schema::ArrayType { items, .. } => {
                match Self::schema_to_type(items, components) {
                    Ok(ty) => Ok(TypeExpr::Sequence(Box::new(ty))),
                    Err(e) => Err(e),
                }
            },
            Schema::Object { type_, items, .. } => {
                let is_array = match type_ {
                    Some(word) => same_text(word.as_str(), "array"),
                    None => false,
                };
                if is_array {
                    match items {
                        Some(item) => match Self::schema_to_type(item, components) {
                            Ok(ty) => Ok(TypeExpr::Sequence(Box::new(ty))),
                            Err(e) => Err(e),
                        },
                        None => Ok(TypeExpr::Sequence(Box::new(TypeExpr::Untyped))),
                    }
                } else {
                    Ok(TypeExpr::Untyped)
                }
            },
            Schema::SimpleType { type_, format, .. } => Ok(primitive_type(type_, format)),
        }
    }
}

/// The type of a primitive with the given type word and format.
pub fn primitive_type(word: &String, format: &Option<String>) -> (ty: TypeExpr)
    ensures
        ty@ == primitive(word@, format.deep_view()),
{
    proof {
        reveal_with_fuel(TypeExpr::model, 2);
    }
    let word = word.as_str();
    if same_text(word, "string") {
        let is_uuid = match format {
            Some(f) => same_text(f.as_str(), "uuid"),
            None => false,
        };
        if is_uuid {
            TypeExpr::Uuid
        } else {
            TypeExpr::Text
        }
    } else if same_text(word, "integer") {
        let is_int32 = match format {
            Some(f) => same_text(f.as_str(), "int32"),
            None => false,
        };
        if is_int32 {
            TypeExpr::Int32
        } else {
            TypeExpr::Int64
        }
    } else if same_text(word, "number") {
        TypeExpr::Float64
    } else if same_text(word, "boolean") {
        TypeExpr::Boolean
    } else if same_text(word, "array") {
        TypeExpr::Sequence(Box::new(TypeExpr::Untyped))
    } else {
        TypeExpr::Untyped
    }
}

} // verus!
