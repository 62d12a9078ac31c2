//! The data type emitter: from each named schema to the definition of a data
//! type.

use vstd::prelude::*;
use crate::mapper::{resolved, CodeGenerator};
use crate::model::{lemma_named_schema_views, OpenApiSpec, OpenApiSpecView, Schema, SchemaView};
use crate::names::{by_name, find_repeat, first_repeat, name_order_of, names_of};
use crate::text::{same_text, sanitize, sanitized};
use crate::types::{
    FieldDef, FieldDefView, GenerateError, GenerateErrorView, StructBody, StructBodyView,
    StructDef, StructDefView,
};
use crate::views::result_view;

verus! {

/// The failure that is reported where several things were lowered: the one of
/// the lowest rank, and among those of one rank the first.
pub open spec fn reported<T>(results: Seq<Result<T, GenerateErrorView>>) -> Option<
    GenerateErrorView,
>
    decreases results.len(),
{
    if results.len() == 0 {
        None
    } else {
        let before = reported(results.drop_last());
        match results.last() {
            Ok(_) => before,
            Err(e) => Some(earlier(before, e)),
        }
    }
}

/// The failure that is reported of `before` and a later failure `next`.
pub open spec fn earlier(before: Option<GenerateErrorView>, next: GenerateErrorView)
    -> GenerateErrorView {
    match before {
        Some(b) => if next.rank() < b.rank() {
            next
        } else {
            b
        },
        None => next,
    }
}

/// What the results hold, where each is a success.
pub open spec fn values<T>(results: Seq<Result<T, GenerateErrorView>>) -> Seq<T> {
    results.map_values(|r: Result<T, GenerateErrorView>| r->Ok_0)
}

/// All the values, or the failure that is reported.
pub open spec fn collected<T>(results: Seq<Result<T, GenerateErrorView>>) -> Result<
    Seq<T>,
    GenerateErrorView,
> {
    match reported(results) {
        Some(e) => Err(e),
        None => Ok(values(results)),
    }
}

/// `items`, or the collision of the first of `idents` that repeats.
pub open spec fn distinct_or_collision<T>(items: Seq<T>, idents: Seq<Seq<char>>) -> Result<
    Seq<T>,
    GenerateErrorView,
> {
    match first_repeat(idents) {
        Some(k) => Err(GenerateErrorView::IdentifierCollision(idents[k])),
        None => Ok(items),
    }
}

/// Whether the list of required names holds `name`.
pub open spec fn requires_name(required: Option<Seq<Seq<char>>>, name: Seq<char>) -> bool {
    required is Some && required->0.contains(name)
}

/// The field for one property: its name made an identifier, its schema's
/// type, and optional unless the property is required.
pub open spec fn field_of(
    property: (Seq<char>, SchemaView),
    required: Option<Seq<Seq<char>>>,
    names: Seq<Seq<char>>,
) -> Result<FieldDefView, GenerateErrorView> {
    match resolved(property.1, names) {
        Ok(ty) => Ok(
            FieldDefView {
                name: sanitized(property.0),
                ty,
                optional: !requires_name(required, property.0),
            },
        ),
        Err(e) => Err(e),
    }
}

/// The names of fields.
pub open spec fn field_names(fields: Seq<FieldDefView>) -> Seq<Seq<char>> {
    fields.map_values(|f: FieldDefView| f.name)
}

/// The fields for the properties of an object, in the order of the
/// properties' names. Two properties with one identifier collide.
pub open spec fn fields_of(
    properties: Seq<(Seq<char>, SchemaView)>,
    required: Option<Seq<Seq<char>>>,
    names: Seq<Seq<char>>,
) -> Result<Seq<FieldDefView>, GenerateErrorView> {
    let results = by_name(properties).map_values(
        |p: (Seq<char>, SchemaView)| field_of(p, required, names),
    );
    match collected(results) {
        Ok(fields) => distinct_or_collision(fields, field_names(fields)),
        Err(e) => Err(e),
    }
}

/// The data type for the schema named `name`.
///
/// An object with properties becomes a record of their fields, an object
/// without properties an empty record, and any other schema a wrapper of the
/// type that stands for it.
pub open spec fn struct_of(name: Seq<char>, schema: SchemaView, names: Seq<Seq<char>>) -> Result<
    StructDefView,
    GenerateErrorView,
> {
    match schema {
        SchemaView::Object { properties, required, .. } => match properties {
            Some(props) => match fields_of(props, required, names) {
                Ok(fields) => Ok(
                    StructDefView { name: sanitized(name), body: StructBodyView::Record(fields) },
                ),
                Err(e) => Err(e),
            },
            None => Ok(
                StructDefView {
                    name: sanitized(name),
                    body: StructBodyView::Record(Seq::empty()),
                },
            ),
        },
        _ => match resolved(schema, names) {
            Ok(ty) => Ok(StructDefView { name: sanitized(name), body: StructBodyView::Wrapper(ty) }),
            Err(e) => Err(e),
        },
    }
}

/// The names of data types.
pub open spec fn struct_names(structs: Seq<StructDefView>) -> Seq<Seq<char>> {
    structs.map_values(|s: StructDefView| s.name)
}

/// The data types for the named schemas, in the order of the schemas' names.
/// Two schemas with one identifier collide.
pub open spec fn structs_of(schemas: Seq<(Seq<char>, SchemaView)>) -> Result<
    Seq<StructDefView>,
    GenerateErrorView,
> {
    let results = by_name(schemas).map_values(
        |s: (Seq<char>, SchemaView)| struct_of(s.0, s.1, names_of(schemas)),
    );
    match collected(results) {
        Ok(structs) => distinct_or_collision(structs, struct_names(structs)),
        Err(e) => Err(e),
    }
}

/// The named schemas of a description; none where it has no components.
pub open spec fn schemas_of(spec: OpenApiSpecView) -> Seq<(Seq<char>, SchemaView)> {
    match spec.components {
        Some(components) => components.schemas,
        None => Seq::empty(),
    }
}

impl GenerateError {
    /// How early the failure is reported.
    pub fn rank(&self) -> (r: u8)
        ensures
            r == self@.rank(),
    {
        match self {
            GenerateError::UnsupportedConstruct(_) => 0,
            GenerateError::UnresolvedReference(_) => 1,
            GenerateError::IdentifierCollision(_) => 2,
        }
    }
}

/// The failure that is reported of `before` and a later failure `next`.
pub fn earlier_of(before: Option<GenerateError>, next: GenerateError) -> (kept: GenerateError)
    ensures
        kept@ == earlier(before.deep_view(), next@),
{
    match before {
        Some(b) => if next.rank() < b.rank() {
            next
        } else {
            b
        },
        None => next,
    }
}

/// Whether the list of required names holds `name`.
pub fn is_required(required: &Option<Vec<String>>, name: &str) -> (yes: bool)
    ensures
        yes == requires_name(required.deep_view(), name@),
{
    match required {
        Some(list) => {
            let ghost all = list.deep_view();
            let mut i: usize = 0;
            while i < list.len()
                invariant
                    i <= list.len(),
                    all == list.deep_view(),
                    required.deep_view() == Some(all),
                    forall|k: int| 0 <= k < i ==> all[k] != name@,
                decreases list.len() - i,
            {
                assert(all[i as int] == list[i as int]@);
                if same_text(list[i].as_str(), name) {
                    assert(all.contains(all[i as int]));
                    return true;
                }
                i += 1;
            }
            false
        },
        None => false,
    }
}

/// One more result extends what is reported and what is held.
pub proof fn lemma_collected_step<T>(results: Seq<Result<T, GenerateErrorView>>, k: int)
    requires
        0 <= k < results.len(),
    ensures
        reported(results.take(k + 1)) == match results[k] {
            Ok(_) => reported(results.take(k)),
            Err(e) => Some(earlier(reported(results.take(k)), e)),
        },
        values(results.take(k + 1)) == values(results.take(k)).push(results[k]->Ok_0),
{
    assert(results.take(k + 1).drop_last() == results.take(k));
    assert(results.take(k + 1).last() == results[k]);
    assert(values(results.take(k + 1)) =~= values(results.take(k)).push(results[k]->Ok_0));
}

impl CodeGenerator {
    /// The fields for the properties of an object.
    pub fn fields_for(
        properties: &Vec<(String, Schema)>,
        required: &Option<Vec<String>>,
        components: &Vec<(String, Schema)>,
    ) -> (result: Result<Vec<FieldDef>, GenerateError>)
        ensures
            result_view(result) == fields_of(
                properties.deep_view(),
                required.deep_view(),
                names_of(components.deep_view()),
            ),
    {
        let ghost names = names_of(components.deep_view());
        let ghost results = by_name(properties.deep_view()).map_values(
            |p: (Seq<char>, SchemaView)| field_of(p, required.deep_view(), names),
        );
        let order = name_order_of(properties);
        let mut fields: Vec<FieldDef> = Vec::new();
        let mut idents: Vec<String> = Vec::new();
        let mut failure: Option<GenerateError> = None;
        let mut k: usize = 0;
        assert(results.take(0) =~= Seq::empty());
        assert(fields.deep_view() =~= values(results.take(0)));
        assert(idents.deep_view() =~= field_names(fields.deep_view()));
        while k < order.len()
            invariant
                k <= order.len(),
                order.len() == properties.len(),
                results.len() == properties.len(),
                names == names_of(components.deep_view()),
                results == by_name(properties.deep_view()).map_values(
                    |p: (Seq<char>, SchemaView)| field_of(p, required.deep_view(), names),
                ),
                forall|i: int| 0 <= i < order.len() ==> #[trigger] order[i] < properties.len(),
                forall|i: int|
                    0 <= i < order.len() ==> by_name(properties.deep_view())[i]
                        == #[trigger] properties.deep_view()[order[i] as int],
                failure.deep_view() == reported(results.take(k as int)),
                failure is None ==> fields.deep_view() == values(results.take(k as int)),
                idents.deep_view() == field_names(fields.deep_view()),
            decreases order.len() - k,
        {
            let property = &properties[order[k]];
            proof {
                lemma_collected_step(results, k as int);
                assert(properties.deep_view()[order[k as int] as int] == (
                    property.0@,
                    property.1@,
                ));
                assert(results[k as int] == field_of(
                    (property.0@, property.1@),
                    required.deep_view(),
                    names,
                ));
            }
            match Self::schema_to_type(&property.1, components) {
                Ok(ty) => {
                    if failure.is_none() {
                        let name = sanitize(property.0.as_str());
                        let optional = !is_required(required, property.0.as_str());
                        let ghost fields_before = fields.deep_view();
                        let ghost idents_before = idents.deep_view();
                        idents.push(name.clone());
                        fields.push(FieldDef { name, ty, optional });
                        proof {
                            let field = results[k as int]->Ok_0;
                            assert(fields.deep_view() =~= fields_before.push(field));
                            assert(idents.deep_view() =~= idents_before.push(field.name));
                            assert(idents.deep_view() =~= field_names(fields.deep_view()));
                        }
                    }
                },
                Err(e) => {
                    failure = Some(earlier_of(failure, e));
                },
            }
            k += 1;
        }
        assert(results.take(k as int) == results);
        match failure {
            Some(e) => Err(e),
            None => match find_repeat(&idents) {
                Some(at) => Err(GenerateError::IdentifierCollision(idents[at].clone())),
                None => Ok(fields),
            },
        }
    }

    /// The data type for the schema named `name`, where `components` holds
    /// the named schemas that a reference may point to.
    pub fn schema_to_struct(name: &str, schema: &Schema, components: &Vec<(String, Schema)>) -> (result:
        Result<StructDef, GenerateError>)
        ensures
            result_view(result) == struct_of(name@, schema@, names_of(components.deep_view())),
    {
        match schema {
            Schema::Object { properties, required, .. } => match properties {
                Some(props) => {
                    proof {
                        lemma_named_schema_views(*props);
                    }
                    match Self::fields_for(props, required, components) {
                        Ok(fields) => Ok(
                            StructDef { name: sanitize(name), body: StructBody::Record(fields) },
                        ),
                        Err(e) => Err(e),
                    }
                },
                None => {
                    let fields: Vec<FieldDef> = Vec::new();
                    assert(fields.deep_view() =~= Seq::empty());
                    Ok(StructDef { name: sanitize(name), body: StructBody::Record(fields) })
                },
            },
            _ => match Self::schema_to_type(schema, components) {
                Ok(ty) => Ok(StructDef { name: sanitize(name), body: StructBody::Wrapper(ty) }),
                Err(e) => Err(e),
            },
        }
    }

    /// The data types for the named schemas of `components`.
    pub fn structs_for(components: &Vec<(String, Schema)>) -> (result: Result<
        Vec<StructDef>,
        GenerateError,
    >)
        ensures
            result_view(result) == structs_of(components.deep_view()),
    {
        let ghost names = names_of(components.deep_view());
        let ghost results = by_name(components.deep_view()).map_values(
            |s: (Seq<char>, SchemaView)| struct_of(s.0, s.1, names),
        );
        let order = name_order_of(components);
        let mut structs: Vec<StructDef> = Vec::new();
        let mut idents: Vec<String> = Vec::new();
        let mut failure: Option<GenerateError> = None;
        let mut k: usize = 0;
        assert(results.take(0) =~= Seq::empty());
        assert(structs.deep_view() =~= values(results.take(0)));
        assert(idents.deep_view() =~= struct_names(structs.deep_view()));
        while k < order.len()
            invariant
                k <= order.len(),
                order.len() == components.len(),
                results.len() == components.len(),
                names == names_of(components.deep_view()),
                results == by_name(components.deep_view()).map_values(
                    |s: (Seq<char>, SchemaView)| struct_of(s.0, s.1, names),
                ),
                forall|i: int| 0 <= i < order.len() ==> #[trigger] order[i] < components.len(),
                forall|i: int|
                    0 <= i < order.len() ==> by_name(components.deep_view())[i]
                        == #[trigger] components.deep_view()[order[i] as int],
                failure.deep_view() == reported(results.take(k as int)),
                failure is None ==> structs.deep_view() == values(results.take(k as int)),
                idents.deep_view() == struct_names(structs.deep_view()),
            decreases order.len() - k,
        {
            let named = &components[order[k]];
            proof {
                lemma_collected_step(results, k as int);
                assert(components.deep_view()[order[k as int] as int] == (named.0@, named.1@));
                assert(results[k as int] == struct_of(named.0@, named.1@, names));
            }
            match Self::schema_to_struct(named.0.as_str(), &named.1, components) {
                Ok(def) => {
                    if failure.is_none() {
                        let ghost structs_before = structs.deep_view();
                        let ghost idents_before = idents.deep_view();
                        idents.push(def.name.clone());
                        structs.push(def);
                        proof {
                            let made = results[k as int]->Ok_0;
                            assert(structs.deep_view() =~= structs_before.push(made));
                            assert(idents.deep_view() =~= idents_before.push(made.name));
                            assert(idents.deep_view() =~= struct_names(structs.deep_view()));
                        }
                    }
                },
                Err(e) => {
                    failure = Some(earlier_of(failure, e));
                },
            }
            k += 1;
        }
        assert(results.take(k as int) == results);
        match failure {
            Some(e) => Err(e),
            None => match find_repeat(&idents) {
                Some(at) => Err(GenerateError::IdentifierCollision(idents[at].clone())),
                None => Ok(structs),
            },
        }
    }

    /// The data types for the named schemas of a description, in the order of
    /// the schemas' names.
    pub fn generate_data_structures(spec: &OpenApiSpec) -> (result: Result<
        Vec<StructDef>,
        GenerateError,
    >)
        ensures
            result_view(result) == structs_of(schemas_of(spec@)),
    {
        match &spec.components {
            Some(components) => Self::structs_for(&components.schemas),
            None => {
                let none: Vec<(String, Schema)> = Vec::new();
                assert(none.deep_view() =~= Seq::empty());
                Self::structs_for(&none)
            },
        }
    }
}

} // verus!
