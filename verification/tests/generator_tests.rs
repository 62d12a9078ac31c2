use openapi_to_axum::mapper::CodeGenerator;
use openapi_to_axum::model::{Components, Info, OpenApiSpec, Operation, PathItem, Response, Schema};
use openapi_to_axum::types::{FieldDef, GenerateError, RouteDef, StructBody, StructDef, TypeExpr};
use openapi_to_axum::{generate, OpenApiError, PipelineError, Syntax};

fn simple(word: &str, format: Option<&str>) -> Schema {
    Schema::SimpleType {
        type_: word.to_string(),
        format: format.map(|f| f.to_string()),
        enum_values: None,
    }
}

fn object(properties: Option<Vec<(&str, Schema)>>, required: Option<Vec<&str>>) -> Schema {
    Schema::Object {
        type_: Some("object".to_string()),
        properties: properties
            .map(|list| list.into_iter().map(|(name, schema)| (name.to_string(), schema)).collect()),
        required: required.map(|list| list.into_iter().map(|name| name.to_string()).collect()),
        items: None,
        format: None,
        enum_values: None,
    }
}

fn reference(pointer: &str) -> Schema {
    Schema::Reference { ref_: pointer.to_string() }
}

fn named(list: Vec<(&str, Schema)>) -> Vec<(String, Schema)> {
    list.into_iter().map(|(name, schema)| (name.to_string(), schema)).collect()
}

fn operation(id: Option<&str>) -> Operation {
    Operation {
        operation_id: id.map(|i| i.to_string()),
        summary: None,
        parameters: None,
        request_body: None,
        responses: vec![("200".to_string(), Response { description: "ok".to_string(), content: None })],
    }
}

fn document(paths: Vec<(&str, PathItem)>, schemas: Option<Vec<(&str, Schema)>>) -> OpenApiSpec {
    OpenApiSpec {
        openapi: "3.0.0".to_string(),
        info: Info { title: "T".to_string(), version: "1".to_string() },
        paths: paths.into_iter().map(|(path, item)| (path.to_string(), item)).collect(),
        components: schemas.map(|list| Components { schemas: named(list) }),
    }
}

fn get_only(id: Option<&str>) -> PathItem {
    PathItem { get: Some(operation(id)), post: None, put: None, delete: None }
}

const TASK_MANAGER: &str = r#"
openapi: "3.0.0"
info:
  title: "Task Manager"
  version: "1.0.0"
paths:
  /tasks:
    get:
      operationId: listTasks
      responses:
        "200":
          description: "The tasks"
    post:
      operationId: createTask
      responses:
        "201":
          description: "Created"
  /tasks/{id}:
    get:
      operationId: getTask
      responses:
        "200":
          description: "The task"
components:
  schemas:
    Task:
      type: object
      required:
        - id
        - title
      properties:
        id:
          type: string
          format: uuid
        title:
          type: string
        done:
          type: boolean
"#;

#[test]
fn test_generate_from_taskmanager_spec() {
    let spec = OpenApiSpec::from_yaml(TASK_MANAGER).expect("Failed to parse taskmanager.yaml");

    let generated = CodeGenerator::generate_axum_app(&spec);
    let output = generated.unwrap();

    // Verify key structures are generated
    assert!(output.contains("struct Task"));
    assert!(output.contains("async fn listTasks"));
    assert!(output.contains("Router::new()"));
}

#[test]
fn the_generated_module_is_exactly_this() {
    let spec = document(
        vec![("/tasks", get_only(Some("listTasks")))],
        Some(vec![(
            "Task",
            object(
                Some(vec![("title", simple("string", None)), ("id", simple("string", None))]),
                Some(vec!["id", "title"]),
            ),
        )]),
    );
    let expected = "use axum::{\n    routing::{get, post},\n    Router, Json, extract::Path,\n};\n\
use serde::{Deserialize, Serialize};\n\n\
#[derive(Debug, Deserialize, Serialize)]\npub struct Task {\n    pub id: String,\n    pub title: String,\n}\n\n\
async fn listTasks() -> &'static str {\n    \"Hello, World!\"\n}\n\n\
pub fn create_app() -> axum::Router {\n    axum::Router::new()\n        .route(\"/tasks\", axum::routing::get(listTasks))\n}\n";
    assert_eq!(CodeGenerator::generate_axum_app(&spec), Ok(expected.to_string()));
}

#[test]
fn one_task_and_one_route_end_to_end() {
    let json = r##"{
      "openapi": "3.0.0",
      "info": {"title": "Tasks", "version": "1"},
      "paths": {"/tasks": {"get": {"operationId": "listTasks", "responses": {"200": {"description": "ok"}}}}},
      "components": {"schemas": {"Task": {
        "type": "object",
        "required": ["id", "title"],
        "properties": {"id": {"type": "string"}, "title": {"type": "string"}}
      }}}
    }"##;
    let spec = OpenApiSpec::from_json(json).unwrap();
    let structs = CodeGenerator::generate_data_structures(&spec).unwrap();
    assert_eq!(
        structs,
        vec![StructDef {
            name: "Task".to_string(),
            body: StructBody::Record(vec![
                FieldDef { name: "id".to_string(), ty: TypeExpr::Text, optional: false },
                FieldDef { name: "title".to_string(), ty: TypeExpr::Text, optional: false },
            ]),
        }]
    );
    let routes = CodeGenerator::generate_routes(&spec).unwrap();
    assert_eq!(
        routes,
        vec![RouteDef {
            method: "get".to_string(),
            path: "/tasks".to_string(),
            handler: "listTasks".to_string()
        }]
    );
    let text = CodeGenerator::generate_axum_app(&spec).unwrap();
    assert!(text.contains("pub struct Task {\n    pub id: String,\n    pub title: String,\n}"));
    assert!(text.contains(".route(\"/tasks\", axum::routing::get(listTasks))"));
    assert!(text.contains("async fn listTasks() -> &'static str {"));
}

#[test]
fn running_twice_gives_the_same_text() {
    let first = CodeGenerator::generate_axum_app(&OpenApiSpec::from_yaml(TASK_MANAGER).unwrap());
    let second = CodeGenerator::generate_axum_app(&OpenApiSpec::from_yaml(TASK_MANAGER).unwrap());
    assert!(first.is_ok());
    assert_eq!(first, second);
}

#[test]
fn the_order_of_the_input_does_not_matter() {
    let a = document(
        vec![("/b", get_only(None)), ("/a", get_only(None))],
        Some(vec![
            ("Zebra", simple("string", None)),
            ("Apple", object(Some(vec![("y", simple("boolean", None)), ("x", simple("number", None))]), None)),
        ]),
    );
    let b = document(
        vec![("/a", get_only(None)), ("/b", get_only(None))],
        Some(vec![
            ("Apple", object(Some(vec![("x", simple("number", None)), ("y", simple("boolean", None))]), None)),
            ("Zebra", simple("string", None)),
        ]),
    );
    let text = CodeGenerator::generate_axum_app(&a).unwrap();
    assert_eq!(text, CodeGenerator::generate_axum_app(&b).unwrap());
    let apple = text.find("pub struct Apple").unwrap();
    let zebra = text.find("pub struct Zebra").unwrap();
    assert!(apple < zebra);
    assert!(text.find("pub x: Option<f64>").unwrap() < text.find("pub y: Option<bool>").unwrap());
    assert!(text.find("async fn handle_get__a").unwrap() < text.find("async fn handle_get__b").unwrap());
}

#[test]
fn a_required_property_is_not_optional_and_every_other_is() {
    let task = object(
        Some(vec![("id", simple("string", None)), ("title", simple("string", None))]),
        Some(vec!["id"]),
    );
    let def = CodeGenerator::schema_to_struct("Task", &task, &named(vec![])).unwrap();
    assert_eq!(
        def,
        StructDef {
            name: "Task".to_string(),
            body: StructBody::Record(vec![
                FieldDef { name: "id".to_string(), ty: TypeExpr::Text, optional: false },
                FieldDef { name: "title".to_string(), ty: TypeExpr::Text, optional: true },
            ]),
        }
    );
    assert_eq!(
        def.render(),
        "#[derive(Debug, Deserialize, Serialize)]\npub struct Task {\n    pub id: String,\n    pub title: Option<String>,\n}\n\n"
    );
}

#[test]
fn an_object_without_properties_is_an_empty_record() {
    let def = CodeGenerator::schema_to_struct("Empty", &object(None, None), &named(vec![])).unwrap();
    assert_eq!(def, StructDef { name: "Empty".to_string(), body: StructBody::Record(vec![]) });
    assert_eq!(def.render(), "#[derive(Debug, Deserialize, Serialize)]\npub struct Empty {\n}\n\n");
}

#[test]
fn any_other_schema_is_wrapped() {
    let list = Schema::ArrayType { type_: "array".to_string(), items: Box::new(simple("integer", None)) };
    let def = CodeGenerator::schema_to_struct("my-list", &list, &named(vec![])).unwrap();
    assert_eq!(
        def,
        StructDef {
            name: "my_list".to_string(),
            body: StructBody::Wrapper(TypeExpr::Sequence(Box::new(TypeExpr::Int64))),
        }
    );
    assert_eq!(
        def.render(),
        "#[derive(Debug, Deserialize, Serialize)]\npub struct my_list {\n    value: Vec<i64>,\n}\n\n"
    );
}

#[test]
fn a_reference_resolves_to_the_identifier_of_its_target() {
    let components = named(vec![("Task", object(None, None)), ("task-list", object(None, None))]);
    assert_eq!(
        CodeGenerator::schema_to_type(&reference("#/components/schemas/Task"), &components),
        Ok(TypeExpr::Named(CodeGenerator::sanitize_identifier("Task")))
    );
    assert_eq!(
        CodeGenerator::schema_to_type(&reference("#/components/schemas/task-list"), &components),
        Ok(TypeExpr::Named("task_list".to_string()))
    );
    assert_eq!(
        CodeGenerator::schema_to_type(&reference("Task"), &components),
        Ok(TypeExpr::Named("Task".to_string()))
    );
}

#[test]
fn a_reference_to_nothing_fails() {
    let components = named(vec![("Task", object(None, None))]);
    assert_eq!(
        CodeGenerator::schema_to_type(&reference("#/components/schemas/Missing"), &components),
        Err(GenerateError::UnresolvedReference("#/components/schemas/Missing".to_string()))
    );
    assert_eq!(
        CodeGenerator::schema_to_type(&reference("#/components/schemas/"), &components),
        Err(GenerateError::UnresolvedReference("#/components/schemas/".to_string()))
    );
    let spec = document(
        vec![],
        Some(vec![("Holder", object(Some(vec![("task", reference("#/components/schemas/Missing"))]), None))]),
    );
    assert_eq!(
        CodeGenerator::generate_axum_app(&spec),
        Err(GenerateError::UnresolvedReference("#/components/schemas/Missing".to_string()))
    );
}

#[test]
fn a_combination_fails() {
    let none = named(vec![]);
    let string = || simple("string", None);
    assert_eq!(
        CodeGenerator::schema_to_type(&Schema::AllOf { all_of: vec![string()] }, &none),
        Err(GenerateError::UnsupportedConstruct("allOf".to_string()))
    );
    assert_eq!(
        CodeGenerator::schema_to_type(&Schema::OneOf { one_of: vec![], discriminator: None }, &none),
        Err(GenerateError::UnsupportedConstruct("oneOf".to_string()))
    );
    assert_eq!(
        CodeGenerator::schema_to_type(&Schema::AnyOf { any_of: vec![] }, &none),
        Err(GenerateError::UnsupportedConstruct("anyOf".to_string()))
    );
    assert_eq!(
        CodeGenerator::schema_to_type(&Schema::Not { not: Box::new(string()) }, &none),
        Err(GenerateError::UnsupportedConstruct("not".to_string()))
    );
    let list = Schema::ArrayType {
        type_: "array".to_string(),
        items: Box::new(Schema::AllOf { all_of: vec![] }),
    };
    assert_eq!(
        CodeGenerator::schema_to_type(&list, &none),
        Err(GenerateError::UnsupportedConstruct("allOf".to_string()))
    );
    assert_eq!(
        CodeGenerator::schema_to_struct("Both", &Schema::AllOf { all_of: vec![] }, &none),
        Err(GenerateError::UnsupportedConstruct("allOf".to_string()))
    );
    let json = r##"{
      "openapi": "3.0.0",
      "info": {"title": "T", "version": "1"},
      "paths": {},
      "components": {"schemas": {"Pet": {"allOf": [{"type": "object"}]}}}
    }"##;
    let spec = OpenApiSpec::from_json(json).unwrap();
    assert_eq!(
        CodeGenerator::generate_axum_app(&spec),
        Err(GenerateError::UnsupportedConstruct("allOf".to_string()))
    );
}

#[test]
fn an_unsupported_construct_is_reported_before_anything_else() {
    let spec = document(
        vec![("/a-b", get_only(None)), ("/a_b", get_only(None))],
        Some(vec![
            ("A", object(Some(vec![("x", reference("#/components/schemas/Missing"))]), None)),
            ("B", object(Some(vec![("y", Schema::AnyOf { any_of: vec![] })]), None)),
        ]),
    );
    assert_eq!(
        CodeGenerator::generate_axum_app(&spec),
        Err(GenerateError::UnsupportedConstruct("anyOf".to_string()))
    );
    let spec = document(
        vec![("/a-b", get_only(None)), ("/a_b", get_only(None))],
        Some(vec![("A", object(Some(vec![("x", reference("#/components/schemas/Missing"))]), None))]),
    );
    assert_eq!(
        CodeGenerator::generate_axum_app(&spec),
        Err(GenerateError::UnresolvedReference("#/components/schemas/Missing".to_string()))
    );
}

#[test]
fn two_paths_with_one_handler_name_collide() {
    let spec = document(vec![("/a-b", get_only(None)), ("/a_b", get_only(None))], None);
    assert_eq!(
        CodeGenerator::generate_axum_app(&spec),
        Err(GenerateError::IdentifierCollision("handle_get__a_b".to_string()))
    );
    assert_eq!(
        CodeGenerator::generate_routes(&spec),
        Err(GenerateError::IdentifierCollision("handle_get__a_b".to_string()))
    );
    let item = PathItem { get: Some(operation(None)), post: Some(operation(None)), put: None, delete: None };
    let spec = document(vec![("/a-b", item)], None);
    let routes = CodeGenerator::generate_routes(&spec).unwrap();
    assert_eq!(routes[0].handler, "handle_get__a_b");
    assert_eq!(routes[1].handler, "handle_post__a_b");
}

#[test]
fn two_operations_with_one_id_collide() {
    let spec = document(vec![("/a", get_only(Some("same"))), ("/b", get_only(Some("same")))], None);
    assert_eq!(
        CodeGenerator::generate_axum_app(&spec),
        Err(GenerateError::IdentifierCollision("same".to_string()))
    );
}

#[test]
fn two_schemas_or_two_properties_with_one_identifier_collide() {
    let spec = document(
        vec![],
        Some(vec![("task-list", simple("string", None)), ("task_list", simple("string", None))]),
    );
    assert_eq!(
        CodeGenerator::generate_data_structures(&spec),
        Err(GenerateError::IdentifierCollision("task_list".to_string()))
    );
    let schema = object(Some(vec![("a b", simple("string", None)), ("a.b", simple("string", None))]), None);
    assert_eq!(
        CodeGenerator::schema_to_struct("S", &schema, &named(vec![])),
        Err(GenerateError::IdentifierCollision("a_b".to_string()))
    );
}

#[test]
fn primitives_map_to_their_types() {
    let none = named(vec![]);
    let ty = |schema: Schema| CodeGenerator::schema_to_type(&schema, &none).unwrap();
    assert_eq!(ty(simple("string", None)), TypeExpr::Text);
    assert_eq!(ty(simple("string", Some("uuid"))), TypeExpr::Uuid);
    assert_eq!(ty(simple("string", Some("date"))), TypeExpr::Text);
    assert_eq!(ty(simple("string", Some("date-time"))), TypeExpr::Text);
    assert_eq!(ty(simple("string", Some("email"))), TypeExpr::Text);
    assert_eq!(ty(simple("integer", None)), TypeExpr::Int64);
    assert_eq!(ty(simple("integer", Some("int32"))), TypeExpr::Int32);
    assert_eq!(ty(simple("integer", Some("int64"))), TypeExpr::Int64);
    assert_eq!(ty(simple("integer", Some("other"))), TypeExpr::Int64);
    assert_eq!(ty(simple("number", None)), TypeExpr::Float64);
    assert_eq!(ty(simple("number", Some("float"))), TypeExpr::Float64);
    assert_eq!(ty(simple("boolean", None)), TypeExpr::Boolean);
    assert_eq!(ty(simple("array", None)), TypeExpr::Sequence(Box::new(TypeExpr::Untyped)));
    assert_eq!(ty(simple("object", None)), TypeExpr::Untyped);
    assert_eq!(ty(simple("whatever", None)), TypeExpr::Untyped);
    assert_eq!(ty(simple("String", None)), TypeExpr::Untyped);
}

#[test]
fn objects_and_arrays_map_to_their_types() {
    let none = named(vec![]);
    let ty = |schema: Schema| CodeGenerator::schema_to_type(&schema, &none).unwrap();
    let with = |word: Option<&str>, items: Option<Schema>| Schema::Object {
        type_: word.map(|w| w.to_string()),
        properties: None,
        required: None,
        items: items.map(Box::new),
        format: None,
        enum_values: None,
    };
    assert_eq!(ty(with(Some("object"), None)), TypeExpr::Untyped);
    assert_eq!(ty(with(None, None)), TypeExpr::Untyped);
    assert_eq!(ty(with(Some("string"), None)), TypeExpr::Untyped);
    assert_eq!(ty(with(Some("array"), None)), TypeExpr::Sequence(Box::new(TypeExpr::Untyped)));
    assert_eq!(
        ty(with(Some("array"), Some(simple("boolean", None)))),
        TypeExpr::Sequence(Box::new(TypeExpr::Boolean))
    );
    assert_eq!(ty(with(Some("object"), Some(simple("boolean", None)))), TypeExpr::Untyped);
    let nested = Schema::ArrayType {
        type_: "array".to_string(),
        items: Box::new(Schema::ArrayType {
            type_: "array".to_string(),
            items: Box::new(simple("string", Some("uuid"))),
        }),
    };
    assert_eq!(
        ty(nested),
        TypeExpr::Sequence(Box::new(TypeExpr::Sequence(Box::new(TypeExpr::Uuid))))
    );
}

#[test]
fn types_are_written_as_in_the_generated_code() {
    assert_eq!(TypeExpr::Named("Task".to_string()).render(), "Task");
    assert_eq!(TypeExpr::Untyped.render(), "serde_json::Value");
    assert_eq!(TypeExpr::Uuid.render(), "uuid::Uuid");
    assert_eq!(TypeExpr::Text.render(), "String");
    assert_eq!(TypeExpr::Int32.render(), "i32");
    assert_eq!(TypeExpr::Int64.render(), "i64");
    assert_eq!(TypeExpr::Float64.render(), "f64");
    assert_eq!(TypeExpr::Boolean.render(), "bool");
    assert_eq!(
        TypeExpr::Sequence(Box::new(TypeExpr::Sequence(Box::new(TypeExpr::Int32)))).render(),
        "Vec<Vec<i32>>"
    );
}

#[test]
fn sanitize_replaces_what_is_neither_alphanumeric_nor_underscore() {
    assert_eq!(CodeGenerator::sanitize_identifier("a-b"), "a_b");
    assert_eq!(CodeGenerator::sanitize_identifier("already_fine_9"), "already_fine_9");
    assert_eq!(CodeGenerator::sanitize_identifier(""), "");
    assert_eq!(CodeGenerator::sanitize_identifier("é t"), "é_t");
    assert_eq!(CodeGenerator::sanitize_path("/tasks/{id}"), "_tasks__id_");
    assert_eq!(CodeGenerator::sanitize_path("/a_b"), "_a_b");
}

#[test]
fn a_handler_is_named_by_its_operation_or_by_method_and_path() {
    assert_eq!(
        CodeGenerator::generate_handler("get", "/tasks", &operation(Some("list-tasks"))),
        RouteDef { method: "get".to_string(), path: "/tasks".to_string(), handler: "list_tasks".to_string() }
    );
    assert_eq!(
        CodeGenerator::generate_handler("post", "/tasks/{id}", &operation(None)),
        RouteDef {
            method: "post".to_string(),
            path: "/tasks/{id}".to_string(),
            handler: "handle_post__tasks__id_".to_string()
        }
    );
}

#[test]
fn put_and_delete_give_no_route() {
    let item = PathItem {
        get: None,
        post: Some(operation(Some("p"))),
        put: Some(operation(Some("u"))),
        delete: Some(operation(Some("d"))),
    };
    let routes = CodeGenerator::generate_route_definition("/x", &item);
    assert_eq!(
        routes,
        vec![RouteDef { method: "post".to_string(), path: "/x".to_string(), handler: "p".to_string() }]
    );
    let none = PathItem { get: None, post: None, put: None, delete: None };
    assert!(CodeGenerator::generate_route_definition("/x", &none).is_empty());
}

#[test]
fn a_path_is_escaped_in_its_registration() {
    let spec = document(vec![("/a\"b\\c", get_only(Some("h")))], None);
    let text = CodeGenerator::generate_axum_app(&spec).unwrap();
    assert!(text.contains(".route(\"/a\\\"b\\\\c\", axum::routing::get(h))"));
}

#[test]
fn a_description_without_components_has_no_data_types() {
    let spec = document(vec![], None);
    assert_eq!(CodeGenerator::generate_data_structures(&spec), Ok(vec![]));
    assert_eq!(
        CodeGenerator::generate_axum_app(&spec).unwrap(),
        "use axum::{\n    routing::{get, post},\n    Router, Json, extract::Path,\n};\nuse serde::{Deserialize, Serialize};\n\npub fn create_app() -> axum::Router {\n    axum::Router::new()\n}\n"
    );
}

#[test]
fn the_generated_text_is_valid_source() {
    let spec = OpenApiSpec::from_yaml(TASK_MANAGER).unwrap();
    let text = CodeGenerator::generate_axum_app(&spec).unwrap();
    let file = syn::parse_file(&text).expect("the module parses");
    assert_eq!(file.items.len(), 7);
}

#[test]
fn the_whole_way_from_text_to_text() {
    let json = r#"{"openapi":"3.0.0","info":{"title":"T","version":"1"},
        "paths":{"/a-b":{"get":{"responses":{"200":{"description":"ok"}}}},
                 "/a_b":{"get":{"responses":{"200":{"description":"ok"}}}}}}"#;
    assert_eq!(
        generate(json, Syntax::Json),
        Err(PipelineError::Lower(GenerateError::IdentifierCollision("handle_get__a_b".to_string())))
    );
    assert_eq!(generate(json, Syntax::Yaml), generate(json, Syntax::Json));
    assert_eq!(
        generate("[]", Syntax::Json),
        Err(PipelineError::Read(OpenApiError::ParseError(
            "invalid type for `document`: expected a mapping".to_string()
        )))
    );
    let yaml = "openapi: \"3.0.0\"\ninfo:\n  title: T\n  version: \"1\"\npaths: {}\n";
    let text = generate(yaml, Syntax::Yaml).unwrap();
    assert!(text.ends_with("pub fn create_app() -> axum::Router {\n    axum::Router::new()\n}\n"));
    assert!(matches!(generate(yaml, Syntax::Json), Err(PipelineError::Read(_))));
}

#[test]
fn a_copy_of_a_type_is_equal_to_it() {
    let ty = TypeExpr::Sequence(Box::new(TypeExpr::Named("Task".to_string())));
    assert_eq!(ty.clone(), ty);
    assert_eq!(ty.duplicate(), ty);
}

const PET_STORE: &str = r##"
openapi: 3.0.3
info:
  title: Pet Store
  version: 1.0.0
paths:
  /pets:
    get:
      operationId: listPets
      parameters:
        - name: limit
          in: query
          required: false
          schema:
            type: integer
            format: int32
      responses:
        200:
          description: A page of pets
          content:
            application/json:
              schema:
                $ref: "#/components/schemas/Pets"
    post:
      requestBody:
        content:
          application/json:
            schema:
              $ref: "#/components/schemas/Pet"
      responses:
        201:
          description: Created
  /pets/{petId}:
    get:
      operationId: show-pet-by-id
      responses:
        200:
          description: The pet
    delete:
      operationId: deletePet
      responses:
        204:
          description: Gone
components:
  schemas:
    Pets:
      type: array
      items:
        $ref: "#/components/schemas/Pet"
    Pet:
      type: object
      required: [id, name]
      properties:
        name:
          type: string
        id:
          type: integer
          format: int64
        tag:
          type: string
        owner_id:
          type: string
          format: uuid
        weight:
          type: number
        friends:
          type: array
          items:
            $ref: "#/components/schemas/Pet"
        extra:
          type: object
    Error:
      type: object
"##;

#[test]
fn a_pet_store_is_generated() {
    let spec = OpenApiSpec::from_yaml(PET_STORE).unwrap();
    assert_eq!(spec.openapi, "3.0.3");
    let text = CodeGenerator::generate_axum_app(&spec).unwrap();
    let expected = "use axum::{\n    routing::{get, post},\n    Router, Json, extract::Path,\n};\n\
use serde::{Deserialize, Serialize};\n\n\
#[derive(Debug, Deserialize, Serialize)]\npub struct Error {\n}\n\n\
#[derive(Debug, Deserialize, Serialize)]\npub struct Pet {\n\
\x20   pub extra: Option<serde_json::Value>,\n\
\x20   pub friends: Option<Vec<Pet>>,\n\
\x20   pub id: i64,\n\
\x20   pub name: String,\n\
\x20   pub owner_id: Option<uuid::Uuid>,\n\
\x20   pub tag: Option<String>,\n\
\x20   pub weight: Option<f64>,\n\
}\n\n\
#[derive(Debug, Deserialize, Serialize)]\npub struct Pets {\n    value: Vec<Pet>,\n}\n\n\
async fn listPets() -> &'static str {\n    \"Hello, World!\"\n}\n\n\
async fn handle_post__pets() -> &'static str {\n    \"Hello, World!\"\n}\n\n\
async fn show_pet_by_id() -> &'static str {\n    \"Hello, World!\"\n}\n\n\
pub fn create_app() -> axum::Router {\n    axum::Router::new()\n\
\x20       .route(\"/pets\", axum::routing::get(listPets))\n\
\x20       .route(\"/pets\", axum::routing::post(handle_post__pets))\n\
\x20       .route(\"/pets/{petId}\", axum::routing::get(show_pet_by_id))\n\
}\n";
    assert_eq!(text, expected);
    assert!(syn::parse_file(&text).is_ok());
    assert_eq!(generate(PET_STORE, Syntax::Yaml), Ok(text));
}
