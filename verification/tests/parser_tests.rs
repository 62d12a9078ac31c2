use openapi_to_axum::model::{OpenApiError, OpenApiSpec, Schema};
use openapi_to_axum::names::{contains_name, get_named};
use openapi_to_axum::node::Node;

#[test]
fn test_parse_invalid_yaml() {
    let invalid_yaml = "{ invalid yaml";
    let result = OpenApiSpec::from_yaml(invalid_yaml);
    assert!(result.is_err());
}

#[test]
fn test_parse_valid_json() {
    let json = r#"{
  "openapi": "3.0.0",
  "info": {
    "title": "Test API",
    "version": "1.0.0"
  },
  "paths": {},
  "components": {
    "schemas": {}
  }
}"#;
    let result = OpenApiSpec::from_json(json);
    assert!(result.is_ok());
}

#[test]
fn test_schema_reference() {
    let schema = Schema::Reference {
        ref_: "#/components/schemas/Task".to_string(),
    };
    assert!(schema.is_reference());
    assert_eq!(schema.get_reference(), Some("#/components/schemas/Task"));
}

#[test]
fn test_schema_composition() {
    let schema = Schema::AllOf { all_of: vec![] };
    assert!(schema.is_composition());
}

#[test]
fn test_full_openapi_spec_parsing() {
    let yaml_content = r#"
openapi: "3.0.0"
info:
  title: "Task API"
  version: "1.0.0"
paths:
  /tasks:
    get:
      operationId: "listTasks"
      responses:
        "200":
          description: "Success"
components:
  schemas:
    Task:
      type: object
      required:
        - id
        - title
      properties:
        id:
          type: string
        title:
          type: string
"#;

    let spec = OpenApiSpec::from_yaml(yaml_content).expect("Failed to parse");
    assert_eq!(spec.info.title, "Task API");
    assert!(contains_name(&spec.paths, "/tasks"));
}

#[test]
fn flat_yaml_has_no_info_and_is_refused() {
    let yaml = r#"
        openapi: "3.0.0"
        info:
        title: "Test API"
        version: "1.0.0"
        paths: {}
        components:
        schemas:
            Task:
            type: object
            properties:
                id:
                type: string
        "#;
    let result = OpenApiSpec::from_yaml(yaml);
    assert_eq!(
        result,
        Err(OpenApiError::ParseError("missing field `info`".to_string()))
    );
}

#[test]
fn yaml_and_json_give_the_same_description() {
    let yaml = "openapi: \"3.0.0\"\ninfo:\n  title: T\n  version: \"1\"\npaths: {}\n";
    let json = r#"{"openapi":"3.0.0","info":{"title":"T","version":"1"},"paths":{}}"#;
    let from_yaml = OpenApiSpec::from_yaml(yaml).unwrap();
    let from_json = OpenApiSpec::from_json(json).unwrap();
    assert_eq!(from_yaml, from_json);
    assert_eq!(from_json.openapi, "3.0.0");
    assert_eq!(from_json.info.version, "1");
    assert!(from_json.paths.is_empty());
    assert!(from_json.components.is_none());
}

#[test]
fn json_that_is_no_json_carries_the_readers_message() {
    let result = OpenApiSpec::from_json("{");
    match result {
        Err(OpenApiError::ParseError(message)) => {
            assert_eq!(message, "EOF while parsing an object at line 1 column 1")
        }
        other => panic!("unexpected: {:?}", other),
    }
}

#[test]
fn error_messages_name_the_kind() {
    let parse = OpenApiError::ParseError("x".to_string());
    assert_eq!(parse.message(), "Failed to parse OpenAPI spec: x");
    let version = OpenApiError::UnsupportedVersion("2.0".to_string());
    assert_eq!(version.message(), "Unsupported OpenAPI version: 2.0");
}

fn text(s: &str) -> Node {
    Node::Text(s.to_string())
}

fn mapping(members: Vec<(&str, Node)>) -> Node {
    Node::Mapping(members.into_iter().map(|(k, v)| (k.to_string(), v)).collect())
}

fn schema_of(node: &Node) -> Result<Schema, OpenApiError> {
    openapi_to_axum::parser::schema_from(node)
}

#[test]
fn a_reference_wins_over_properties() {
    let node = mapping(vec![
        ("properties", mapping(vec![("id", mapping(vec![("type", text("string"))]))])),
        ("$ref", text("#/components/schemas/Task")),
    ]);
    assert_eq!(
        schema_of(&node),
        Ok(Schema::Reference { ref_: "#/components/schemas/Task".to_string() })
    );
}

#[test]
fn a_combination_wins_over_array_and_object() {
    let node = mapping(vec![
        ("type", text("object")),
        ("allOf", Node::Sequence(vec![])),
        ("oneOf", Node::Sequence(vec![])),
    ]);
    assert_eq!(schema_of(&node), Ok(Schema::AllOf { all_of: vec![] }));
    let node = mapping(vec![
        ("anyOf", Node::Sequence(vec![])),
        ("oneOf", Node::Sequence(vec![])),
        ("not", mapping(vec![("type", text("string"))])),
    ]);
    assert_eq!(schema_of(&node), Ok(Schema::OneOf { one_of: vec![], discriminator: None }));
    let node = mapping(vec![
        ("not", mapping(vec![("type", text("string"))])),
        ("anyOf", Node::Sequence(vec![])),
    ]);
    assert_eq!(schema_of(&node), Ok(Schema::AnyOf { any_of: vec![] }));
    let node = mapping(vec![("not", mapping(vec![("type", text("string"))]))]);
    assert_eq!(
        schema_of(&node),
        Ok(Schema::Not {
            not: Box::new(Schema::SimpleType {
                type_: "string".to_string(),
                format: None,
                enum_values: None
            })
        })
    );
}

#[test]
fn an_array_wins_over_an_object() {
    let node = mapping(vec![
        ("type", text("array")),
        ("properties", mapping(vec![])),
        ("items", mapping(vec![("type", text("integer")), ("format", text("int32"))])),
    ]);
    assert_eq!(
        schema_of(&node),
        Ok(Schema::ArrayType {
            type_: "array".to_string(),
            items: Box::new(Schema::SimpleType {
                type_: "integer".to_string(),
                format: Some("int32".to_string()),
                enum_values: None
            })
        })
    );
}

#[test]
fn an_object_has_properties_or_declares_itself() {
    let node = mapping(vec![("type", text("object"))]);
    assert_eq!(
        schema_of(&node),
        Ok(Schema::Object {
            type_: Some("object".to_string()),
            properties: None,
            required: None,
            items: None,
            format: None,
            enum_values: None
        })
    );
    let node = mapping(vec![
        ("properties", mapping(vec![("id", mapping(vec![("type", text("string"))]))])),
        ("required", Node::Sequence(vec![text("id")])),
    ]);
    assert_eq!(
        schema_of(&node),
        Ok(Schema::Object {
            type_: None,
            properties: Some(vec![(
                "id".to_string(),
                Schema::SimpleType { type_: "string".to_string(), format: None, enum_values: None }
            )]),
            required: Some(vec!["id".to_string()]),
            items: None,
            format: None,
            enum_values: None
        })
    );
}

#[test]
fn a_primitive_is_the_last_form() {
    let node = mapping(vec![
        ("type", text("string")),
        ("enum", Node::Sequence(vec![text("a"), Node::Number("1".to_string()), Node::Null])),
    ]);
    assert_eq!(
        schema_of(&node),
        Ok(Schema::SimpleType {
            type_: "string".to_string(),
            format: None,
            enum_values: Some(vec![text("a"), Node::Number("1".to_string()), Node::Null])
        })
    );
    let node = mapping(vec![("type", text("array"))]);
    assert_eq!(
        schema_of(&node),
        Ok(Schema::SimpleType { type_: "array".to_string(), format: None, enum_values: None })
    );
}

#[test]
fn a_tree_of_no_form_is_refused() {
    let expected = Err(OpenApiError::ParseError(
        "data did not match any variant of untagged enum Schema".to_string(),
    ));
    assert_eq!(schema_of(&mapping(vec![])), expected);
    assert_eq!(schema_of(&mapping(vec![("type", Node::Bool(true))])), expected);
    assert_eq!(schema_of(&mapping(vec![("type", Node::Null), ("format", text("x"))])), expected);
    assert_eq!(
        schema_of(&text("string")),
        Err(OpenApiError::ParseError("invalid type for `schema`: expected a mapping".to_string()))
    );
}

#[test]
fn a_form_that_fits_is_not_left_for_a_later_one() {
    let node = mapping(vec![("$ref", Node::Bool(true)), ("type", text("string"))]);
    assert_eq!(
        schema_of(&node),
        Err(OpenApiError::ParseError("invalid type for `$ref`: expected a string".to_string()))
    );
    let node = mapping(vec![("properties", text("none")), ("type", text("string"))]);
    assert_eq!(
        schema_of(&node),
        Err(OpenApiError::ParseError("invalid type for `schemas`: expected a mapping".to_string()))
    );
}

#[test]
fn a_null_member_counts_as_absent() {
    let node = mapping(vec![("$ref", Node::Null), ("type", text("boolean"))]);
    assert_eq!(
        schema_of(&node),
        Ok(Schema::SimpleType { type_: "boolean".to_string(), format: None, enum_values: None })
    );
}

#[test]
fn a_dictionary_with_a_name_twice_is_refused() {
    let node = mapping(vec![
        ("openapi", text("3.0.0")),
        ("info", mapping(vec![("title", text("T")), ("version", text("1"))])),
        ("paths", mapping(vec![("/a", mapping(vec![])), ("/b", mapping(vec![])), ("/a", mapping(vec![]))])),
    ]);
    assert_eq!(
        OpenApiSpec::from_node(&node),
        Err(OpenApiError::ParseError("duplicate entry `/a`".to_string()))
    );
}

#[test]
fn an_operation_needs_a_response() {
    let operation = |responses: Node| {
        mapping(vec![
            ("openapi", text("3.0.0")),
            ("info", mapping(vec![("title", text("T")), ("version", text("1"))])),
            ("paths", mapping(vec![("/a", mapping(vec![("get", mapping(vec![("responses", responses)]))]))])),
        ])
    };
    assert_eq!(
        OpenApiSpec::from_node(&operation(mapping(vec![]))),
        Err(OpenApiError::ParseError(
            "invalid value for `responses`: expected at least one response".to_string()
        ))
    );
    assert_eq!(
        OpenApiSpec::from_node(&operation(Node::Null)),
        Err(OpenApiError::ParseError("missing field `responses`".to_string()))
    );
    let ok = OpenApiSpec::from_node(&operation(mapping(vec![(
        "200",
        mapping(vec![("description", text("fine"))]),
    )])))
    .unwrap();
    let get = ok.paths[0].1.get.as_ref().unwrap();
    assert_eq!(get.responses[0].0, "200");
    assert_eq!(get.responses[0].1.description, "fine");
    assert!(get.operation_id.is_none());
    assert!(ok.paths[0].1.post.is_none());
}

#[test]
fn a_whole_operation_is_read() {
    let json = r##"{
      "openapi": "3.0.0",
      "info": {"title": "T", "version": "1"},
      "paths": {
        "/tasks/{id}": {
          "put": {
            "operationId": "putTask",
            "summary": "Replace a task",
            "parameters": [
              {"name": "id", "in": "path", "required": true, "schema": {"type": "string", "format": "uuid"}}
            ],
            "requestBody": {"content": {"application/json": {"schema": {"$ref": "#/components/schemas/Task"}}}},
            "responses": {"204": {"description": "Replaced", "content": {"text/plain": {}}}}
          }
        }
      }
    }"##;
    let spec = OpenApiSpec::from_json(json).unwrap();
    let item = &spec.paths[0].1;
    assert!(item.get.is_none() && item.post.is_none() && item.delete.is_none());
    let put = item.put.as_ref().unwrap();
    assert_eq!(put.operation_id.as_deref(), Some("putTask"));
    assert_eq!(put.summary.as_deref(), Some("Replace a task"));
    let parameters = put.parameters.as_ref().unwrap();
    assert_eq!(parameters.len(), 1);
    assert_eq!(parameters[0].name, "id");
    assert_eq!(parameters[0].in_, "path");
    assert!(parameters[0].required);
    assert_eq!(
        parameters[0].schema,
        Some(Schema::SimpleType {
            type_: "string".to_string(),
            format: Some("uuid".to_string()),
            enum_values: None
        })
    );
    let body = put.request_body.as_ref().unwrap();
    assert_eq!(body.content[0].0, "application/json");
    assert_eq!(
        body.content[0].1.schema,
        Some(Schema::Reference { ref_: "#/components/schemas/Task".to_string() })
    );
    let content = put.responses[0].1.content.as_ref().unwrap();
    assert_eq!(content[0].0, "text/plain");
    assert!(content[0].1.schema.is_none());
}

#[test]
fn a_discriminator_documents_a_one_of() {
    let node = mapping(vec![
        ("oneOf", Node::Sequence(vec![mapping(vec![("$ref", text("#/components/schemas/Cat"))])])),
        (
            "discriminator",
            mapping(vec![("propertyName", text("kind")), ("mapping", mapping(vec![("cat", text("Cat"))]))]),
        ),
    ]);
    match schema_of(&node) {
        Ok(Schema::OneOf { one_of, discriminator }) => {
            assert_eq!(one_of.len(), 1);
            let d = discriminator.unwrap();
            assert_eq!(d.property_name, "kind");
            assert_eq!(d.mapping, Some(vec![("cat".to_string(), "Cat".to_string())]));
        }
        other => panic!("unexpected: {:?}", other),
    }
}

#[test]
fn get_type_names_the_kind() {
    assert_eq!(Schema::Reference { ref_: "x".to_string() }.get_type(), Some("reference"));
    assert_eq!(Schema::AllOf { all_of: vec![] }.get_type(), Some("allOf"));
    assert_eq!(Schema::OneOf { one_of: vec![], discriminator: None }.get_type(), Some("oneOf"));
    assert_eq!(Schema::AnyOf { any_of: vec![] }.get_type(), Some("anyOf"));
    let string = || Schema::SimpleType { type_: "string".to_string(), format: None, enum_values: None };
    assert_eq!(Schema::Not { not: Box::new(string()) }.get_type(), Some("not"));
    assert_eq!(string().get_type(), Some("string"));
    assert_eq!(
        Schema::ArrayType { type_: "array".to_string(), items: Box::new(string()) }.get_type(),
        Some("array")
    );
    let object = Schema::Object {
        type_: None,
        properties: None,
        required: None,
        items: None,
        format: None,
        enum_values: None,
    };
    assert_eq!(object.get_type(), None);
    assert!(!object.is_reference());
    assert!(!object.is_composition());
    assert_eq!(object.get_reference(), None);
}

#[test]
fn a_copy_of_a_node_is_equal_to_it() {
    let node = mapping(vec![
        ("a", Node::Sequence(vec![Node::Null, Node::Bool(true), Node::Number("1.5".to_string())])),
        ("b", mapping(vec![("c", text("d"))])),
    ]);
    assert_eq!(node.duplicate(), node);
}

#[test]
fn an_entry_is_found_by_its_name() {
    let spec = OpenApiSpec::from_json(
        r#"{"openapi":"3.0.0","info":{"title":"T","version":"1"},
            "paths":{"/a":{},"/b":{"get":{"responses":{"200":{"description":"ok"}}}}}}"#,
    )
    .unwrap();
    assert!(contains_name(&spec.paths, "/a"));
    assert!(!contains_name(&spec.paths, "/c"));
    assert!(get_named(&spec.paths, "/a").unwrap().get.is_none());
    assert!(get_named(&spec.paths, "/b").unwrap().get.is_some());
    assert!(get_named(&spec.paths, "/c").is_none());
}

#[test]
fn a_copy_of_a_description_is_equal_to_it() {
    let json = r##"{
      "openapi": "3.0.0",
      "info": {"title": "T", "version": "1"},
      "paths": {"/a": {"post": {"operationId": "a", "responses": {"200": {"description": "ok"}}}}},
      "components": {"schemas": {
        "Pet": {"oneOf": [{"$ref": "#/components/schemas/Cat"}],
                "discriminator": {"propertyName": "kind", "mapping": {"cat": "Cat"}}},
        "Cat": {"type": "object", "required": ["name"],
                "properties": {"name": {"type": "string", "enum": ["a", 1, null]},
                               "tags": {"type": "array", "items": {"not": {"type": "integer"}}}}}
      }}
    }"##;
    let spec = OpenApiSpec::from_json(json).unwrap();
    assert_eq!(spec.clone(), spec);
    let schemas = &spec.components.as_ref().unwrap().schemas;
    assert_eq!(schemas[0].1.duplicate(), schemas[0].1);
    assert_eq!(schemas[1].1.clone(), schemas[1].1);
}
