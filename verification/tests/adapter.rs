use openapi_tools::catalog::{generate_tools_from_spec, Tool, TypeTag};
use openapi_tools::codec::encode_tool_name;
use openapi_tools::invoke::{
    error_outcome, interpret_response, plan_invocation, InvokeError, RequestPlan,
};
use openapi_tools::json::{render, JsonValue};
use openapi_tools::model::{
    BodySchema, Document, MediaEntry, Method, Operation, Param, ParamFormat, ParamLocation,
    PathItem, PropSchema, RefOr, RequestBody,
};
use openapi_tools::server::OpenApiServer;

fn empty_item() -> PathItem {
    PathItem { get: None, post: None, put: None, delete: None, patch: None }
}

fn bare_op() -> Operation {
    Operation { summary: None, description: None, parameters: Vec::new(), request_body: None }
}

fn path_param(name: &str) -> RefOr<Param> {
    RefOr::Item(Param {
        name: name.to_string(),
        description: None,
        required: false,
        location: ParamLocation::Path,
        format: ParamFormat::SchemaItem,
    })
}

fn query_param(name: &str) -> RefOr<Param> {
    RefOr::Item(Param {
        name: name.to_string(),
        description: None,
        required: false,
        location: ParamLocation::Query,
        format: ParamFormat::SchemaItem,
    })
}

fn json_body(schema: RefOr<BodySchema>) -> Option<RefOr<RequestBody>> {
    Some(RefOr::Item(RequestBody {
        content: vec![MediaEntry {
            media_type: "application/json".to_string(),
            schema: Some(schema),
        }],
    }))
}

fn doc_with(paths: Vec<(String, RefOr<PathItem>)>) -> Document {
    Document { title: "Petstore".to_string(), paths, schemas: Vec::new() }
}

#[test]
fn encodes_method_and_path() {
    assert_eq!(encode_tool_name(Method::Get, "/users"), "get_users");
    assert_eq!(encode_tool_name(Method::Get, "/pets/{id}"), "get_pets_id");
    assert_eq!(encode_tool_name(Method::Post, "/pets"), "post_pets");
    assert_eq!(encode_tool_name(Method::Delete, "/a/b/c/"), "delete_a_b_c");
}

#[test]
fn encoding_collides_for_slash_brace_variants() {
    // The documented lossy case: both paths share one flat name.
    let a = encode_tool_name(Method::Get, "/a/{id}");
    let b = encode_tool_name(Method::Get, "/a_id");
    assert_eq!(a, "get_a_id");
    assert_eq!(a, b);
}

#[test]
fn path_substitution_scenario() {
    // Path "/pets/{id}" with declared path parameter "id", invoked
    // with {"id": 42}.
    let mut op = bare_op();
    op.parameters.push(path_param("id"));
    let mut item = empty_item();
    item.get = Some(op);
    let doc = doc_with(vec![("/pets/{id}".to_string(), RefOr::Item(item))]);
    let args = JsonValue::Obj(vec![("id".to_string(), JsonValue::Num("42".to_string()))]);
    let plan = plan_invocation(&doc, "http://api.example.com", "get_pets_id", &args).unwrap();
    assert!(plan.url.ends_with("/pets/42"));
    assert_eq!(plan.url, "http://api.example.com/pets/42");
    assert!(plan.query.is_empty());
    assert!(plan.body.is_empty());
}

#[test]
fn body_flattening_scenario() {
    // Body schema {"name": string, "age": integer}, no other
    // parameters, invoked with {"name": "Rex", "age": 3}.
    let schema = BodySchema::ObjectType {
        properties: vec![
            (
                "name".to_string(),
                RefOr::Item(PropSchema { kind: openapi_tools::model::SchemaKind::Str, description: None }),
            ),
            (
                "age".to_string(),
                RefOr::Item(PropSchema {
                    kind: openapi_tools::model::SchemaKind::Integer,
                    description: None,
                }),
            ),
        ],
        required: Vec::new(),
    };
    let mut op = bare_op();
    op.request_body = json_body(RefOr::Item(schema));
    let mut item = empty_item();
    item.post = Some(op);
    let doc = doc_with(vec![("/pets".to_string(), RefOr::Item(item))]);
    let args = JsonValue::Obj(vec![
        ("name".to_string(), JsonValue::Str("Rex".to_string())),
        ("age".to_string(), JsonValue::Num("3".to_string())),
    ]);
    let plan = plan_invocation(&doc, "http://x", "post_pets", &args).unwrap();
    assert!(plan.query.is_empty());
    assert_eq!(plan.body.len(), 2);
    assert_eq!(plan.body[0].0, "name");
    assert_eq!(render(&plan.body[0].1), "\"Rex\"");
    assert_eq!(plan.body[1].0, "age");
    assert_eq!(render(&plan.body[1].1), "3");
}

#[test]
fn end_to_end_get_users() {
    // GET /users becomes tool "get_users"; invoking with {} requests
    // {BASE_URL}/users with no query and no body; a 404 response
    // yields an error-flagged result holding "404" and the raw text.
    let mut item = empty_item();
    item.get = Some(bare_op());
    let doc = doc_with(vec![("/users".to_string(), RefOr::Item(item))]);
    let server = OpenApiServer::new("http://base/".to_string(), doc);
    assert_eq!(server.list_tools().len(), 1);
    assert_eq!(server.list_tools()[0].name, "get_users");
    let args = JsonValue::Obj(Vec::new());
    let plan = plan_invocation(&server.document, &server.base_url, "get_users", &args).unwrap();
    assert_eq!(plan.url, "http://base/users");
    assert!(plan.query.is_empty());
    assert!(plan.body.is_empty());
    let outcome = match interpret_response(404, "not here".to_string()) {
        Ok(_) => panic!("a 404 must not succeed"),
        Err(e) => error_outcome(&e),
    };
    assert!(outcome.is_error);
    assert!(outcome.text.contains("404"));
    assert!(outcome.text.contains("not here"));
}

#[test]
fn success_response_returns_raw_text() {
    let r = interpret_response(200, "{\"ok\":true}".to_string());
    assert_eq!(r.unwrap(), "{\"ok\":true}");
    let r = interpret_response(299, "edge".to_string());
    assert_eq!(r.unwrap(), "edge");
    assert!(interpret_response(300, String::new()).is_err());
    assert!(interpret_response(199, String::new()).is_err());
}

#[test]
fn name_round_trip_through_lookup() {
    let mut item = empty_item();
    item.patch = Some(bare_op());
    let doc = doc_with(vec![
        ("/users".to_string(), RefOr::Item(empty_item())),
        ("/users/{id}/pets".to_string(), RefOr::Item(item)),
    ]);
    let name = encode_tool_name(Method::Patch, "/users/{id}/pets");
    assert_eq!(name, "patch_users_id_pets");
    let args = JsonValue::Obj(Vec::new());
    let plan = plan_invocation(&doc, "http://b", &name, &args).unwrap();
    assert!(matches!(plan.method, Method::Patch));
    assert_eq!(plan.url, "http://b/users/{id}/pets");
}

#[test]
fn required_set_unions_path_and_body_names() {
    // The required list holds the path-parameter names and the body
    // schema's required names, deduplicated.
    let schema = BodySchema::ObjectType {
        properties: vec![(
            "name".to_string(),
            RefOr::Item(PropSchema { kind: openapi_tools::model::SchemaKind::Str, description: None }),
        )],
        required: vec!["name".to_string(), "id".to_string()],
    };
    let mut op = bare_op();
    op.parameters.push(path_param("id"));
    op.parameters.push(query_param("verbose"));
    op.request_body = json_body(RefOr::Item(schema));
    let mut item = empty_item();
    item.put = Some(op);
    let doc = doc_with(vec![("/pets/{id}".to_string(), RefOr::Item(item))]);
    let tools = generate_tools_from_spec(&doc);
    assert_eq!(tools.len(), 1);
    let req = &tools[0].input_schema.required;
    assert_eq!(req.len(), 2);
    assert!(req.contains(&"id".to_string()));
    assert!(req.contains(&"name".to_string()));
}

#[test]
fn body_property_overwrites_parameter_in_place() {
    // A flattened body property sharing a parameter's name silently
    // overwrites it, keeping the first position.
    let schema = BodySchema::ObjectType {
        properties: vec![(
            "tag".to_string(),
            RefOr::Item(PropSchema {
                kind: openapi_tools::model::SchemaKind::Integer,
                description: Some("numeric tag".to_string()),
            }),
        )],
        required: Vec::new(),
    };
    let mut op = bare_op();
    op.parameters.push(query_param("tag"));
    op.parameters.push(query_param("limit"));
    op.request_body = json_body(RefOr::Item(schema));
    let mut item = empty_item();
    item.post = Some(op);
    let doc = doc_with(vec![("/search".to_string(), RefOr::Item(item))]);
    let tools = generate_tools_from_spec(&doc);
    let props = &tools[0].input_schema.properties;
    assert_eq!(props.len(), 2);
    assert_eq!(props[0].0, "tag");
    assert!(matches!(props[0].1.ty, TypeTag::Integer));
    assert_eq!(props[0].1.description.as_deref(), Some("numeric tag"));
    assert_eq!(props[1].0, "limit");
}

#[test]
fn reference_path_item_contributes_no_tools() {
    let mut item = empty_item();
    item.get = Some(bare_op());
    let doc = doc_with(vec![
        ("/remote".to_string(), RefOr::Reference("other.json#/x".to_string())),
        ("/local".to_string(), RefOr::Item(item)),
    ]);
    let tools = generate_tools_from_spec(&doc);
    assert_eq!(tools.len(), 1);
    assert_eq!(tools[0].name, "get_local");
}

#[test]
fn rebuilding_catalog_is_deterministic() {
    let schema = BodySchema::ObjectType {
        properties: vec![(
            "name".to_string(),
            RefOr::Item(PropSchema { kind: openapi_tools::model::SchemaKind::Str, description: None }),
        )],
        required: vec!["name".to_string()],
    };
    let mut op = bare_op();
    op.parameters.push(query_param("limit"));
    op.request_body = json_body(RefOr::Reference("#/components/schemas/Pet".to_string()));
    let mut item = empty_item();
    item.get = Some(bare_op());
    item.post = Some(op);
    let doc = Document {
        title: "t".to_string(),
        paths: vec![("/pets".to_string(), RefOr::Item(item))],
        schemas: vec![("Pet".to_string(), RefOr::Item(schema))],
    };
    let a = generate_tools_from_spec(&doc);
    let b = generate_tools_from_spec(&doc);
    assert_eq!(a.len(), b.len());
    for (ta, tb) in a.iter().zip(b.iter()) {
        assert_tools_equal(ta, tb);
    }
}

fn assert_tools_equal(a: &Tool, b: &Tool) {
    assert_eq!(a.name, b.name);
    assert_eq!(a.description, b.description);
    assert_eq!(a.input_schema.required, b.input_schema.required);
    assert_eq!(a.input_schema.properties.len(), b.input_schema.properties.len());
    for (pa, pb) in a.input_schema.properties.iter().zip(b.input_schema.properties.iter()) {
        assert_eq!(pa.0, pb.0);
        assert_eq!(pa.1.ty, pb.1.ty);
        assert_eq!(pa.1.description, pb.1.description);
    }
}

#[test]
fn component_reference_resolves_one_level() {
    let schema = BodySchema::ObjectType {
        properties: vec![(
            "name".to_string(),
            RefOr::Item(PropSchema { kind: openapi_tools::model::SchemaKind::Str, description: None }),
        )],
        required: vec!["name".to_string()],
    };
    let mut op = bare_op();
    op.request_body = json_body(RefOr::Reference("#/components/schemas/Pet".to_string()));
    let mut item = empty_item();
    item.post = Some(op);
    let doc = Document {
        title: "t".to_string(),
        paths: vec![("/pets".to_string(), RefOr::Item(item))],
        schemas: vec![("Pet".to_string(), RefOr::Item(schema))],
    };
    let tools = generate_tools_from_spec(&doc);
    assert_eq!(tools[0].input_schema.properties.len(), 1);
    assert_eq!(tools[0].input_schema.properties[0].0, "name");
    assert_eq!(tools[0].input_schema.required, vec!["name".to_string()]);
}

#[test]
fn deeper_reference_chain_stays_unresolved() {
    // A component that is itself a reference is left unresolved, so
    // the tool keeps only its declared parameters.
    let mut op = bare_op();
    op.parameters.push(query_param("q"));
    op.request_body = json_body(RefOr::Reference("#/components/schemas/Deep".to_string()));
    let mut item = empty_item();
    item.post = Some(op);
    let doc = Document {
        title: "t".to_string(),
        paths: vec![("/d".to_string(), RefOr::Item(item))],
        schemas: vec![(
            "Deep".to_string(),
            RefOr::Reference("#/components/schemas/Other".to_string()),
        )],
    };
    let tools = generate_tools_from_spec(&doc);
    assert_eq!(tools[0].input_schema.properties.len(), 1);
    assert_eq!(tools[0].input_schema.properties[0].0, "q");
}

#[test]
fn description_falls_back_to_method_and_path() {
    let mut with_summary = bare_op();
    with_summary.summary = Some("List pets".to_string());
    with_summary.description = Some("ignored".to_string());
    let mut with_description = bare_op();
    with_description.description = Some("Create one".to_string());
    let mut item = empty_item();
    item.get = Some(with_summary);
    item.post = Some(with_description);
    item.delete = Some(bare_op());
    let doc = doc_with(vec![("/pets/{id}".to_string(), RefOr::Item(item))]);
    let tools = generate_tools_from_spec(&doc);
    assert_eq!(tools.len(), 3);
    assert_eq!(tools[0].description, "List pets");
    assert_eq!(tools[1].description, "Create one");
    assert_eq!(tools[2].description, "DELETE /pets/{id}");
}

#[test]
fn query_and_body_partition() {
    // Declared query parameters with arguments go to the query; a
    // header parameter's argument is dropped; everything else flows
    // to the body.
    let mut op = bare_op();
    op.parameters.push(query_param("limit"));
    op.parameters.push(RefOr::Item(Param {
        name: "x-auth".to_string(),
        description: None,
        required: false,
        location: ParamLocation::Header,
        format: ParamFormat::SchemaItem,
    }));
    let mut item = empty_item();
    item.get = Some(op);
    let doc = doc_with(vec![("/pets".to_string(), RefOr::Item(item))]);
    let args = JsonValue::Obj(vec![
        ("limit".to_string(), JsonValue::Num("10".to_string())),
        ("x-auth".to_string(), JsonValue::Str("token".to_string())),
        ("extra".to_string(), JsonValue::Bool(true)),
    ]);
    let plan = plan_invocation(&doc, "http://b", "get_pets", &args).unwrap();
    assert_eq!(plan.query.len(), 1);
    assert_eq!(plan.query[0].0, "limit");
    assert_eq!(plan.query[0].1, "10");
    assert_eq!(plan.body.len(), 1);
    assert_eq!(plan.body[0].0, "extra");
}

#[test]
fn invalid_tool_name_is_reported() {
    let doc = doc_with(Vec::new());
    let args = JsonValue::Obj(Vec::new());
    let e = plan_invocation(&doc, "http://b", "nounderscore", &args).unwrap_err();
    assert!(matches!(&e, InvokeError::InvalidName { .. }));
    assert_eq!(e.message(), "Invalid tool name format: nounderscore");
}

#[test]
fn unknown_operation_is_reported() {
    let mut item = empty_item();
    item.get = Some(bare_op());
    let doc = doc_with(vec![("/users".to_string(), RefOr::Item(item))]);
    let args = JsonValue::Obj(Vec::new());
    let e = plan_invocation(&doc, "http://b", "post_users", &args).unwrap_err();
    assert_eq!(e.message(), "Operation not found for POST users");
    let e = plan_invocation(&doc, "http://b", "fetch_users", &args).unwrap_err();
    assert_eq!(e.message(), "Operation not found for FETCH users");
}

#[test]
fn non_object_arguments_are_rejected() {
    let mut item = empty_item();
    item.get = Some(bare_op());
    let doc = doc_with(vec![("/users".to_string(), RefOr::Item(item))]);
    let e = plan_invocation(&doc, "http://b", "get_users", &JsonValue::Null).unwrap_err();
    assert!(matches!(e, InvokeError::MalformedArguments));
    assert_eq!(e.message(), "Arguments must be an object");
}

#[test]
fn request_failure_message_carries_status_and_body() {
    let e = interpret_response(503, "down".to_string()).unwrap_err();
    assert!(matches!(&e, InvokeError::RequestFailed { status: 503, .. }));
    assert_eq!(e.message(), "API request failed with status 503: down");
}

#[test]
fn renders_json_values_compactly() {
    let v = JsonValue::Obj(vec![
        ("a".to_string(), JsonValue::Arr(vec![
            JsonValue::Num("1".to_string()),
            JsonValue::Bool(false),
            JsonValue::Null,
        ])),
        ("b".to_string(), JsonValue::Str("q\"\\".to_string())),
    ]);
    assert_eq!(render(&v), "{\"a\":[1,false,null],\"b\":\"q\\\"\\\\\"}");
    assert_eq!(render(&JsonValue::Str("tab\tend".to_string())), "\"tab\\tend\"");
    assert_eq!(render(&JsonValue::Str("\u{1}".to_string())), "\"\\u0001\"");
}

#[test]
fn stringified_values_drop_outer_quotes() {
    // Path substitution uses the JSON text with quote characters
    // trimmed from both ends, as a string value shows.
    let mut op = bare_op();
    op.parameters.push(path_param("name"));
    let mut item = empty_item();
    item.get = Some(op);
    let doc = doc_with(vec![("/pets/{name}".to_string(), RefOr::Item(item))]);
    let args = JsonValue::Obj(vec![("name".to_string(), JsonValue::Str("Rex".to_string()))]);
    let plan = plan_invocation(&doc, "http://b", "get_pets_name", &args).unwrap();
    assert_eq!(plan.url, "http://b/pets/Rex");
}

#[test]
fn substitution_applies_to_undeclared_placeholders_too() {
    // Substitution goes by the literal template text, whether or not
    // the name is declared as a path parameter.
    let mut item = empty_item();
    item.get = Some(bare_op());
    let doc = doc_with(vec![("/pets/{id}".to_string(), RefOr::Item(item))]);
    let args = JsonValue::Obj(vec![("id".to_string(), JsonValue::Num("7".to_string()))]);
    let plan = plan_invocation(&doc, "http://b", "get_pets_id", &args).unwrap();
    assert_eq!(plan.url, "http://b/pets/7");
    assert!(plan.body.is_empty());
}

#[test]
fn base_url_trailing_slashes_are_trimmed() {
    let mut item = empty_item();
    item.get = Some(bare_op());
    let doc = doc_with(vec![("/users".to_string(), RefOr::Item(item))]);
    let args = JsonValue::Obj(Vec::new());
    let plan = plan_invocation(&doc, "http://b//", "get_users", &args).unwrap();
    assert_eq!(plan.url, "http://b/users");
}

#[test]
fn instructions_name_api_and_tool_count() {
    let mut item = empty_item();
    item.get = Some(bare_op());
    item.post = Some(bare_op());
    let doc = doc_with(vec![("/users".to_string(), RefOr::Item(item))]);
    let server = OpenApiServer::new("http://base".to_string(), doc);
    assert_eq!(
        server.instructions(),
        "This server exposes REST API endpoints from Petstore as MCP tools. Base URL: http://base. 2 tools available."
    );
}

#[test]
fn parameters_publish_as_strings_with_descriptions() {
    let mut op = bare_op();
    op.parameters.push(RefOr::Item(Param {
        name: "limit".to_string(),
        description: Some("how many".to_string()),
        required: true,
        location: ParamLocation::Query,
        format: ParamFormat::SchemaItem,
    }));
    op.parameters.push(RefOr::Item(Param {
        name: "raw".to_string(),
        description: Some("dropped".to_string()),
        required: false,
        location: ParamLocation::Query,
        format: ParamFormat::Content,
    }));
    op.parameters.push(RefOr::Reference("#/components/parameters/skip".to_string()));
    let mut item = empty_item();
    item.get = Some(op);
    let doc = doc_with(vec![("/pets".to_string(), RefOr::Item(item))]);
    let tools = generate_tools_from_spec(&doc);
    let props = &tools[0].input_schema.properties;
    assert_eq!(props.len(), 2);
    assert!(matches!(props[0].1.ty, TypeTag::Str));
    assert_eq!(props[0].1.description.as_deref(), Some("how many"));
    assert!(matches!(props[1].1.ty, TypeTag::Str));
    assert_eq!(props[1].1.description, None);
    assert_eq!(tools[0].input_schema.required, vec!["limit".to_string()]);
}

#[test]
fn substituted_argument_is_not_queried_again() {
    // A declared query parameter whose placeholder occurs in the
    // template is consumed by substitution and never duplicated.
    let mut op = bare_op();
    op.parameters.push(query_param("id"));
    let mut item = empty_item();
    item.get = Some(op);
    let doc = doc_with(vec![("/pets/{id}".to_string(), RefOr::Item(item))]);
    let args = JsonValue::Obj(vec![("id".to_string(), JsonValue::Num("5".to_string()))]);
    let plan = plan_invocation(&doc, "http://b", "get_pets_id", &args).unwrap();
    assert_eq!(plan.url, "http://b/pets/5");
    assert!(plan.query.is_empty());
    assert!(plan.body.is_empty());
}

#[test]
fn array_argument_stringifies_as_json_in_query() {
    let mut op = bare_op();
    op.parameters.push(query_param("ids"));
    let mut item = empty_item();
    item.get = Some(op);
    let doc = doc_with(vec![("/pets".to_string(), RefOr::Item(item))]);
    let args = JsonValue::Obj(vec![(
        "ids".to_string(),
        JsonValue::Arr(vec![JsonValue::Num("1".to_string()), JsonValue::Num("2".to_string())]),
    )]);
    let plan = plan_invocation(&doc, "http://b", "get_pets", &args).unwrap();
    assert_eq!(plan.query.len(), 1);
    assert_eq!(plan.query[0].1, "[1,2]");
}

#[test]
fn empty_document_yields_empty_catalog() {
    let doc = doc_with(Vec::new());
    assert!(generate_tools_from_spec(&doc).is_empty());
    let args = JsonValue::Obj(Vec::new());
    let e = plan_invocation(&doc, "http://b", "get_users", &args).unwrap_err();
    assert!(matches!(e, InvokeError::OperationNotFound { .. }));
}

#[test]
fn trailing_slash_path_name_has_no_edge_underscores() {
    // Leading and trailing underscores of the flattened path are
    // trimmed, so the key never starts or ends with one.
    assert_eq!(encode_tool_name(Method::Get, "/"), "get_");
    assert_eq!(encode_tool_name(Method::Get, "//a//"), "get_a");
}

#[test]
fn non_json_media_bodies_are_ignored() {
    let schema = BodySchema::ObjectType {
        properties: vec![(
            "data".to_string(),
            RefOr::Item(PropSchema { kind: openapi_tools::model::SchemaKind::Str, description: None }),
        )],
        required: Vec::new(),
    };
    let mut op = bare_op();
    op.request_body = Some(RefOr::Item(RequestBody {
        content: vec![MediaEntry {
            media_type: "application/xml".to_string(),
            schema: Some(RefOr::Item(schema)),
        }],
    }));
    let mut item = empty_item();
    item.post = Some(op);
    let doc = doc_with(vec![("/x".to_string(), RefOr::Item(item))]);
    let tools = generate_tools_from_spec(&doc);
    assert!(tools[0].input_schema.properties.is_empty());
}
