use postman2openapi::body::{find_text_type, make_graphql_example};
use postman2openapi::context::{replace_variable, VAR_REPLACE_CREDITS};
use postman2openapi::fault::Fault;
use postman2openapi::json::{parse, Json, Number};
use postman2openapi::map::StrMap;
use postman2openapi::openapi::v3_0::{
    AuthorizationCodeFlow, ClientCredentialsFlow, Example, Flows, ImplicitFlow, MediaType,
    MediaTypeExample, ObjectOrReference, Operation, Parameter, PasswordFlow, PathItem, RequestBody,
    Response, Schema, SecurityRequirement, SecurityScheme,
};
use postman2openapi::openapi::OpenApi;
use postman2openapi::operations::{next_id, slot_mut, template};
use postman2openapi::parameters::{add_header, add_query, skips_header};
use postman2openapi::postman::{
    find_attribute, ApiKey, ApiKeyLocation, Attribute, Auth, AuthType, Body, BodyOptions, DescriptionUnion, FormParameter,
    GraphQlBody, GraphQlBodyClass, Header, HeaderElement, HeaderUnion, Headers, Mode, Oauth2,
    Oauth2GrantType, QueryParam, RawOptions, RequestClass, ResponseClass, UrlEncodedParameter,
};
use postman2openapi::responses::{add_response, add_success, passes_over};
use postman2openapi::security::{add_requirements, make_requirement};
use postman2openapi::Transpiler;

const NOTES: &str = "\\[getUser\\]\nid - The user \\[required\\]\nname - A name \\[nullable\\]\\[default: Bob\\]\n\\[/getUser\\]\n\\[global\\]\nid - Any id\nage - Years \\[default: 18\\] \\[min: 0\\] \\[max: 150\\]\ntags - The tags\nok - Done \\[default: true\\]\n\\[/global\\]\\[headers\\]X-Id, X-RapidAPI-Key\\[/headers\\]";

fn some(s: &str) -> Option<String> {
    Some(s.to_string())
}

fn string(s: &str) -> Json {
    Json::String(s.to_string())
}

fn literal(s: &str) -> Json {
    Json::Number(Number::Literal(s.to_string()))
}

fn map_of<V>(pairs: Vec<(&str, V)>) -> StrMap<V> {
    StrMap {
        entries: pairs.into_iter().map(|(k, v)| (k.to_string(), v)).collect(),
    }
}

fn variables() -> StrMap<Json> {
    map_of(vec![
        ("a", string("{{b}}/{{b}}")),
        ("b", string("c")),
        ("loop", string("{{loop}}x")),
        ("n", literal("5")),
        ("price", string("cost $1")),
    ])
}

fn typed(t: &str) -> Schema {
    Schema {
        schema_type: some(t),
        ..Schema::default()
    }
}

fn reader<'a>(map: &'a StrMap<Json>, notes: &'a str) -> Transpiler<'a> {
    Transpiler::new(map, notes, vec!["getUser".to_string()])
}

#[test]
fn variables_are_replaced() {
    let map = variables();
    let t = Transpiler::new(&map, "", Vec::new());
    let resolve = |s: &str, n: usize| t.resolve_variables(s, n).unwrap();
    assert_eq!(resolve("x{{b}}y{{b}}", 20), "xcyc");
    assert_eq!(resolve("{{a}}", 20), "c/c");
    assert_eq!(resolve("{{a}}", 1), "{{b}}/{{b}}");
    assert_eq!(resolve("{{a}}", 0), "{{a}}");
    assert_eq!(resolve("{{z}}{{b}}", 20), "{{z}}{{b}}");
    assert_eq!(resolve("{{n}}", 20), "{{n}}");
    assert_eq!(resolve("plain", 20), "plain");
    // A dollar sign in a value stands for a group.
    assert_eq!(resolve("{{price}}", 20), "cost ");
}

#[test]
fn replacing_ends_with_the_credits() {
    let map = variables();
    let t = Transpiler::new(&map, "", Vec::new());
    let mut expected = "{{loop}}".to_string();
    for _ in 0..VAR_REPLACE_CREDITS {
        expected.push('x');
    }
    assert_eq!(
        t.resolve_variables("{{loop}}", VAR_REPLACE_CREDITS),
        Ok(expected)
    );
    // What has been resolved stays.
    let once = t.resolve_variables("{{a}}", VAR_REPLACE_CREDITS).unwrap();
    assert_eq!(
        t.resolve_variables(&once, VAR_REPLACE_CREDITS),
        Ok("c/c".to_string())
    );
}

#[test]
fn segments_are_resolved() {
    let map = variables();
    let t = Transpiler::new(&map, "", Vec::new());
    let resolve = |s: &str| t.resolve_segment(s, VAR_REPLACE_CREDITS).unwrap();
    assert_eq!(resolve("{{b}}"), "c");
    assert_eq!(resolve("{{id}}-{{n}}"), "{id}-{n}");
    // Once a variable has been replaced, the others stay as they are.
    assert_eq!(resolve("{{b}}-{{id}}"), "c-{{id}}");
    assert_eq!(t.resolve_segment("{{id}}", 0), Ok("{{id}}".to_string()));
}

#[test]
fn a_variable_is_replaced_wherever_it_stands() {
    let map = map_of(vec![
        ("b", string("c")),
        ("a.b", string("d")),
        ("n", literal("5")),
        ("cash", string("$0!")),
    ]);
    assert_eq!(
        replace_variable(&map, "1{{b}}2{{b}}{{c}}", "b"),
        Ok(some("1c2c{{c}}"))
    );
    assert_eq!(
        replace_variable(&map, "{{a.b}}{{acb}}", "a.b"),
        Ok(some("d{{acb}}"))
    );
    assert_eq!(replace_variable(&map, "x", "b"), Ok(some("x")));
    assert_eq!(
        replace_variable(&map, "<{{cash}}>", "cash"),
        Ok(some("<{{cash}}!>"))
    );
    assert_eq!(replace_variable(&map, "{{n}}", "n"), Ok(None));
    assert_eq!(replace_variable(&map, "{{z}}", "z"), Ok(None));
}

#[test]
fn the_first_variable_decides() {
    let map = map_of(vec![("b", string("c")), ("x y\n", string("d"))]);
    let t = Transpiler::new(&map, "", Vec::new());
    let resolve = |s: &str| t.resolve_variables(s, 20).unwrap();
    assert_eq!(resolve("{{{b}}}"), "{c}");
    assert_eq!(resolve("{{b}{{b}}"), "{{b}c");
    assert_eq!(resolve("{{x y\n}}"), "d");
    assert_eq!(resolve("{{}}{{b}}"), "{{}}{{b}}");
    assert_eq!(resolve("{{b}}{{z}}{{b}}"), "c{{z}}c");
    let segment = |s: &str| t.resolve_segment(s, 20).unwrap();
    assert_eq!(segment("{{{z}}}-{{}}"), "{{z}}-{}");
    assert_eq!(segment("{{z}{{y}}"), "{{z}{y}");
}

#[test]
fn a_name_can_be_too_long_to_search_for() {
    let mut name = "a".to_string();
    for _ in 0..20 {
        name = format!("{name}{name}");
    }
    let map = map_of(vec![(name.as_str(), string("c"))]);
    let t = Transpiler::new(&map, "", Vec::new());
    let text = format!("{{{{{name}}}}}");
    assert_eq!(t.resolve_variables(&text, 20), Err(Fault::Pattern));
    let short = "a".repeat(996);
    let map = map_of(vec![(short.as_str(), string("c"))]);
    let t = Transpiler::new(&map, "", Vec::new());
    let text = format!("{{{{{short}}}}}");
    assert_eq!(t.resolve_variables(&text, 20), Ok("c".to_string()));
}

#[test]
fn numbers_that_json_does_not_have_are_faults() {
    let map = StrMap::new();
    let t = reader(&map, "\\[global\\]\na - x \\[default: NaN\\]\n\\[/global\\]");
    assert_eq!(
        Transpiler::filter_req_header_example("X-Id", "-inf"),
        Err(Fault::Number)
    );
    assert_eq!(
        Transpiler::filter_req_header_example("X-RapidAPI-Key", "nan"),
        Ok(string("123456"))
    );
    let of = |key: &str, value: &str| {
        t.generate_query_parameters(&vec![QueryParam {
            key: some(key),
            value: some(value),
            ..QueryParam::default()
        }])
    };
    assert_eq!(of("b", "+Infinity"), Err(Fault::Number));
    assert_eq!(of("a", "1"), Err(Fault::Number));
    assert!(of("b", "1").is_ok());
}

#[test]
fn schemas_follow_values_and_notes() {
    let map = StrMap::new();
    let t = reader(&map, NOTES);
    let value = parse(
        "{\"id\": \"1\", \"name\": \"x\", \"age\": 3, \"ok\": false, \"none\": null, \"status\": \"OK\", \"ratio\": 1.5}",
    )
    .unwrap();
    let schema = t.generate_schema(&value, "").unwrap();
    assert_eq!(schema.schema_type, some("object"));
    assert_eq!(schema.required, Some(vec!["id".to_string()]));
    let properties = schema.properties.as_ref().unwrap();
    assert_eq!(properties.entries.len(), 7);
    assert_eq!(
        properties.get("id"),
        Some(&Schema {
            description: some("The user "),
            ..typed("string")
        })
    );
    assert_eq!(
        properties.get("name"),
        Some(&Schema {
            description: some("A name "),
            nullable: Some(true),
            default: Some(string("Bob")),
            ..typed("string")
        })
    );
    assert_eq!(
        properties.get("age"),
        Some(&Schema {
            description: some("Years "),
            default: Some(literal("18")),
            minimum: Some(literal("0")),
            maximum: Some(literal("150")),
            ..typed("integer")
        })
    );
    assert_eq!(
        properties.get("ok"),
        Some(&Schema {
            description: some("Done "),
            default: Some(Json::Bool(true)),
            ..typed("boolean")
        })
    );
    assert_eq!(
        properties.get("none"),
        Some(&Schema {
            nullable: Some(true),
            ..Schema::default()
        })
    );
    assert_eq!(
        properties.get("status"),
        Some(&Schema {
            enum_values: Some(vec!["OK".to_string(), "ERROR".to_string()]),
            ..typed("string")
        })
    );
    assert_eq!(properties.get("ratio"), Some(&typed("number")));
}

#[test]
fn arrays_are_described_by_their_items() {
    let map = StrMap::new();
    let t = reader(&map, NOTES);
    let value = parse("{\"tags\": [{\"a\": 1}, {\"b\": true}], \"empty\": []}").unwrap();
    let schema = t.generate_schema(&value, "").unwrap();
    let properties = schema.properties.unwrap();
    let tags = properties.get("tags").unwrap();
    assert_eq!(tags.schema_type, some("array"));
    assert_eq!(tags.description, some("The tags"));
    let items = tags.items.as_ref().unwrap();
    assert_eq!(
        **items,
        Schema {
            properties: Some(map_of(vec![("a", typed("integer")), ("b", typed("boolean"))])),
            ..typed("object")
        }
    );
    let empty = properties.get("empty").unwrap();
    assert_eq!(**empty.items.as_ref().unwrap(), Schema::default());
}

#[test]
fn a_schema_cannot_be_made_for_a_key_that_is_no_pattern() {
    let map = StrMap::new();
    let t = reader(&map, "");
    let value = parse("{\"a\": {\"*\": 1}}").unwrap();
    assert_eq!(t.generate_schema(&value, ""), Ok(Schema {
        properties: Some(map_of(vec![("a", Schema {
            properties: Some(map_of(vec![("*", typed("integer"))])),
            ..typed("object")
        })])),
        ..typed("object")
    }));
    let value = parse("{\"a\": {\"[\": 1}}").unwrap();
    assert_eq!(t.generate_schema(&value, ""), Err(Fault::Pattern));
}

#[test]
fn schemas_are_merged() {
    let a = || Schema {
        properties: Some(map_of(vec![("x", typed("string")), ("y", typed("integer"))])),
        ..typed("object")
    };
    let b = || Schema {
        properties: Some(map_of(vec![("w", typed("string")), ("y", typed("string"))])),
        ..typed("object")
    };
    let merged = Transpiler::merge_schemas(a(), &b());
    let properties = merged.properties.unwrap();
    let names: Vec<&str> = properties.entries.iter().map(|e| e.0.as_str()).collect();
    assert_eq!(names, vec!["w", "x", "y"]);
    assert_eq!(
        properties.get("y"),
        Some(&Schema {
            any_of: Some(vec![
                ObjectOrReference::Object(typed("integer")),
                ObjectOrReference::Object(typed("string")),
            ]),
            ..Schema::default()
        })
    );
    assert_eq!(Transpiler::merge_schemas(a(), &a()), a());
}

#[test]
fn alternatives_gather() {
    let first = Transpiler::merge_schemas(typed("integer"), &typed("string"));
    let second = Transpiler::merge_schemas(first, &typed("integer"));
    assert_eq!(
        second.any_of,
        Some(vec![
            ObjectOrReference::Object(typed("integer")),
            ObjectOrReference::Object(typed("string")),
            ObjectOrReference::Object(typed("integer")),
        ])
    );
    assert_eq!(second.schema_type, None);
}

#[test]
fn null_joins_a_schema() {
    let null = || Schema {
        nullable: Some(true),
        ..Schema::default()
    };
    let merged = Transpiler::merge_schemas(typed("string"), &null());
    assert_eq!(
        merged,
        Schema {
            nullable: Some(true),
            ..typed("string")
        }
    );
    let merged = Transpiler::merge_schemas(null(), &typed("string"));
    assert_eq!(
        merged,
        Schema {
            nullable: Some(true),
            ..typed("string")
        }
    );
    let no = Schema {
        nullable: Some(false),
        ..Schema::default()
    };
    assert_eq!(Transpiler::merge_schemas(no, &null()).nullable, Some(true));
}

fn parameter(location: &str, name: &str, schema: Schema) -> Parameter {
    Parameter {
        name: name.to_string(),
        location: location.to_string(),
        schema: Some(schema),
        ..Parameter::default()
    }
}

#[test]
fn query_parameters_follow_the_notes() {
    let map = variables();
    let t = reader(&map, NOTES);
    let qp = |key: &str, value: Option<&str>| QueryParam {
        key: some(key),
        value: value.map(|v| v.to_string()),
        description: Some(DescriptionUnion::String("not read".to_string())),
    };
    let query = vec![
        qp("id", Some("{{b}}")),
        qp("age", Some("3")),
        QueryParam::default(),
        qp("id", Some("other")),
        qp("flag", None),
    ];
    let params = t.generate_query_parameters(&query).unwrap().unwrap();
    assert_eq!(params.len(), 3);
    assert_eq!(
        params[0],
        ObjectOrReference::Object(Parameter {
            description: some("The user "),
            required: Some(true),
            ..parameter(
                "query",
                "id",
                Schema {
                    example: Some(string("c")),
                    ..typed("string")
                }
            )
        })
    );
    assert_eq!(
        params[1],
        ObjectOrReference::Object(Parameter {
            description: some("Years "),
            ..parameter(
                "query",
                "age",
                Schema {
                    example: Some(literal("3")),
                    default: Some(literal("18")),
                    minimum: Some(literal("0")),
                    maximum: Some(literal("150")),
                    ..typed("integer")
                }
            )
        })
    );
    assert_eq!(
        params[2],
        ObjectOrReference::Object(parameter("query", "flag", typed("string")))
    );
    assert_eq!(t.generate_query_parameters(&Vec::new()), Ok(None));
    assert_eq!(
        t.generate_query_parameters(&vec![qp("[", None)]),
        Err(Fault::Pattern)
    );
}

#[test]
fn query_parameters_join_those_of_the_operation() {
    let object = |p: Parameter| ObjectOrReference::Object(p);
    let old = vec![
        object(parameter("header", "a", typed("string"))),
        object(parameter("query", "a", typed("string"))),
    ];
    let new = vec![
        object(parameter("query", "a", typed("integer"))),
        object(parameter("query", "b", typed("string"))),
    ];
    let joined = add_query(Some(old), Some(new)).unwrap();
    assert_eq!(joined.len(), 3);
    assert_eq!(joined[0], object(parameter("header", "a", typed("string"))));
    match &joined[1] {
        ObjectOrReference::Object(p) => {
            assert_eq!(p.schema.as_ref().unwrap().any_of.as_ref().unwrap().len(), 2)
        }
        _ => panic!("no parameter"),
    }
    assert_eq!(joined[2], object(parameter("query", "b", typed("string"))));
    assert_eq!(add_query(None, None), None);
    let alone = vec![object(parameter("query", "b", typed("string")))];
    assert_eq!(add_query(None, Some(alone)).unwrap().len(), 1);
}

#[test]
fn a_header_joins_the_one_of_its_name() {
    let first = add_header(None, parameter("header", "X", typed("string")));
    let second = add_header(Some(first), parameter("header", "X", typed("string")));
    assert_eq!(second.len(), 1);
    let third = add_header(Some(second), parameter("header", "x", typed("string")));
    assert_eq!(third.len(), 2);
    let bare = vec![ObjectOrReference::Object(Parameter {
        schema: None,
        ..parameter("header", "X", typed("string"))
    })];
    assert_eq!(
        add_header(Some(bare), parameter("header", "X", typed("string"))).len(),
        2
    );
}

fn header(key: &str, value: &str) -> Header {
    Header {
        key: key.to_string(),
        value: value.to_string(),
        description: None,
    }
}

#[test]
fn headers_of_a_request_are_parameters() {
    let map = StrMap::new();
    let headers = || {
        Some(HeaderUnion::HeaderArray(vec![
            header("Accept", "*/*"),
            header("AUTHORIZATION", "x"),
            header("Content-Type", "text/html; charset=utf-8"),
            header("X-Id", "5"),
            header("X-RapidAPI-Key", "secret"),
            header("X-Other", "o"),
        ]))
    };
    let t = reader(&map, NOTES);
    let (params, content_type) = t.add_headers(&headers(), None).unwrap();
    assert_eq!(content_type, some("text/html"));
    assert_eq!(
        params.unwrap(),
        vec![
            ObjectOrReference::Object(parameter(
                "header",
                "X-Id",
                Schema {
                    example: Some(literal("5")),
                    ..typed("integer")
                }
            )),
            ObjectOrReference::Object(parameter(
                "header",
                "X-RapidAPI-Key",
                Schema {
                    example: Some(string("123456")),
                    ..typed("string")
                }
            )),
        ]
    );
    let t = reader(&map, "");
    let (params, _) = t.add_headers(&headers(), None).unwrap();
    assert_eq!(params.unwrap().len(), 3);
    let plain = Some(HeaderUnion::String("X-Id: 5".to_string()));
    assert_eq!(t.add_headers(&plain, None), Ok((None, None)));
    assert_eq!(
        Transpiler::filter_req_header_example("X-RapidAPI-Key", "5"),
        Ok(string("123456"))
    );
    assert_eq!(
        Transpiler::filter_req_header_example("x-rapidapi-key", "5"),
        Ok(literal("5"))
    );
}

fn body_of(mode: Mode) -> Body {
    Body {
        mode: Some(mode),
        ..Body::default()
    }
}

fn content(op: &Operation) -> &StrMap<MediaType> {
    match op.request_body.as_ref().unwrap() {
        ObjectOrReference::Object(RequestBody { content }) => content,
        _ => panic!("no body"),
    }
}

fn example(value: Json) -> ObjectOrReference<Example> {
    ObjectOrReference::Object(Example {
        summary: None,
        description: None,
        value: Some(value),
    })
}

fn language(l: &str) -> Option<BodyOptions> {
    Some(BodyOptions {
        raw: Some(RawOptions { language: some(l) }),
    })
}

#[test]
fn languages_have_media_types() {
    assert_eq!(find_text_type(&language("xml")), "application/xml");
    assert_eq!(find_text_type(&language("json")), "application/json");
    assert_eq!(find_text_type(&language("html")), "text/html");
    assert_eq!(find_text_type(&language("text")), "text/plain");
    assert_eq!(find_text_type(&None), "text/plain");
    assert_eq!(find_text_type(&Some(BodyOptions::default())), "text/plain");
}

#[test]
fn raw_bodies_are_read() {
    let map = variables();
    let t = reader(&map, NOTES);
    let mut op = Operation::default();
    let mut body = body_of(Mode::Raw);
    body.raw = some("{\"id\": \"{{b}}\"}");
    t.extract_request_body(&body, &mut op, "one", None).unwrap();
    body.raw = some("{\"id\": 7}");
    t.extract_request_body(&body, &mut op, "two", None).unwrap();
    body.raw = some("<a/>");
    body.options = language("xml");
    t.extract_request_body(&body, &mut op, "three", None).unwrap();
    body.raw = some("42");
    t.extract_request_body(&body, &mut op, "four", None).unwrap();
    body.raw = some("{{b}} plain");
    body.options = None;
    t.extract_request_body(&body, &mut op, "five", None).unwrap();
    let content = content(&op);
    let types: Vec<&str> = content.entries.iter().map(|e| e.0.as_str()).collect();
    assert_eq!(
        types,
        vec![
            "application/json",
            "application/octet-stream",
            "application/xml",
            "text/plain"
        ]
    );
    let json = content.get("application/json").unwrap();
    assert_eq!(
        json.examples,
        Some(MediaTypeExample::Examples {
            examples: map_of(vec![
                ("one", example(Json::Object(map_of(vec![("id", string("c"))])))),
                ("two", example(Json::Object(map_of(vec![("id", literal("7"))])))),
            ])
        })
    );
    match json.schema.as_ref().unwrap() {
        ObjectOrReference::Object(s) => assert_eq!(
            s.properties.as_ref().unwrap().get("id").unwrap().schema_type,
            some("integer")
        ),
        _ => panic!("no schema"),
    }
    assert_eq!(
        content.get("application/octet-stream").unwrap(),
        &MediaType {
            schema: None,
            examples: Some(MediaTypeExample::Examples {
                examples: map_of(vec![("four", example(string("42")))])
            })
        }
    );
    assert_eq!(
        content.get("text/plain").unwrap().examples,
        Some(MediaTypeExample::Examples {
            examples: map_of(vec![("five", example(string("c plain")))])
        })
    );
}

#[test]
fn text_is_judged_by_what_it_reads_as() {
    let map = StrMap::new();
    let t = reader(&map, "");
    let mut content = StrMap::new();
    t.add_text(&mut content, "n", "text", None, &language("html"))
        .unwrap();
    t.add_text(&mut content, "n", "[1]", Some(Json::Array(vec![literal("1")])), &None)
        .unwrap();
    t.add_text(&mut content, "n", "null", Some(Json::Null), &None)
        .unwrap();
    let types: Vec<&str> = content.entries.iter().map(|e| e.0.as_str()).collect();
    assert_eq!(
        types,
        vec!["application/json", "application/octet-stream", "text/html"]
    );
}

#[test]
fn a_raw_body_without_text_is_empty() {
    let map = StrMap::new();
    let t = reader(&map, "");
    let mut op = Operation::default();
    t.extract_request_body(&body_of(Mode::Raw), &mut op, "x", None)
        .unwrap();
    assert!(content(&op).entries.is_empty());
    t.extract_request_body(&body_of(Mode::File), &mut op, "x", None)
        .unwrap();
    assert!(content(&op).entries.is_empty());
    t.extract_request_body(&Body::default(), &mut op, "x", some("text/html"))
        .unwrap();
    assert!(content(&op).entries.is_empty());
    t.extract_request_body(&Body::default(), &mut op, "x", None)
        .unwrap();
    assert_eq!(
        content(&op).get("application/octet-stream"),
        Some(&MediaType::default())
    );
}

#[test]
fn forms_are_read() {
    let map = StrMap::new();
    let t = reader(&map, NOTES);
    let mut op = Operation::default();
    let mut body = body_of(Mode::Urlencoded);
    body.urlencoded = Some(vec![
        UrlEncodedParameter {
            key: "id".to_string(),
            value: some("5"),
        },
        UrlEncodedParameter {
            key: "empty".to_string(),
            value: None,
        },
    ]);
    t.extract_request_body(&body, &mut op, "form", None).unwrap();
    let form = content(&op).get("application/x-www-form-urlencoded").unwrap();
    assert_eq!(
        form.schema,
        Some(ObjectOrReference::Object(Schema {
            properties: Some(map_of(vec![(
                "id",
                Schema {
                    description: some("The user "),
                    ..typed("string")
                }
            )])),
            required: Some(vec!["id".to_string()]),
            ..typed("object")
        }))
    );
    assert_eq!(
        form.examples,
        Some(MediaTypeExample::Examples {
            examples: map_of(vec![(
                "form",
                example(Json::Object(map_of(vec![("id", string("5"))])))
            )])
        })
    );
}

#[test]
fn forms_in_parts_are_read() {
    let map = StrMap::new();
    let t = reader(&map, NOTES);
    let mut op = Operation::default();
    let field = |key: &str, value: Option<&str>, t: Option<&str>| FormParameter {
        key: key.to_string(),
        value: value.map(|v| v.to_string()),
        form_parameter_type: t.map(|t| t.to_string()),
        description: Some(DescriptionUnion::String(format!("the {key}"))),
    };
    let mut body = body_of(Mode::Formdata);
    body.formdata = Some(vec![
        field("n", Some("5"), Some("text")),
        field("f", None, Some("file")),
        field("g", Some("x"), Some("file")),
        field("skipped", Some("x"), None),
    ]);
    t.extract_request_body(&body, &mut op, "form", None).unwrap();
    let form = content(&op).get("multipart/form-data").unwrap();
    assert_eq!(form.examples, None);
    let described = |key: &str, t: &str, format: Option<&str>| Schema {
        description: some(&format!("the {key}")),
        format: format.map(|f| f.to_string()),
        ..typed(t)
    };
    assert_eq!(
        form.schema,
        Some(ObjectOrReference::Object(Schema {
            properties: Some(map_of(vec![
                ("f", described("f", "string", Some("binary"))),
                ("g", described("g", "string", Some("binary"))),
                ("n", described("n", "integer", None)),
            ])),
            ..typed("object")
        }))
    );
    let mut op = Operation::default();
    t.extract_request_body(&body_of(Mode::Formdata), &mut op, "form", None)
        .unwrap();
    assert_eq!(
        content(&op).get("multipart/form-data"),
        Some(&MediaType::default())
    );
}

#[test]
fn graphql_requests_are_read() {
    let map = StrMap::new();
    let t = reader(&map, "");
    let mut op = Operation::default();
    let mut body = body_of(Mode::GraphQl);
    body.graphql = Some(GraphQlBody::GraphQlBodyClass(GraphQlBodyClass {
        query: some("{ a }"),
        variables: some("not json"),
    }));
    t.extract_request_body(&body, &mut op, "q", None).unwrap();
    let media = content(&op).get("application/json").unwrap();
    assert_eq!(
        media.schema,
        Some(ObjectOrReference::Object(Schema {
            properties: Some(map_of(vec![
                ("query", typed("string")),
                ("variables", typed("object")),
            ])),
            ..typed("object")
        }))
    );
    assert_eq!(
        media.examples,
        Some(MediaTypeExample::Example {
            example: Json::Object(map_of(vec![("query", string("{ a }"))]))
        })
    );
    assert_eq!(
        make_graphql_example("q", Some(Json::Null)),
        Json::Object(map_of(vec![("query", string("q")), ("variables", Json::Null)]))
    );
    // A raw body leaves the one example of a GraphQL request as it is.
    let mut raw = body_of(Mode::Raw);
    raw.raw = some("[]");
    t.extract_request_body(&raw, &mut op, "r", None).unwrap();
    let media = content(&op).get("application/json").unwrap();
    assert!(matches!(
        media.examples,
        Some(MediaTypeExample::Example { .. })
    ));
}

fn response(code: i64, name: &str, body: Option<&str>) -> Option<ResponseClass> {
    Some(ResponseClass {
        code: Some(code),
        name: some(name),
        status: some("Fine"),
        body: body.map(|b| b.to_string()),
        ..ResponseClass::default()
    })
}

#[test]
fn saved_responses_are_described() {
    let map = StrMap::new();
    let t = reader(&map, "");
    let mut op = Operation::default();
    let mut first = response(201, "Made", Some("{\"a\": 1}"));
    first.as_mut().unwrap().header = Some(Headers::UnionArray(vec![
        HeaderElement::Header(header("X-Id", "5")),
        HeaderElement::Header(header("X-Empty", "")),
        HeaderElement::Header(header("content-Type", "text/html")),
        HeaderElement::String("X-Plain: 1".to_string()),
    ]));
    let saved = Some(vec![
        first,
        None,
        response(201, "Made again", Some("{\"a\": \"x\", \"b\": true}")),
        response(201, "Plain", Some("plain")),
        response(404, "Missing", None),
    ]);
    t.add_responses(&mut op, "x", &saved).unwrap();
    let codes: Vec<&str> = op.responses.entries.iter().map(|e| e.0.as_str()).collect();
    assert_eq!(codes, vec!["201", "404"]);
    let made = op.responses.get("201").unwrap();
    assert_eq!(made.description, some("Fine"));
    let headers = made.headers.as_ref().unwrap();
    assert_eq!(headers.entries.len(), 1);
    match headers.get("X-Id").unwrap() {
        ObjectOrReference::Object(h) => assert_eq!(
            h.schema,
            Some(Schema {
                example: Some(literal("5")),
                ..typed("integer")
            })
        ),
        _ => panic!("no header"),
    }
    let content = made.content.as_ref().unwrap();
    // A media type that the first response lacks does not come in.
    assert_eq!(content.entries.len(), 1);
    let media = content.get("application/json").unwrap();
    match media.examples.as_ref().unwrap() {
        MediaTypeExample::Examples { examples } => {
            let names: Vec<&str> = examples.entries.iter().map(|e| e.0.as_str()).collect();
            assert_eq!(names, vec!["Made", "Made again"]);
        }
        _ => panic!("no examples"),
    }
    match media.schema.as_ref().unwrap() {
        ObjectOrReference::Object(s) => {
            assert_eq!(s.properties.as_ref().unwrap().entries.len(), 2)
        }
        _ => panic!("no schema"),
    }
    let missing = op.responses.get("404").unwrap();
    assert_eq!(missing.description, some("Missing"));
    assert!(missing.content.as_ref().unwrap().entries.is_empty());
}

#[test]
fn the_request_of_a_response_gives_its_body() {
    let map = StrMap::new();
    let t = reader(&map, "");
    let mut op = Operation::default();
    let mut saved = response(200, "Ok", None);
    let mut body = body_of(Mode::Raw);
    body.raw = some("hello");
    saved.as_mut().unwrap().original_request = Some(RequestClass {
        body: Some(body),
        ..RequestClass::default()
    });
    t.add_responses(&mut op, "x", &Some(vec![saved])).unwrap();
    assert!(content(&op).contains_key("text/plain"));
}

#[test]
fn responses_gather_by_code() {
    let mut responses = StrMap::new();
    add_response(&mut responses, None, &None, Response::default());
    assert!(responses.entries.is_empty());
    add_response(&mut responses, Some(-1), &None, Response::default());
    add_response(
        &mut responses,
        Some(-1),
        &some("Again"),
        Response {
            description: some("lost"),
            ..Response::default()
        },
    );
    assert_eq!(responses.get("-1").unwrap().description, some("Again"));
    assert_eq!(responses.entries.len(), 1);
    add_success(&mut responses);
    assert_eq!(responses.get("200").unwrap().description, some(""));
    let mut responses = map_of(vec![("226", Response::default())]);
    add_success(&mut responses);
    assert_eq!(responses.entries.len(), 1);
}

fn scheme_of(auth: Auth) -> (Vec<SecurityRequirement>, Option<SecurityScheme>) {
    let spec = postman2openapi::postman::Spec {
        variable: Some(vec![postman2openapi::postman::Variable {
            key: some("b"),
            value: Some(string("c")),
            description: None,
        }]),
        auth: Some(auth),
        ..postman2openapi::postman::Spec::default()
    };
    let OpenApi::V3_0(oas) = Transpiler::transpile(spec);
    let mut schemes = oas.components.unwrap().security_schemes.unwrap();
    let own = schemes.entries.pop().map(|e| match e.1 {
        ObjectOrReference::Object(s) => s,
        _ => panic!("no scheme"),
    });
    (oas.security.unwrap(), own)
}

fn plain(auth_type: AuthType) -> Auth {
    Auth {
        auth_type,
        apikey: None,
        oauth2: None,
    }
}

fn http(scheme: &str, format: Option<&str>) -> Option<SecurityScheme> {
    Some(SecurityScheme::Http {
        scheme: scheme.to_string(),
        bearer_format: format.map(|f| f.to_string()),
    })
}

fn needs(name: &str, scopes: &[&str]) -> Vec<SecurityRequirement> {
    vec![SecurityRequirement {
        requirement: Some(map_of(vec![(
            name,
            scopes.iter().map(|s| s.to_string()).collect(),
        )])),
    }]
}

#[test]
fn authorizations_have_schemes() {
    assert_eq!(
        scheme_of(plain(AuthType::Basic)),
        (needs("basicAuth", &[]), http("basic", None))
    );
    assert_eq!(
        scheme_of(plain(AuthType::Digest)),
        (needs("digestAuth", &[]), http("digest", None))
    );
    assert_eq!(
        scheme_of(plain(AuthType::Bearer)),
        (needs("bearerAuth", &[]), http("bearer", None))
    );
    assert_eq!(
        scheme_of(plain(AuthType::Jwt)),
        (needs("jwtBearerAuth", &[]), http("bearer", Some("jwt")))
    );
    assert_eq!(
        scheme_of(plain(AuthType::Noauth)),
        (vec![SecurityRequirement { requirement: None }], None)
    );
    for other in [
        AuthType::Awsv4,
        AuthType::Hawk,
        AuthType::Ntlm,
        AuthType::Oauth1,
    ] {
        assert_eq!(scheme_of(plain(other)), (Vec::new(), None));
    }
}

#[test]
fn keys_have_a_name_and_a_place() {
    let key = |name: &str, location: &str| {
        Some(SecurityScheme::ApiKey {
            name: name.to_string(),
            location: location.to_string(),
        })
    };
    assert_eq!(
        scheme_of(plain(AuthType::Apikey)),
        (needs("RapidAPIKey", &[]), key("Authorization", "header"))
    );
    let mut auth = plain(AuthType::Apikey);
    auth.apikey = Some(ApiKey {
        key: some("X-{{b}}"),
        location: ApiKeyLocation::Query,
    });
    assert_eq!(
        scheme_of(auth),
        (needs("RapidAPIKey", &[]), key("X-c", "query"))
    );
    let mut auth = plain(AuthType::Apikey);
    auth.apikey = Some(ApiKey {
        key: None,
        location: ApiKeyLocation::Header,
    });
    assert_eq!(scheme_of(auth).1, key("Authorization", "header"));
}

fn oauth(grant_type: Oauth2GrantType) -> Auth {
    Auth {
        oauth2: Some(Oauth2 {
            grant_type,
            access_token_url: some("token/{{b}}"),
            auth_url: None,
            refresh_token_url: some("refresh"),
            scope: Some(vec!["w".to_string(), "{{b}}".to_string(), "w".to_string()]),
        }),
        ..plain(AuthType::Oauth2)
    }
}

#[test]
fn flows_follow_the_grant() {
    let scopes = || map_of(vec![("c", "c".to_string()), ("w", "w".to_string())]);
    let flows = |flows: Flows| {
        Some(SecurityScheme::OAuth2 {
            flows: Box::new(flows),
        })
    };
    for grant in [
        Oauth2GrantType::AuthorizationCode,
        Oauth2GrantType::AuthorizationCodeWithPkce,
    ] {
        assert_eq!(
            scheme_of(oauth(grant)),
            (
                needs("oauth2", &["w", "{{b}}", "w"]),
                flows(Flows {
                    authorization_code: Some(AuthorizationCodeFlow {
                        authorization_url: "".to_string(),
                        token_url: "token/c".to_string(),
                        refresh_url: some("refresh"),
                        scopes: scopes(),
                    }),
                    ..Flows::default()
                })
            )
        );
    }
    assert_eq!(
        scheme_of(oauth(Oauth2GrantType::ClientCredentials)).1,
        flows(Flows {
            client_credentials: Some(ClientCredentialsFlow {
                token_url: "token/c".to_string(),
                refresh_url: some("refresh"),
                scopes: scopes(),
            }),
            ..Flows::default()
        })
    );
    assert_eq!(
        scheme_of(oauth(Oauth2GrantType::PasswordCredentials)).1,
        flows(Flows {
            password: Some(PasswordFlow {
                token_url: "token/c".to_string(),
                refresh_url: some("refresh"),
                scopes: scopes(),
            }),
            ..Flows::default()
        })
    );
    assert_eq!(
        scheme_of(oauth(Oauth2GrantType::Implicit)).1,
        flows(Flows {
            implicit: Some(ImplicitFlow {
                authorization_url: "".to_string(),
                refresh_url: some("refresh"),
                scopes: scopes(),
            }),
            ..Flows::default()
        })
    );
    assert_eq!(
        scheme_of(plain(AuthType::Oauth2)),
        (needs("oauth2", &[]), flows(Flows::default()))
    );
}

#[test]
fn requirements_gather_once() {
    let basic = || make_requirement(Some(("basicAuth".to_string(), Vec::new())));
    let scoped = || make_requirement(Some(("oauth2".to_string(), vec!["a".to_string()])));
    let none = || make_requirement(None);
    let first = add_requirements(None, Some(vec![basic()]));
    let second = add_requirements(first, Some(vec![basic(), scoped()]));
    let third = add_requirements(second, Some(vec![none(), scoped(), none()]));
    assert_eq!(third, Some(vec![basic(), scoped(), none()]));
    assert_eq!(add_requirements(None, None), None);
    assert_eq!(add_requirements(Some(vec![basic()]), None), Some(vec![basic()]));
    assert_eq!(basic().clone(), basic());
}

#[test]
fn identifiers_are_counted() {
    let mut ids = StrMap::new();
    assert_eq!(next_id(&mut ids, "Get it"), Ok("getIt".to_string()));
    assert_eq!(next_id(&mut ids, "get-it"), Ok("getIt1".to_string()));
    assert_eq!(next_id(&mut ids, "other"), Ok("other".to_string()));
    assert_eq!(next_id(&mut ids, "Get It!"), Ok("getIt2".to_string()));
    assert_eq!(ids, map_of(vec![("getIt", 2), ("other", 0)]));
    let mut full = map_of(vec![("x", usize::MAX)]);
    assert_eq!(next_id(&mut full, "x"), Err(Fault::Count));
}

#[test]
fn segments_become_templates() {
    let template = |s: &str| template(s.to_string());
    assert_eq!(template(""), Ok("".to_string()));
    assert_eq!(template("users"), Ok("users".to_string()));
    assert_eq!(template(":id"), Ok("{id}".to_string()));
    assert_eq!(template(":"), Ok("{}".to_string()));
    assert_eq!(template("a:b"), Ok("a:b".to_string()));
    assert_eq!(template("\u{80}"), Err(Fault::Segment));
    assert_eq!(template("~\u{80}"), Ok("~\u{80}".to_string()));
}

#[test]
fn a_method_changes_its_own_place() {
    let mut item = PathItem::default();
    *slot_mut(&mut item, "patch") = Some(Operation::default());
    assert_eq!(
        item,
        PathItem {
            patch: Some(Operation::default()),
            ..PathItem::default()
        }
    );
    *slot_mut(&mut item, "head") = Some(Operation::default());
    assert!(item.get.is_some());
    assert!(slot_mut(&mut item, "put").is_none());
}

#[test]
fn headers_are_skipped_by_name_and_list() {
    let none = Vec::new();
    let listed = vec!["X-A".to_string()];
    assert!(skips_header(&none, "Accept", "accept"));
    assert!(skips_header(&listed, "Authorization", "authorization"));
    assert!(!skips_header(&listed, "Content-Type", "content-type"));
    assert!(!skips_header(&none, "X-B", "x-b"));
    assert!(skips_header(&listed, "X-B", "x-b"));
    assert!(!skips_header(&listed, "X-A", "x-a"));
    assert!(skips_header(&listed, "x-a", "x-a"));
    assert!(passes_over(&none, "X-A", "x-a", ""));
    assert!(passes_over(&none, "Content-Type", "content-type", "v"));
    assert!(!passes_over(&none, "Accept", "accept", "v"));
    assert!(passes_over(&listed, "X-B", "x-b", "v"));
    assert!(!passes_over(&listed, "X-A", "x-a", "v"));
}

#[test]
fn places_become_parameters_of_the_path() {
    let map = StrMap::new();
    let t = reader(&map, "");
    let mut params = Vec::new();
    let names = vec!["a".to_string(), "b".to_string()];
    t.add_places(&None, &names, &mut params).unwrap();
    assert_eq!(params.len(), 2);
    assert_eq!(
        params[1],
        ObjectOrReference::Object(Parameter {
            required: Some(true),
            ..parameter("path", "b", typed("string"))
        })
    );
    let segments = vec!["{x}{}-{{y}}".to_string(), "z".to_string()];
    let params = t.generate_path_parameters(&segments, &None).unwrap().unwrap();
    let names: Vec<&str> = params
        .iter()
        .map(|p| match p {
            ObjectOrReference::Object(p) => p.name.as_str(),
            ObjectOrReference::Ref { ref_path } => ref_path.as_str(),
        })
        .collect();
    assert_eq!(names, vec!["x", "", "y"]);
}

fn attribute(key: &str, value: Option<Json>) -> Attribute {
    Attribute {
        key: key.to_string(),
        value,
    }
}

#[test]
fn attributes_are_found_by_their_keys() {
    let list = vec![
        attribute("a", None),
        attribute("b", Some(string("1"))),
        attribute("b", Some(string("2"))),
        attribute("c", Some(literal("3"))),
        attribute("a", Some(string("4"))),
    ];
    assert_eq!(find_attribute(&list, "b"), some("1"));
    assert_eq!(find_attribute(&list, "a"), None);
    assert_eq!(find_attribute(&list, "c"), None);
    assert_eq!(find_attribute(&list, "d"), None);
}

#[test]
fn attributes_make_a_key() {
    let list = vec![
        attribute("key", Some(string("X-Key"))),
        attribute("in", Some(string("query"))),
    ];
    let key = ApiKey::of_attributes(&list);
    assert_eq!(key.key, some("X-Key"));
    assert!(matches!(key.location, ApiKeyLocation::Query));
    let key = ApiKey::of_attributes(&vec![attribute("in", Some(string("Query")))]);
    assert_eq!(key.key, None);
    assert!(matches!(key.location, ApiKeyLocation::Header));
}

#[test]
fn attributes_make_a_grant() {
    let list = vec![
        attribute("scope", Some(string(" read\twrite\u{2003}all "))),
        attribute("accessTokenUrl", Some(string("t"))),
        attribute("authUrl", Some(string("a"))),
        attribute("refreshTokenUrl", Some(string("r"))),
    ];
    let oauth2 = Oauth2::of_attributes(&list);
    assert!(matches!(
        oauth2.grant_type,
        Oauth2GrantType::AuthorizationCode
    ));
    assert_eq!(oauth2.access_token_url, some("t"));
    assert_eq!(oauth2.auth_url, some("a"));
    assert_eq!(oauth2.refresh_token_url, some("r"));
    let scopes = vec!["read".to_string(), "write".to_string(), "all".to_string()];
    assert_eq!(oauth2.scope, Some(scopes));
    let grant = |name: &str| {
        Oauth2::of_attributes(&vec![attribute("grant_type", Some(string(name)))]).grant_type
    };
    assert!(matches!(
        grant("authorization_code_with_pkce"),
        Oauth2GrantType::AuthorizationCodeWithPkce
    ));
    assert!(matches!(
        grant("client_credentials"),
        Oauth2GrantType::ClientCredentials
    ));
    assert!(matches!(grant("implicit"), Oauth2GrantType::Implicit));
    assert!(matches!(
        grant("password_credentials"),
        Oauth2GrantType::PasswordCredentials
    ));
    assert!(matches!(
        grant("authorization_code"),
        Oauth2GrantType::AuthorizationCode
    ));
    assert!(Oauth2::of_attributes(&Vec::new()).scope.is_none());
}
