use postman2openapi::fault::Fault;
use postman2openapi::json::Json;
use postman2openapi::map::StrMap;
use postman2openapi::openapi::v3_0::{
    MediaTypeExample, ObjectOrReference, Operation, Parameter, Schema, SecurityScheme, Spec as Oas,
};
use postman2openapi::openapi::OpenApi;
use postman2openapi::postman::{
    extract_description, Auth, AuthType, Body, Description, DescriptionUnion, GraphQlBody,
    GraphQlBodyClass, Header, HeaderUnion, Host, Information, Items, Mode, PathElement, QueryParam,
    RequestClass, RequestUnion, ResponseClass, Spec, Url, UrlClass, UrlEncodedParameter, UrlPath,
    Variable,
};
use postman2openapi::Transpiler;

fn text(s: &str) -> Option<String> {
    Some(s.to_string())
}

fn path_of(path: &str) -> Option<UrlPath> {
    Some(UrlPath::UnionArray(
        path.split('/')
            .map(|s| PathElement::String(s.to_string()))
            .collect(),
    ))
}

fn url_of(path: &str) -> UrlClass {
    UrlClass {
        protocol: text("https"),
        host: Some(Host::StringArray(vec![
            "postman-echo".to_string(),
            "com".to_string(),
        ])),
        path: path_of(path),
        query: None,
        variable: None,
    }
}

fn request_of(method: &str, url: UrlClass) -> RequestClass {
    RequestClass {
        url: Some(Url::UrlClass(url)),
        method: text(method),
        ..RequestClass::default()
    }
}

fn item_of(name: &str, request: RequestClass) -> Items {
    Items {
        name: text(name),
        request: Some(RequestUnion::RequestClass(request)),
        ..Items::default()
    }
}

fn simple(name: &str, method: &str, path: &str) -> Items {
    item_of(name, request_of(method, url_of(path)))
}

fn folder(name: &str, items: Vec<Items>) -> Items {
    Items {
        name: text(name),
        item: Some(items),
        ..Items::default()
    }
}

fn auth_of(auth_type: AuthType) -> Option<Auth> {
    Some(Auth {
        auth_type,
        apikey: None,
        oauth2: None,
    })
}

fn query(pairs: &[(&str, &str)]) -> Option<Vec<QueryParam>> {
    Some(
        pairs
            .iter()
            .map(|(k, v)| QueryParam {
                key: text(k),
                value: text(v),
                description: None,
            })
            .collect(),
    )
}

fn spec_of(item: Vec<Items>) -> Spec {
    Spec {
        info: Information {
            name: "Postman Echo".to_string(),
            description: None,
        },
        item,
        variable: None,
        auth: None,
    }
}

fn secured(name: &str, path: &str, auth_type: AuthType) -> Items {
    let mut request = request_of("GET", url_of(path));
    request.auth = auth_of(auth_type);
    item_of(name, request)
}

fn queried(name: &str, path: &str, pairs: &[(&str, &str)]) -> Items {
    let mut url = url_of(path);
    url.query = query(pairs);
    item_of(name, request_of("GET", url))
}

fn echo() -> Spec {
    let mut raw = request_of("POST", url_of("post"));
    raw.body = Some(Body {
        mode: Some(Mode::Raw),
        raw: text("Duis posuere augue vel cursus pharetra."),
        ..Body::default()
    });
    let mut form = request_of("POST", url_of("post"));
    form.header = Some(HeaderUnion::HeaderArray(vec![Header {
        key: "Content-Type".to_string(),
        value: "application/x-www-form-urlencoded".to_string(),
        description: None,
    }]));
    form.body = Some(Body {
        mode: Some(Mode::Urlencoded),
        urlencoded: Some(vec![
            UrlEncodedParameter {
                key: "foo1".to_string(),
                value: text("bar1"),
            },
            UrlEncodedParameter {
                key: "foo2".to_string(),
                value: text("bar2"),
            },
        ]),
        ..Body::default()
    });
    let mut headers = request_of("GET", url_of("headers"));
    headers.header = Some(HeaderUnion::HeaderArray(vec![Header {
        key: "my-sample-header".to_string(),
        value: "Lorem ipsum dolor sit amet".to_string(),
        description: Some(DescriptionUnion::String("My Sample Header".to_string())),
    }]));
    spec_of(vec![
        folder(
            "Request Methods",
            vec![
                queried("GET Request", "get", &[("foo1", "bar1"), ("foo2", "bar2")]),
                item_of("POST Raw Text", raw),
                item_of("POST Form Data", form),
                simple("PUT Request", "PUT", "put"),
                simple("PATCH Request", "PATCH", "patch"),
                simple("DELETE Request", "DELETE", "delete"),
            ],
        ),
        folder(
            "Headers",
            vec![
                item_of("Request Headers", headers),
                queried(
                    "Response Headers",
                    "response-headers",
                    &[("foo1", "bar1"), ("foo2", "bar2")],
                ),
            ],
        ),
        folder(
            "Authentication Methods",
            vec![
                secured("Basic Auth", "basic-auth", AuthType::Basic),
                secured("DigestAuth Success", "digest-auth", AuthType::Digest),
                secured("DigestAuth Request", "digest-auth", AuthType::Noauth),
                secured("Hawk Auth", "auth/hawk", AuthType::Hawk),
                secured("OAuth1.0 (verify signature)", "oauth1", AuthType::Oauth1),
            ],
        ),
        folder(
            "Cookie Manipulation",
            vec![
                queried("Set Cookies", "cookies/set", &[("foo1", "bar1")]),
                simple("Get Cookies", "GET", "cookies"),
                queried("Delete Cookies", "cookies/delete", &[("foo1", "")]),
            ],
        ),
        folder(
            "Utilities",
            vec![
                simple("Response Status Code", "GET", "status/200"),
                simple("Streamed Response", "GET", "stream/5"),
                simple("Delay Response", "GET", "delay/2"),
                simple("Get UTF8 Encoded Response", "GET", "encoding/utf8"),
                simple("GZip Compressed Response", "GET", "gzip"),
                simple("Deflate Compressed Response", "GET", "deflate"),
                simple("IP address in JSON format", "GET", "ip"),
            ],
        ),
        folder(
            "Utilities / Date and Time",
            vec![
                simple("Current UTC time", "GET", "time/now"),
                queried("Timestamp validity", "time/valid", &[("timestamp", "2016-10-10")]),
                simple("Format timestamp", "GET", "time/format"),
                simple("Extract timestamp unit", "GET", "time/unit"),
                simple("Time addition", "GET", "time/add"),
                simple("Time subtraction", "GET", "time/subtract"),
                simple("Start of time", "GET", "time/start"),
                simple("Object representation", "GET", "time/object"),
                simple("Before comparisons", "GET", "time/before"),
                simple("After comparisons", "GET", "time/after"),
                simple("Between timestamps", "GET", "time/between"),
                simple("Leap year check", "GET", "time/leap"),
            ],
        ),
        folder(
            "Utilities / Postman Collection",
            vec![
                simple("Transform collection", "POST", "transform/collection"),
                simple("Transform collection back", "POST", "transform/collection"),
            ],
        ),
        folder(
            "Auth: Digest",
            vec![simple("Hello", "GET", "{{method}}/hello")],
        ),
    ])
}

fn oas_of(spec: Spec) -> Box<Oas> {
    let OpenApi::V3_0(oas) = Transpiler::transpile(spec);
    oas
}

fn single(item: Items) -> Box<Oas> {
    oas_of(spec_of(vec![item]))
}

fn get_of<'a>(oas: &'a Oas, path: &str) -> &'a Operation {
    oas.paths.get(path).unwrap().get.as_ref().unwrap()
}

#[test]
fn test_extract_description() {
    let description = Some(DescriptionUnion::String("test".to_string()));
    assert_eq!(extract_description(&description), Some("test".to_string()));

    let description = Some(DescriptionUnion::Description(Description {
        content: Some("test".to_string()),
        ..Description::default()
    }));
    assert_eq!(extract_description(&description), Some("test".to_string()));

    let description = None;
    assert_eq!(extract_description(&description), None);
}

#[test]
fn test_generate_path_parameters() {
    let empty_map = StrMap::new();
    let transpiler = Transpiler::new(&empty_map, "", Vec::new());
    let postman_variables = Some(vec![Variable {
        key: Some("test".to_string()),
        value: Some(Json::String("test_value".to_string())),
        description: None,
        ..Variable::default()
    }]);
    let path_params = vec!["/test/".to_string(), "{{test_value}}".to_string()];
    let params = transpiler
        .generate_path_parameters(&path_params, &postman_variables)
        .unwrap();
    assert_eq!(params.unwrap().len(), 1);
}

#[test]
fn test_generate_query_parameters() {
    let empty_map = StrMap::new();
    let transpiler = Transpiler::new(&empty_map, "", Vec::new());
    let query_params = vec![QueryParam {
        key: Some("test".to_string()),
        value: Some("{{test}}".to_string()),
        description: None,
        ..QueryParam::default()
    }];
    let params = transpiler.generate_query_parameters(&query_params).unwrap();
    assert_eq!(params.unwrap().len(), 1);
}

#[test]
fn it_preserves_order_on_paths() {
    let oas = Transpiler::transpile(echo());
    let ordered_paths = [
        "/get",
        "/post",
        "/put",
        "/patch",
        "/delete",
        "/headers",
        "/response-headers",
        "/basic-auth",
        "/digest-auth",
        "/auth/hawk",
        "/oauth1",
        "/cookies/set",
        "/cookies",
        "/cookies/delete",
        "/status/200",
        "/stream/5",
        "/delay/2",
        "/encoding/utf8",
        "/gzip",
        "/deflate",
        "/ip",
        "/time/now",
        "/time/valid",
        "/time/format",
        "/time/unit",
        "/time/add",
        "/time/subtract",
        "/time/start",
        "/time/object",
        "/time/before",
        "/time/after",
        "/time/between",
        "/time/leap",
        "/transform/collection",
        "/{method}/hello",
    ];
    let OpenApi::V3_0(s) = oas;
    let keys = s.paths.keys().enumerate();
    for (i, k) in keys {
        assert_eq!(k, ordered_paths[i])
    }
    assert_eq!(s.paths.len(), ordered_paths.len());
}

#[test]
fn it_uses_the_correct_content_type_for_form_urlencoded_data() {
    let oas = Transpiler::transpile(echo());
    match oas {
        OpenApi::V3_0(oas) => {
            let b = oas
                .paths
                .get("/post")
                .unwrap()
                .post
                .as_ref()
                .unwrap()
                .request_body
                .as_ref()
                .unwrap();
            if let ObjectOrReference::Object(b) = b {
                assert!(b.content.contains_key("application/x-www-form-urlencoded"));
            } else {
                panic!("the body stands elsewhere");
            }
        }
    }
}

#[test]
fn it_generates_headers_from_the_request() {
    let oas = Transpiler::transpile(echo());
    match oas {
        OpenApi::V3_0(oas) => {
            let params = oas
                .paths
                .get("/headers")
                .unwrap()
                .get
                .as_ref()
                .unwrap()
                .parameters
                .as_ref()
                .unwrap();
            let header = params
                .iter()
                .find(|p| {
                    if let ObjectOrReference::Object(p) = p {
                        p.location == "header"
                    } else {
                        false
                    }
                })
                .unwrap();
            let expected = ObjectOrReference::Object(Parameter {
                name: "my-sample-header".to_owned(),
                location: "header".to_owned(),
                description: Some("My Sample Header".to_owned()),
                schema: Some(Schema {
                    schema_type: Some("string".to_owned()),
                    example: Some(Json::String("Lorem ipsum dolor sit amet".to_owned())),
                    ..Schema::default()
                }),
                ..Parameter::default()
            });
            assert_eq!(header, &expected);
        }
    }
}

#[test]
fn it_generates_root_path_when_no_path_exists_in_collection() {
    let mut url = url_of("");
    url.path = None;
    let spec = spec_of(vec![item_of("Root", request_of("GET", url))]);
    let oas = Transpiler::transpile(spec);
    match oas {
        OpenApi::V3_0(oas) => {
            assert!(oas.paths.contains_key("/"));
        }
    }
}

#[test]
fn it_parses_graphql_request_bodies() {
    let mut url = url_of("");
    url.path = None;
    let mut request = request_of("POST", url);
    request.body = Some(Body {
        mode: Some(Mode::GraphQl),
        graphql: Some(GraphQlBody::GraphQlBodyClass(GraphQlBodyClass {
            query: text("query ($id: ID) { node(id: $id) { id } }"),
            variables: text("{ \"id\": 1 }"),
        })),
        ..Body::default()
    });
    let oas = Transpiler::transpile(spec_of(vec![item_of("Query", request)]));
    match oas {
        OpenApi::V3_0(oas) => {
            let body = oas
                .paths
                .get("/")
                .unwrap()
                .post
                .as_ref()
                .unwrap()
                .request_body
                .as_ref()
                .unwrap();

            if let ObjectOrReference::Object(body) = body {
                assert!(body.content.contains_key("application/json"));
                let content = body.content.get("application/json").unwrap();
                let schema = content.schema.as_ref().unwrap();
                if let ObjectOrReference::Object(schema) = schema {
                    let props = schema.properties.as_ref().unwrap();
                    assert!(props.contains_key("query"));
                    assert!(props.contains_key("variables"));
                } else {
                    panic!("the schema stands elsewhere");
                }
                let examples = content.examples.as_ref().unwrap();
                if let MediaTypeExample::Example {
                    example: Json::Object(example),
                } = examples
                {
                    assert!(example.contains_key("query"));
                    assert!(example.contains_key("variables"));
                } else {
                    panic!("the example is no object");
                }
            } else {
                panic!("the body stands elsewhere");
            }
        }
    }
}

#[test]
fn it_collapses_duplicate_query_params() {
    let mut url = url_of("v2/json-rpc/{{site id}}");
    url.query = query(&[
        ("op", "first"),
        ("limit", "10"),
        ("op", "second"),
        ("limit", "20"),
        ("op", "third"),
    ]);
    let mut other = url_of("v2/json-rpc/{{site id}}");
    other.query = query(&[("limit", "30"), ("page", "1"), ("op", "fourth")]);
    let spec = spec_of(vec![
        item_of("First", request_of("POST", url)),
        item_of("Second", request_of("POST", other)),
    ]);
    let oas = Transpiler::transpile(spec);
    match oas {
        OpenApi::V3_0(oas) => {
            let query_param_names = oas
                .paths
                .get("/v2/json-rpc/{site id}")
                .unwrap()
                .post
                .as_ref()
                .unwrap()
                .parameters
                .as_ref()
                .unwrap()
                .iter()
                .filter_map(|p| match p {
                    ObjectOrReference::Object(p) => {
                        if p.location == "query" {
                            Some(p.name.clone())
                        } else {
                            None
                        }
                    }
                    _ => None,
                })
                .collect::<Vec<String>>();

            assert!(!query_param_names.is_empty());

            let duplicates = (1..query_param_names.len())
                .filter_map(|i| {
                    if query_param_names[i..].contains(&query_param_names[i - 1]) {
                        Some(query_param_names[i - 1].clone())
                    } else {
                        None
                    }
                })
                .collect::<std::collections::HashSet<String>>();

            assert!(duplicates.is_empty(), "duplicates: {duplicates:?}");
            assert_eq!(query_param_names, vec!["op", "limit", "page"]);
        }
    }
}

#[test]
fn it_uses_the_security_requirement_on_operations() {
    let oas = Transpiler::transpile(echo());
    match oas {
        OpenApi::V3_0(oas) => {
            let sr1 = oas
                .paths
                .get("/basic-auth")
                .unwrap()
                .get
                .as_ref()
                .unwrap()
                .security
                .as_ref()
                .unwrap();
            assert_eq!(
                sr1.get(0)
                    .unwrap()
                    .requirement
                    .as_ref()
                    .unwrap()
                    .get("basicAuth"),
                Some(&vec![])
            );
            let sr1 = oas
                .paths
                .get("/digest-auth")
                .unwrap()
                .get
                .as_ref()
                .unwrap()
                .security
                .as_ref()
                .unwrap();
            assert_eq!(
                sr1.get(0)
                    .unwrap()
                    .requirement
                    .as_ref()
                    .unwrap()
                    .get("digestAuth"),
                Some(&vec![])
            );

            let schemes = oas.components.unwrap().security_schemes.unwrap();
            let basic = schemes.get("basicAuth").unwrap();
            if let ObjectOrReference::Object(basic) = basic {
                match basic {
                    SecurityScheme::Http { scheme, .. } => {
                        assert_eq!(scheme, "basic");
                    }
                    _ => panic!("Expected Http Security Scheme"),
                }
            }
            let digest = schemes.get("digestAuth").unwrap();
            if let ObjectOrReference::Object(digest) = digest {
                match digest {
                    SecurityScheme::Http { scheme, .. } => {
                        assert_eq!(scheme, "digest");
                    }
                    _ => panic!("Expected Http Security Scheme"),
                }
            }
        }
    }
}

#[test]
fn the_frame_of_a_description() {
    let mut spec = spec_of(Vec::new());
    spec.info.description = Some(DescriptionUnion::String(
        " An echo. \\[headers\\]A, B\\[/headers\\] \\[descriptions\\]\\[global\\]\na - b\n\\[/global\\]\\[/descriptions\\]".to_string(),
    ));
    let oas = oas_of(spec);
    assert_eq!(oas.openapi, "3.0.3");
    assert_eq!(oas.info.title, "Postman Echo");
    assert_eq!(oas.info.description, text("An echo."));
    assert_eq!(
        oas.info.terms_of_service,
        text("https://www.openwebninja.com/terms")
    );
    assert_eq!(oas.info.version, "1.0.0");
    assert_eq!(oas.servers, Some(Vec::new()));
    assert_eq!(oas.security, Some(Vec::new()));
    assert!(oas.components.is_none());
    assert!(oas.paths.is_empty());
}

#[test]
fn a_description_that_is_not_there_is_empty() {
    let oas = oas_of(spec_of(Vec::new()));
    assert_eq!(oas.info.description, text(""));
}

#[test]
fn servers_occur_once_and_are_resolved() {
    let mut spec = echo();
    let mut url = url_of("x");
    url.protocol = None;
    url.host = Some(Host::StringArray(vec!["{{host}}".to_string()]));
    spec.item.push(item_of("Other", request_of("GET", url)));
    spec.variable = Some(vec![Variable {
        key: text("host"),
        value: Some(Json::String("example.org".to_string())),
        description: None,
    }]);
    let oas = oas_of(spec);
    let urls: Vec<String> = oas
        .servers
        .as_ref()
        .unwrap()
        .iter()
        .map(|s| s.url.clone())
        .collect();
    assert_eq!(urls, vec!["https://postman-echo.com", "example.org"]);
}

#[test]
fn a_host_in_plain_text_names_no_server() {
    let mut url = url_of("x");
    url.host = Some(Host::String("example.org".to_string()));
    let oas = single(item_of("Plain", request_of("GET", url)));
    assert_eq!(oas.servers, Some(Vec::new()));
}

#[test]
fn requests_without_parts_are_passed_over() {
    let plain = Items {
        name: text("Plain"),
        request: Some(RequestUnion::String("https://example.org".to_string())),
        ..Items::default()
    };
    let address = Items {
        name: text("Address"),
        request: Some(RequestUnion::RequestClass(RequestClass {
            url: Some(Url::String("https://example.org".to_string())),
            ..RequestClass::default()
        })),
        ..Items::default()
    };
    let oas = oas_of(spec_of(vec![plain, address, Items::default()]));
    assert!(oas.paths.is_empty());
    assert_eq!(oas.servers, Some(Vec::new()));
}

#[test]
fn operations_are_named_after_their_requests() {
    let mut request = request_of("GET", url_of("a"));
    request.description = Some(DescriptionUnion::String("What it does".to_string()));
    let oas = oas_of(spec_of(vec![
        item_of("List all users (v2)", request),
        simple("List all users (v2)", "GET", "b"),
        simple("List all users, v2", "GET", "c"),
        simple("List all users (v2)", "POST", "a"),
    ]));
    let op = get_of(&oas, "/a");
    assert_eq!(op.operation_id, text("listAllUsersV2"));
    assert_eq!(op.summary, text("List all users (v2)"));
    assert_eq!(op.description, text("What it does"));
    assert_eq!(op.tags, None);
    let op = get_of(&oas, "/b");
    assert_eq!(op.operation_id, text("listAllUsersV21"));
    assert_eq!(op.description, text("List all users (v2)"));
    assert_eq!(get_of(&oas, "/c").operation_id, text("listAllUsersV22"));
    let post = oas.paths.get("/a").unwrap().post.as_ref().unwrap();
    assert_eq!(post.operation_id, text("listAllUsersV23"));
}

#[test]
fn a_request_without_a_name_has_one() {
    let mut item = simple("x", "GET", "a");
    item.name = None;
    let oas = single(item);
    let op = get_of(&oas, "/a");
    assert_eq!(op.summary, text("<request>"));
    assert_eq!(op.operation_id, text("request"));
}

#[test]
fn identifiers_from_different_names_can_meet() {
    let oas = oas_of(spec_of(vec![
        simple("foo", "GET", "a"),
        simple("foo", "GET", "b"),
        simple("foo1", "GET", "c"),
    ]));
    assert_eq!(get_of(&oas, "/b").operation_id, text("foo1"));
    assert_eq!(get_of(&oas, "/c").operation_id, text("foo1"));
}

#[test]
fn each_method_has_its_place() {
    let oas = oas_of(spec_of(vec![
        simple("a", "GET", "x"),
        simple("b", "Put", "x"),
        simple("c", "post", "x"),
        simple("d", "DELETE", "x"),
        simple("e", "OPTIONS", "x"),
        simple("f", "PATCH", "x"),
        simple("g", "TRACE", "x"),
    ]));
    let item = oas.paths.get("/x").unwrap();
    let ids: Vec<Option<String>> = vec![
        &item.get,
        &item.put,
        &item.post,
        &item.delete,
        &item.options,
        &item.patch,
        &item.trace,
    ]
    .into_iter()
    .map(|op| op.as_ref().unwrap().operation_id.clone())
    .collect();
    let expected: Vec<Option<String>> = vec!["a", "b", "c", "d", "e", "f", "g"]
        .into_iter()
        .map(text)
        .collect();
    assert_eq!(ids, expected);
}

#[test]
fn a_method_without_a_place_is_taken_for_get() {
    let oas = single(simple("Head", "HEAD", "x"));
    assert_eq!(get_of(&oas, "/x").operation_id, text("head"));
    let mut request = request_of("GET", url_of("x"));
    request.method = None;
    let oas = single(item_of("None", request));
    assert_eq!(get_of(&oas, "/x").operation_id, text("none"));
}

#[test]
fn the_second_request_joins_the_first() {
    let mut first = request_of("GET", url_of("x"));
    first.auth = auth_of(AuthType::Basic);
    let mut second = request_of("GET", url_of("x"));
    second.auth = auth_of(AuthType::Bearer);
    let mut third = request_of("GET", url_of("x"));
    third.auth = auth_of(AuthType::Basic);
    let oas = oas_of(spec_of(vec![
        item_of("First", first),
        item_of("Second", second),
        item_of("Third", third),
    ]));
    let op = get_of(&oas, "/x");
    assert_eq!(op.operation_id, text("first"));
    assert_eq!(op.summary, text("First"));
    let security = op.security.as_ref().unwrap();
    assert_eq!(security.len(), 2);
    assert!(security[0]
        .requirement
        .as_ref()
        .unwrap()
        .contains_key("basicAuth"));
    assert!(security[1]
        .requirement
        .as_ref()
        .unwrap()
        .contains_key("bearerAuth"));
}

#[test]
fn folders_require_for_what_is_in_them() {
    let mut inner = folder("Inner", vec![simple("b", "GET", "b")]);
    inner.auth = auth_of(AuthType::Digest);
    let mut unknown = folder("Unknown", vec![simple("c", "GET", "c")]);
    unknown.auth = auth_of(AuthType::Ntlm);
    let mut own = request_of("GET", url_of("d"));
    own.auth = auth_of(AuthType::Noauth);
    let mut outer = folder(
        "Outer",
        vec![
            simple("a", "GET", "a"),
            inner,
            unknown,
            item_of("d", own),
            simple("e", "GET", "e"),
        ],
    );
    outer.auth = auth_of(AuthType::Basic);
    let oas = oas_of(spec_of(vec![outer, simple("f", "GET", "f")]));
    let name = |path: &str| -> Option<String> {
        get_of(&oas, path).security.as_ref().map(|s| {
            s[0].requirement
                .as_ref()
                .map(|m| m.entries[0].0.clone())
                .unwrap_or("none".to_string())
        })
    };
    assert_eq!(name("/a"), text("basicAuth"));
    assert_eq!(name("/b"), text("digestAuth"));
    assert_eq!(name("/c"), text("basicAuth"));
    assert_eq!(name("/d"), text("none"));
    assert_eq!(name("/e"), text("basicAuth"));
    assert_eq!(name("/f"), None);
    assert_eq!(oas.security, Some(Vec::new()));
}

#[test]
fn the_collection_requires_for_all() {
    let mut spec = echo();
    spec.auth = auth_of(AuthType::Apikey);
    let oas = oas_of(spec);
    let security = oas.security.as_ref().unwrap();
    assert_eq!(security.len(), 1);
    assert_eq!(
        security[0].requirement.as_ref().unwrap().get("RapidAPIKey"),
        Some(&vec![])
    );
    let mut spec = spec_of(Vec::new());
    spec.auth = auth_of(AuthType::Noauth);
    let oas = oas_of(spec);
    assert_eq!(oas.security.as_ref().unwrap()[0].requirement, None);
    let mut spec = spec_of(Vec::new());
    spec.auth = auth_of(AuthType::Awsv4);
    let oas = oas_of(spec);
    assert_eq!(oas.security, Some(Vec::new()));
    assert_eq!(
        oas.components.unwrap().security_schemes.unwrap().entries.len(),
        0
    );
}

#[test]
fn places_of_a_path_are_parameters() {
    let mut url = url_of(":id/{{kind}}/{{base}}");
    url.variable = Some(vec![Variable {
        key: text("id"),
        value: Some(Json::String("{{base}}-7".to_string())),
        description: Some(DescriptionUnion::String("The id".to_string())),
    }]);
    let mut spec = spec_of(vec![item_of("x", request_of("GET", url))]);
    spec.variable = Some(vec![
        Variable {
            key: text("base"),
            value: Some(Json::String("b".to_string())),
            description: None,
        },
        Variable {
            key: text("kind"),
            value: Some(Json::String("".to_string())),
            description: None,
        },
    ]);
    let oas = oas_of(spec);
    let item = oas.paths.get("/{id}/{kind}/b").unwrap();
    let params = item.parameters.as_ref().unwrap();
    assert_eq!(
        params[0],
        ObjectOrReference::Object(Parameter {
            name: "id".to_string(),
            location: "path".to_string(),
            description: text("The id"),
            required: Some(true),
            schema: Some(Schema {
                schema_type: text("string"),
                example: Some(Json::String("b-7".to_string())),
                ..Schema::default()
            }),
        })
    );
    assert_eq!(
        params[1],
        ObjectOrReference::Object(Parameter {
            name: "kind".to_string(),
            location: "path".to_string(),
            description: None,
            required: Some(true),
            schema: Some(Schema {
                schema_type: text("string"),
                ..Schema::default()
            }),
        })
    );
    assert_eq!(params.len(), 2);
}

#[test]
fn every_operation_has_a_response_for_success() {
    let mut item = simple("x", "GET", "x");
    item.response = Some(vec![
        None,
        Some(ResponseClass {
            code: Some(404),
            name: text("Not found"),
            ..ResponseClass::default()
        }),
    ]);
    let oas = oas_of(spec_of(vec![item, simple("y", "GET", "y")]));
    let responses = &get_of(&oas, "/x").responses;
    assert_eq!(responses.entries.len(), 2);
    assert_eq!(responses.get("200").unwrap().description, text(""));
    assert_eq!(responses.get("404").unwrap().description, text("Not found"));
    assert_eq!(get_of(&oas, "/y").responses.entries.len(), 1);
}

#[test]
fn a_key_that_is_no_pattern_is_a_fault() {
    let spec = spec_of(vec![queried("x", "x", &[("a(", "1")])]);
    assert!(matches!(
        Transpiler::try_transpile(spec),
        Err(Fault::Pattern)
    ));
}

#[test]
fn a_segment_that_begins_outside_ascii_is_a_fault() {
    let spec = spec_of(vec![simple("x", "GET", "\u{e9}t\u{e9}")]);
    assert!(matches!(
        Transpiler::try_transpile(spec),
        Err(Fault::Segment)
    ));
    let spec = spec_of(vec![simple("x", "GET", "t\u{e9}")]);
    assert!(Transpiler::try_transpile(spec).is_ok());
}

#[test]
fn paths_are_those_of_the_requests() {
    let oas = oas_of(spec_of(vec![
        simple("a", "GET", "z"),
        folder(
            "f",
            vec![
                simple("b", "GET", "y"),
                folder("g", vec![simple("c", "POST", "z"), simple("d", "GET", "x")]),
                Items::default(),
                simple("e", "GET", "y"),
            ],
        ),
        simple("f", "GET", ":id"),
        simple("g", "GET", "x"),
        simple("h", "GET", "{{id}}"),
    ]));
    let paths: Vec<&str> = oas.paths.keys().map(|k| k.as_str()).collect();
    assert_eq!(paths, vec!["/z", "/y", "/x", "/{id}"]);
}

#[test]
fn a_collection_can_be_tested_first() {
    let spec = echo();
    assert!(Transpiler::can_transpile(&spec));
    let OpenApi::V3_0(oas) = Transpiler::transpile(spec);
    assert_eq!(oas.openapi, "3.0.3");
    let spec = spec_of(vec![queried("x", "x", &[("a(", "1")])]);
    assert!(!Transpiler::can_transpile(&spec));
    let spec = spec_of(vec![simple("x", "GET", "\u{e9}")]);
    assert!(!Transpiler::can_transpile(&spec));
}

#[test]
fn trying_gives_what_transpiling_gives() {
    let tried = Transpiler::try_transpile(echo()).unwrap();
    assert_eq!(tried, Transpiler::transpile(echo()));
}

#[test]
fn what_is_required_is_declared() {
    let mut spec = echo();
    spec.auth = auth_of(AuthType::Oauth2);
    let mut extra = folder("Keys", vec![simple("k", "GET", "k")]);
    extra.auth = auth_of(AuthType::Apikey);
    spec.item.push(extra);
    let oas = oas_of(spec);
    let schemes = oas.components.as_ref().unwrap();
    let schemes = schemes.security_schemes.as_ref().unwrap();
    let mut required = Vec::new();
    for list in oas.security.iter() {
        required.extend(list.iter());
    }
    for item in oas.paths.values() {
        if let Some(op) = &item.get {
            for list in op.security.iter() {
                required.extend(list.iter());
            }
        }
    }
    let mut names = Vec::new();
    for r in required {
        for map in r.requirement.iter() {
            for (name, _) in map.entries.iter() {
                assert!(schemes.contains_key(name));
                names.push(name.as_str());
            }
        }
    }
    assert_eq!(
        names,
        vec!["oauth2", "basicAuth", "digestAuth", "RapidAPIKey"]
    );
}

fn in_order<V>(map: &StrMap<V>) -> bool {
    map.entries.windows(2).all(|w| w[0].0 < w[1].0)
}

#[test]
fn maps_stand_in_order() {
    let saved = |code: i64, name: &str, body: &str| {
        Some(ResponseClass {
            code: Some(code),
            name: text(name),
            body: text(body),
            ..ResponseClass::default()
        })
    };
    let mut first = secured("x", "x", AuthType::Oauth2);
    first.response = Some(vec![
        saved(500, "z", "{\"b\": 1, \"a\": {\"d\": 1, \"c\": 2}}"),
        saved(404, "y", "{\"b\": 1}"),
        saved(500, "a", "{\"a\": 1, \"aa\": 2}"),
    ]);
    let second = secured("y", "y", AuthType::Basic);
    let oas = oas_of(spec_of(vec![first, second]));
    let schemes = oas.components.as_ref().unwrap();
    let schemes = schemes.security_schemes.as_ref().unwrap();
    assert!(in_order(schemes));
    assert_eq!(schemes.entries.len(), 2);
    let responses = &get_of(&oas, "/x").responses;
    assert!(in_order(responses));
    let codes: Vec<&str> = responses.entries.iter().map(|e| e.0.as_str()).collect();
    assert_eq!(codes, vec!["200", "404", "500"]);
    let content = responses.get("500").unwrap().content.as_ref().unwrap();
    let json = content.get("application/json").unwrap();
    match &json.examples {
        Some(MediaTypeExample::Examples { examples }) => {
            assert!(in_order(examples));
            assert_eq!(examples.entries.len(), 2);
        }
        _ => panic!("the examples are gone"),
    }
    match &json.schema {
        Some(ObjectOrReference::Object(schema)) => {
            let properties = schema.properties.as_ref().unwrap();
            assert!(in_order(properties));
            let names: Vec<&str> = properties.entries.iter().map(|e| e.0.as_str()).collect();
            assert_eq!(names, vec!["a", "aa", "b"]);
        }
        _ => panic!("the schema is gone"),
    }
}
