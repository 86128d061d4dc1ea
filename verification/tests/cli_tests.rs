use localai_cli::cli::{
    method_or_error, parse_method, parse_body_text, body_source, build_body, chat_body, parse_queries, request_query, route, split_query,
    transcription_form, transform_form, ApiCall, BodySource, HttpMethod,
};
use localai_cli::client::{
    interpret_response, invalid_json_context, read_json_body, LocalAIClient, ResponseBody,
};
use localai_cli::json::Json;

fn s(t: &str) -> Json {
    Json::String(t.to_string())
}

fn obj(members: Vec<(&str, Json)>) -> Json {
    Json::Object(members.into_iter().map(|(k, v)| (k.to_string(), v)).collect())
}

fn same(a: &Json, b: &Json) -> bool {
    format!("{:?}", a) == format!("{:?}", b)
}

#[test]
fn body_sources() {
    match body_source(Some("@request.json".to_string())) {
        BodySource::File(p) => assert_eq!(p, "request.json"),
        other => panic!("unexpected {:?}", other),
    }
    match body_source(Some("{\"a\":1}".to_string())) {
        BodySource::Inline(t) => assert_eq!(t, "{\"a\":1}"),
        other => panic!("unexpected {:?}", other),
    }
    match body_source(Some("@".to_string())) {
        BodySource::File(p) => assert_eq!(p, ""),
        other => panic!("unexpected {:?}", other),
    }
    assert!(matches!(body_source(None), BodySource::Stdin));
}

#[test]
fn overrides_fill_an_absent_body() {
    let body = build_body(None, vec![
        ("model".to_string(), Some("m".to_string())),
        ("prompt".to_string(), None),
    ]);
    assert!(same(&body.unwrap(), &obj(vec![("model", s("m"))])));
}

#[test]
fn no_body_without_fields() {
    assert!(build_body(None, vec![("model".to_string(), None)]).is_none());
    assert!(build_body(Some(obj(Vec::new())), Vec::new()).is_none());
}

#[test]
fn overrides_replace_in_place() {
    let body = obj(vec![("model", s("old")), ("temperature", Json::Number("0.5".to_string()))]);
    let out = build_body(Some(body), vec![
        ("model".to_string(), Some("new".to_string())),
        ("input".to_string(), Some("hi".to_string())),
    ])
    .unwrap();
    let expected = obj(vec![
        ("model", s("new")),
        ("temperature", Json::Number("0.5".to_string())),
        ("input", s("hi")),
    ]);
    assert!(same(&out, &expected));
}

#[test]
fn non_object_body_is_kept() {
    let out = build_body(Some(Json::Array(vec![s("x")])), vec![(
        "model".to_string(),
        Some("m".to_string()),
    )])
    .unwrap();
    assert!(same(&out, &Json::Array(vec![s("x")])));
}

#[test]
fn chat_adds_messages_and_stream() {
    let out = chat_body(None, Some("llama".to_string()), vec!["Hello".to_string(), "Bye".to_string()], true);
    let expected = obj(vec![
        ("model", s("llama")),
        (
            "messages",
            Json::Array(vec![
                obj(vec![("role", s("user")), ("content", s("Hello"))]),
                obj(vec![("role", s("user")), ("content", s("Bye"))]),
            ]),
        ),
        ("stream", Json::Bool(true)),
    ]);
    assert!(same(&out, &expected));
}

#[test]
fn chat_keeps_given_messages() {
    let body = obj(vec![("messages", Json::Array(Vec::new()))]);
    let out = chat_body(Some(body), None, vec!["ignored".to_string()], false);
    assert!(same(&out, &obj(vec![("messages", Json::Array(Vec::new()))])));
    let empty = chat_body(None, None, Vec::new(), false);
    assert!(same(&empty, &obj(Vec::new())));
}

#[test]
fn queries_split_at_the_first_equals() {
    let q = vec!["status=running".to_string(), "a=b=c".to_string(), "empty=".to_string()];
    let pairs = parse_queries(&q).unwrap();
    assert_eq!(
        pairs,
        vec![
            ("status".to_string(), "running".to_string()),
            ("a".to_string(), "b=c".to_string()),
            ("empty".to_string(), String::new()),
        ]
    );
    assert_eq!(split_query("=x"), Some((String::new(), "x".to_string())));
}

#[test]
fn query_without_equals_is_an_error() {
    let q = vec!["ok=1".to_string(), "broken".to_string(), "also".to_string()];
    assert_eq!(parse_queries(&q), Err("Query parameter must be key=value: broken".to_string()));
}

#[test]
fn raw_request_query() {
    assert_eq!(request_query(&Vec::new()), Ok(None));
    assert_eq!(
        request_query(&vec!["k=v".to_string()]),
        Ok(Some(vec![("k".to_string(), "v".to_string())]))
    );
}

#[test]
fn routes_of_calls() {
    let r = route(&ApiCall::ModelsDelete("phi".to_string()));
    assert_eq!(r.method, HttpMethod::Post);
    assert_eq!(r.path, "/models/delete/phi");
    let r = route(&ApiCall::BackendsJob("42".to_string()));
    assert_eq!(r.method, HttpMethod::Get);
    assert_eq!(r.path, "/backends/jobs/42");
    assert_eq!(route(&ApiCall::Chat).path, "/v1/chat/completions");
    assert_eq!(route(&ApiCall::AudioTransform).path, "/audio/transform");
    assert_eq!(route(&ApiCall::ModelsList).method, HttpMethod::Get);
}

#[test]
fn upload_forms() {
    let f = transcription_form("whisper".to_string(), Some("en".to_string()), None);
    assert_eq!(f.file_field, "file");
    assert_eq!(
        f.texts,
        vec![("model".to_string(), "whisper".to_string()), ("language".to_string(), "en".to_string())]
    );
    let g = transform_form("m".to_string(), Some("wav".to_string()));
    assert_eq!(g.file_field, "audio");
    assert_eq!(
        g.texts,
        vec![("model".to_string(), "m".to_string()), ("response_format".to_string(), "wav".to_string())]
    );
}

#[test]
fn client_trims_trailing_slashes() {
    let c = LocalAIClient::new("http://localhost:8080///".to_string(), None);
    assert_eq!(c.base_url, "http://localhost:8080");
    assert_eq!(c.url("/v1/models"), "http://localhost:8080/v1/models");
    assert_eq!(c.authorization(), None);
    let again = LocalAIClient::new(c.base_url.clone(), Some("k".to_string()));
    assert_eq!(again.base_url, "http://localhost:8080");
    assert_eq!(again.authorization(), Some("Bearer k".to_string()));
    assert_eq!(LocalAIClient::new("/".to_string(), None).base_url, "");
}

#[test]
fn responses_are_interpreted() {
    assert!(matches!(
        interpret_response(true, "200 OK", " \n\t".to_string()),
        Ok(ResponseBody::EmptyObject)
    ));
    match interpret_response(true, "200 OK", "{\"a\":1}".to_string()) {
        Ok(ResponseBody::Json(t)) => assert_eq!(t, "{\"a\":1}"),
        other => panic!("unexpected {:?}", other),
    }
    match interpret_response(false, "404 Not Found", "nope".to_string()) {
        Err(e) => assert_eq!(e, "HTTP 404 Not Found: nope"),
        other => panic!("unexpected {:?}", other),
    }
    assert_eq!(invalid_json_context("x"), "invalid JSON response: x");
}

fn method_error(method: &str) -> (String, Option<String>) {
    let r = parse_method(method).unwrap_err();
    (r.context, r.cause)
}

#[test]
fn raw_request_methods() {
    assert_eq!(parse_method("GET").unwrap(), "GET");
    assert_eq!(parse_method("PURGE").unwrap(), "PURGE");
    assert_eq!(parse_method("get").unwrap(), "get");
    let cause = Some("invalid HTTP method".to_string());
    assert_eq!(method_error("GÉT"), ("invalid HTTP method: GÉT".to_string(), cause.clone()));
    assert_eq!(method_error("NOT A METHOD"), ("invalid HTTP method: NOT A METHOD".to_string(), cause.clone()));
    assert_eq!(method_error(""), ("invalid HTTP method: ".to_string(), cause));
    let r = method_or_error("X", Err("bad".to_string())).unwrap_err();
    assert_eq!(r.message(), "invalid HTTP method: X: bad");
    assert_eq!(method_or_error("X", Ok("PUT".to_string())).unwrap(), "PUT");
}

#[test]
fn response_bodies_are_read_as_json() {
    let text = " {\"b\": \"x\", \"a\": [1, true, null]} ".to_string();
    match read_json_body(true, "200 OK", text) {
        Ok(Json::Object(ms)) => {
            assert_eq!(ms.len(), 2);
            let a = ms.iter().find(|m| m.0 == "a").expect("member a");
            match &a.1 {
                Json::Array(items) => {
                    assert_eq!(items.len(), 3);
                    assert!(matches!(&items[0], Json::Number(n) if n == "1"));
                    assert!(matches!(items[1], Json::Bool(true)));
                    assert!(matches!(items[2], Json::Null));
                }
                other => panic!("not an array: {other:?}"),
            }
            let b = ms.iter().find(|m| m.0 == "b").expect("member b");
            assert!(matches!(&b.1, Json::String(t) if t == "x"));
        }
        other => panic!("unexpected {other:?}"),
    }
}

#[test]
fn repeated_member_names_are_read_once() {
    match read_json_body(true, "200 OK", "{\"k\": 1, \"k\": 2}".to_string()) {
        Ok(Json::Object(ms)) => {
            assert_eq!(ms.len(), 1);
            assert!(matches!(&ms[0].1, Json::Number(n) if n == "2"));
        }
        other => panic!("unexpected {other:?}"),
    }
}

#[test]
fn blank_success_body_is_an_empty_object() {
    assert!(matches!(read_json_body(true, "204 No Content", " \n".to_string()), Ok(Json::Object(ms)) if ms.is_empty()));
}

fn serde_message(text: &str) -> String {
    serde_json::from_str::<serde_json::Value>(text).unwrap_err().to_string()
}

#[test]
fn invalid_json_response_is_an_error() {
    let r = read_json_body(true, "200 OK", "nope".to_string()).unwrap_err();
    assert_eq!(r.context, "invalid JSON response: nope");
    assert_eq!(r.cause, Some(serde_message("nope")));
    assert_eq!(r.message(), format!("invalid JSON response: nope: {}", serde_message("nope")));
}

#[test]
fn failed_status_gives_the_http_error() {
    let r = read_json_body(false, "404 Not Found", "{\"error\": 1}".to_string()).unwrap_err();
    assert_eq!(r.context, "HTTP 404 Not Found: {\"error\": 1}");
    assert_eq!(r.cause, None);
    assert_eq!(r.message(), "HTTP 404 Not Found: {\"error\": 1}");
}

#[test]
fn body_text_is_parsed() {
    assert!(matches!(parse_body_text(" \t\n"), Ok(None)));
    assert!(matches!(parse_body_text("[1, 2]"), Ok(Some(Json::Array(v))) if v.len() == 2));
    let r = parse_body_text("{\"model\": ").unwrap_err();
    assert_eq!(r.context, "parsing JSON body");
    assert_eq!(r.cause, Some(serde_message("{\"model\": ")));
}
