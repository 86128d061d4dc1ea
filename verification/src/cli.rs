//! What the command-line subcommands send: the route of each call, request
//! bodies built from a JSON body and convenience flags, query parameters and
//! multipart uploads. Reading files and standard input and sending the
//! requests are the caller's part.

use vstd::prelude::*;
use crate::json::{
    Json, members_view, find_key, find_member, insert_key, insert_member, lemma_find_member, parse_json,
    parsed_json,
};
use crate::report::ErrorReport;
use crate::text::{chars_of, concat, is_blank, is_blank_str, owned, string_of};

verus! {

broadcast use vstd::string::group_string_axioms;

// ---------------------------------------------------------------------------
// Request bodies
// ---------------------------------------------------------------------------

/// Where the text of a request body comes from: a file (`@path`), the
/// argument itself, or standard input when there is no argument.
#[derive(Debug)]
pub enum BodySource {
    File(String),
    Inline(String),
    Stdin,
}

/// The source of a `--body` argument.
pub fn body_source(input: Option<String>) -> (res: BodySource)
    ensures
        match input {
            Some(s) => if s@.len() > 0 && s@[0] == '@' {
                res matches BodySource::File(p) && p@ == s@.drop_first()
            } else {
                res matches BodySource::Inline(t) && t == s
            },
            None => res matches BodySource::Stdin,
        },
{
    match input {
        Some(s) => {
            let cs = chars_of(s.as_str());
            if cs.len() > 0 && cs[0] == '@' {
                let mut rest: Vec<char> = Vec::new();
                for i in 1..cs.len()
                    invariant
                        cs@ == s@,
                        1 <= cs@.len(),
                        rest@ == cs@.subrange(1, i as int),
                {
                    rest.push(cs[i]);
                    assert(cs@.subrange(1, i + 1) =~= cs@.subrange(1, i as int).push(cs@[i as int]));
                }
                assert(cs@.subrange(1, cs.len() as int) =~= s@.drop_first());
                BodySource::File(string_of(&rest))
            } else {
                BodySource::Inline(s)
            }
        },
        None => BodySource::Stdin,
    }
}

/// The error text of a request body that is not JSON.
pub open spec fn invalid_body_text() -> Seq<char> {
    "parsing JSON body"@
}

/// The request body written in `text`: none when the text is blank, else
/// its JSON value, or the error `parsing JSON body` caused by the parser's
/// error when it is not JSON.
pub fn parse_body_text(text: &str) -> (res: Result<Option<Json>, ErrorReport>)
    ensures
        is_blank(text@) ==> res == Ok::<Option<Json>, ErrorReport>(None),
        !is_blank(text@) ==> match parsed_json(text@) {
            Ok(j) => res == Ok::<Option<Json>, ErrorReport>(Some(j)),
            Err(cause) => res matches Err(r) && r.is_caused(invalid_body_text(), cause),
        },
{
    if is_blank_str(text) {
        Ok(None)
    } else {
        match parse_json(text) {
            Ok(j) => Ok(Some(j)),
            Err(cause) => Err(ErrorReport { context: owned("parsing JSON body"), cause: Some(cause) }),
        }
    }
}

/// The members of an object after each present override is inserted, in order.
pub open spec fn overridden(
    members: Seq<(Seq<char>, Json)>,
    overrides: Seq<(Seq<char>, Option<String>)>,
) -> Seq<(Seq<char>, Json)>
    decreases overrides.len(),
{
    if overrides.len() == 0 {
        members
    } else {
        let m = overridden(members, overrides.drop_last());
        match overrides.last().1 {
            Some(v) => insert_member(m, overrides.last().0, Json::String(v)),
            None => m,
        }
    }
}

/// The names of the overrides, with their values.
pub open spec fn overrides_view(overrides: Seq<(String, Option<String>)>) -> Seq<(Seq<char>, Option<String>)> {
    overrides.map_values(|o: (String, Option<String>)| (o.0@, o.1))
}

/// Whether a body is an empty object.
pub open spec fn is_empty_object(v: Json) -> bool {
    v matches Json::Object(o) && o@.len() == 0
}

/// The body sent: a JSON body with the convenience flags set as string
/// members (an absent body counts as an empty object); no body at all when
/// that leaves an empty object.
pub fn build_body(value: Option<Json>, overrides: Vec<(String, Option<String>)>) -> (res: Option<Json>)
    ensures
        ({
            let members = match value {
                Some(Json::Object(o)) => Some(overridden(members_view(o@), overrides_view(overrides@))),
                Some(_) => None,
                None => Some(overridden(seq![], overrides_view(overrides@))),
            };
            match members {
                Some(m) => if m.len() == 0 {
                    res is None
                } else {
                    res matches Some(Json::Object(r)) && members_view(r@) == m
                },
                None => res == value,
            }
        }),
{
    let members = match value {
        Some(Json::Object(o)) => o,
        Some(v) => {
            return Some(v);
        },
        None => Vec::new(),
    };
    let ghost base = members_view(members@);
    proof {
        if value is None {
            assert(base =~= Seq::<(Seq<char>, Json)>::empty());
        }
    }
    let ghost ov = overrides_view(overrides@);
    let mut members = members;
    for i in 0..overrides.len()
        invariant
            ov == overrides_view(overrides@),
            members_view(members@) == overridden(base, ov.take(i as int)),
    {
        assert(ov.take(i + 1).drop_last() =~= ov.take(i as int));
        assert(ov.take(i + 1).last() == ov[i as int]);
        match &overrides[i].1 {
            Some(v) => {
                insert_key(&mut members, overrides[i].0.clone(), Json::String(v.clone()));
            },
            None => {},
        }
    }
    assert(ov.take(overrides.len() as int) =~= ov);
    if members.len() == 0 {
        None
    } else {
        Some(Json::Object(members))
    }
}


/// `v` is a string holding `text`.
pub open spec fn is_text(v: Json, text: Seq<char>) -> bool {
    match v {
        Json::String(s) => s@ == text,
        _ => false,
    }
}

/// `m` is the chat message `{"role": "user", "content": text}`.
pub open spec fn is_user_message(m: Json, text: Seq<char>) -> bool {
    match m {
        Json::Object(o) => {
            &&& o@.len() == 2
            &&& o@[0].0@ == "role"@
            &&& is_text(o@[0].1, "user"@)
            &&& o@[1].0@ == "content"@
            &&& is_text(o@[1].1, text)
        },
        _ => false,
    }
}

/// `list` holds one user message per entry of `messages`, in order.
pub open spec fn is_message_list(list: Seq<Json>, messages: Seq<String>) -> bool {
    &&& list.len() == messages.len()
    &&& forall|i: int| 0 <= i < list.len() ==> is_user_message(#[trigger] list[i], messages[i]@)
}

/// The members after `"stream": true` is set when streaming is asked for.
pub open spec fn with_stream(members: Seq<(Seq<char>, Json)>, stream: bool) -> Seq<(Seq<char>, Json)> {
    if stream {
        insert_member(members, "stream"@, Json::Bool(true))
    } else {
        members
    }
}

/// The chat request body: the body with `model` set (see [`build_body`]), or
/// an empty object; then, if it is an object, a `messages` array holding one
/// user message per `--message` (unless there are none or the body already
/// has `messages`), and `"stream": true` when streaming is asked for. A body
/// that is not an object is sent as it is.
pub fn chat_body(body: Option<Json>, model: Option<String>, messages: Vec<String>, stream: bool) -> (res:
    Json)
    ensures
        match body {
            Some(Json::Object(_)) | None => {
                let m = match body {
                    Some(Json::Object(o)) => overridden(members_view(o@), seq![("model"@, model)]),
                    _ => overridden(seq![], seq![("model"@, model)]),
                };
                match res {
                    Json::Object(r) => if messages@.len() > 0 && find_member(m, "messages"@) is None {
                        exists|list: Vec<Json>|
                            is_message_list(list@, messages@) && members_view(r@) == with_stream(
                                insert_member(m, "messages"@, Json::Array(list)),
                                stream,
                            )
                    } else {
                        members_view(r@) == with_stream(m, stream)
                    },
                    _ => false,
                }
            },
            Some(v) => res == v,
        },
{
    let mut overrides: Vec<(String, Option<String>)> = Vec::new();
    let ghost body0 = body;
    overrides.push((owned("model"), model));
    assert(overrides_view(overrides@) =~= seq![("model"@, model)]);
    let ghost m = match body0 {
        Some(Json::Object(o)) => overridden(members_view(o@), seq![("model"@, model)]),
        _ => overridden(seq![], seq![("model"@, model)]),
    };
    let base = match build_body(body, overrides) {
        Some(v) => v,
        None => Json::Object(Vec::new()),
    };
    let mut members = match base {
        Json::Object(o) => o,
        other => {
            return other;
        },
    };
    proof {
        if members_view(members@).len() == 0 {
            assert(members_view(members@) =~= m);
        }
        assert(members_view(members@) =~= m);
    }
    if messages.len() > 0 {
        proof {
            lemma_find_member(members_view(members@), "messages"@);
        }
        if find_key(&members, "messages").is_none() {
            let mut list: Vec<Json> = Vec::new();
            for i in 0..messages.len()
                invariant
                    list@.len() == i,
                    forall|k: int| 0 <= k < i ==> is_user_message(#[trigger] list@[k], messages@[k]@),
            {
                let mut m: Vec<(String, Json)> = Vec::new();
                m.push((owned("role"), Json::String(owned("user"))));
                m.push((owned("content"), Json::String(messages[i].clone())));
                list.push(Json::Object(m));
            }
            let ghost l = list;
            insert_key(&mut members, owned("messages"), Json::Array(list));
            assert(is_message_list(l@, messages@));
            if stream {
                insert_key(&mut members, owned("stream"), Json::Bool(true));
            }
            return Json::Object(members);
        }
    }
    if stream {
        insert_key(&mut members, owned("stream"), Json::Bool(true));
    }
    Json::Object(members)
}


// ---------------------------------------------------------------------------
// Query parameters
// ---------------------------------------------------------------------------

/// The first position at or after `j` where `s` holds `c`.
pub open spec fn first_index_from(s: Seq<char>, c: char, j: int) -> Option<int>
    decreases s.len() - j,
{
    if j < 0 || j >= s.len() {
        None
    } else if s[j] == c {
        Some(j)
    } else {
        first_index_from(s, c, j + 1)
    }
}

/// `s` split at its first `=`: the text before and the text after it.
pub open spec fn split_at_equals(s: Seq<char>) -> Option<(Seq<char>, Seq<char>)> {
    match first_index_from(s, '=', 0) {
        Some(i) => Some((s.take(i), s.skip(i + 1))),
        None => None,
    }
}

/// The error text for a query parameter without `=`.
pub open spec fn query_error_text(q: Seq<char>) -> Seq<char> {
    "Query parameter must be key=value: "@ + q
}

/// `q` split at its first `=` (as `str::split_once('=')`).
pub fn split_query(q: &str) -> (res: Option<(String, String)>)
    ensures
        match res {
            Some(p) => split_at_equals(q@) == Some((p.0@, p.1@)),
            None => split_at_equals(q@) is None,
        },
{
    let cs = chars_of(q);
    let mut i: usize = 0;
    while i < cs.len()
        invariant
            cs@ == q@,
            i <= cs.len(),
            first_index_from(q@, '=', 0) == first_index_from(q@, '=', i as int),
        decreases cs.len() - i,
    {
        if cs[i] == '=' {
            let mut key: Vec<char> = Vec::new();
            for k in 0..i
                invariant
                    cs@ == q@,
                    i < cs.len(),
                    key@ == cs@.take(k as int),
            {
                key.push(cs[k]);
                assert(cs@.take(k + 1) =~= cs@.take(k as int).push(cs@[k as int]));
            }
            let mut value: Vec<char> = Vec::new();
            for k in i + 1..cs.len()
                invariant
                    cs@ == q@,
                    i < cs.len(),
                    i + 1 <= k <= cs.len(),
                    value@ == cs@.subrange(i + 1, k as int),
            {
                value.push(cs[k]);
                assert(cs@.subrange(i + 1, k + 1) =~= cs@.subrange(i + 1, k as int).push(
                    cs@[k as int],
                ));
            }
            assert(cs@.subrange(i + 1, cs.len() as int) =~= cs@.skip(i + 1));
            return Some((string_of(&key), string_of(&value)));
        }
        i = i + 1;
    }
    None
}

/// The `key=value` query parameters as pairs, or the error for the first one
/// without `=`.
pub fn parse_queries(queries: &Vec<String>) -> (res: Result<Vec<(String, String)>, String>)
    ensures
        match res {
            Ok(pairs) => {
                &&& pairs@.len() == queries@.len()
                &&& forall|i: int|
                    0 <= i < pairs@.len() ==> split_at_equals(#[trigger] queries@[i]@) == Some(
                        (pairs@[i].0@, pairs@[i].1@),
                    )
            },
            Err(e) => exists|i: int|
                {
                    &&& 0 <= i < queries@.len()
                    &&& split_at_equals(#[trigger] queries@[i]@) is None
                    &&& forall|j: int| 0 <= j < i ==> split_at_equals(#[trigger] queries@[j]@) is Some
                    &&& e@ == query_error_text(queries@[i]@)
                },
        },
{
    let mut result: Vec<(String, String)> = Vec::new();
    for i in 0..queries.len()
        invariant
            result@.len() == i,
            forall|k: int|
                0 <= k < i ==> split_at_equals(#[trigger] queries@[k]@) == Some(
                    (result@[k].0@, result@[k].1@),
                ),
    {
        match split_query(queries[i].as_str()) {
            Some(pair) => {
                result.push(pair);
            },
            None => {
                let e = concat("Query parameter must be key=value: ", queries[i].as_str());
                assert(forall|j: int| 0 <= j < i ==> split_at_equals(#[trigger] queries@[j]@) is Some);
                return Err(e);
            },
        }
    }
    Ok(result)
}

/// The query of a raw request: none without parameters, else the parsed pairs.
pub fn request_query(queries: &Vec<String>) -> (res: Result<Option<Vec<(String, String)>>, String>)
    ensures
        queries@.len() == 0 ==> res matches Ok(None),
        queries@.len() > 0 ==> match res {
            Ok(Some(pairs)) => {
                &&& pairs@.len() == queries@.len()
                &&& forall|i: int|
                    0 <= i < pairs@.len() ==> split_at_equals(#[trigger] queries@[i]@) == Some(
                        (pairs@[i].0@, pairs@[i].1@),
                    )
            },
            Ok(None) => false,
            Err(e) => exists|i: int|
                {
                    &&& 0 <= i < queries@.len()
                    &&& split_at_equals(#[trigger] queries@[i]@) is None
                    &&& forall|j: int| 0 <= j < i ==> split_at_equals(#[trigger] queries@[j]@) is Some
                    &&& e@ == query_error_text(queries@[i]@)
                },
        },
{
    if queries.len() == 0 {
        Ok(None)
    } else {
        match parse_queries(queries) {
            Ok(pairs) => Ok(Some(pairs)),
            Err(e) => Err(e),
        }
    }
}

// ---------------------------------------------------------------------------
// Routes
// ---------------------------------------------------------------------------

/// The HTTP method of a call.
#[derive(Clone, Copy, PartialEq, Eq, Structural, Debug)]
pub enum HttpMethod {
    Get,
    Post,
}

/// The API calls the subcommands make.
#[derive(Debug)]
pub enum ApiCall {
    ModelsList,
    ModelsAvailable,
    ModelsApply,
    ModelsDelete(String),
    ModelsGalleries,
    ModelsJobs,
    ModelsJob(String),
    Chat,
    Completions,
    Embeddings,
    ImagesGenerate,
    ImagesInpaint,
    AudioTranscribe,
    AudioSpeech,
    AudioTransform,
    BackendsList,
    BackendsAvailable,
    BackendsJobs,
    BackendsJob(String),
    BackendsGalleries,
    BackendsKnown,
}

/// Method and path of a call.
#[derive(Debug)]
pub struct Route {
    pub method: HttpMethod,
    pub path: String,
}

/// The method and path of each call.
pub open spec fn route_of(call: ApiCall) -> (HttpMethod, Seq<char>) {
    match call {
        ApiCall::ModelsList => (HttpMethod::Get, "/v1/models"@),
        ApiCall::ModelsAvailable => (HttpMethod::Get, "/models/available"@),
        ApiCall::ModelsApply => (HttpMethod::Post, "/models/apply"@),
        ApiCall::ModelsDelete(name) => (HttpMethod::Post, "/models/delete/"@ + name@),
        ApiCall::ModelsGalleries => (HttpMethod::Get, "/models/galleries"@),
        ApiCall::ModelsJobs => (HttpMethod::Get, "/models/jobs"@),
        ApiCall::ModelsJob(uuid) => (HttpMethod::Get, "/models/jobs/"@ + uuid@),
        ApiCall::Chat => (HttpMethod::Post, "/v1/chat/completions"@),
        ApiCall::Completions => (HttpMethod::Post, "/v1/completions"@),
        ApiCall::Embeddings => (HttpMethod::Post, "/v1/embeddings"@),
        ApiCall::ImagesGenerate => (HttpMethod::Post, "/v1/images/generations"@),
        ApiCall::ImagesInpaint => (HttpMethod::Post, "/v1/images/inpainting"@),
        ApiCall::AudioTranscribe => (HttpMethod::Post, "/v1/audio/transcriptions"@),
        ApiCall::AudioSpeech => (HttpMethod::Post, "/v1/audio/speech"@),
        ApiCall::AudioTransform => (HttpMethod::Post, "/audio/transform"@),
        ApiCall::BackendsList => (HttpMethod::Get, "/backends"@),
        ApiCall::BackendsAvailable => (HttpMethod::Get, "/backends/available"@),
        ApiCall::BackendsJobs => (HttpMethod::Get, "/backends/jobs"@),
        ApiCall::BackendsJob(uuid) => (HttpMethod::Get, "/backends/jobs/"@ + uuid@),
        ApiCall::BackendsGalleries => (HttpMethod::Get, "/backends/galleries"@),
        ApiCall::BackendsKnown => (HttpMethod::Get, "/backends/known"@),
    }
}

/// The method and path a call is sent to.
pub fn route(call: &ApiCall) -> (res: Route)
    ensures
        (res.method, res.path@) == route_of(*call),
{
    let (method, path) = match call {
        ApiCall::ModelsList => (HttpMethod::Get, owned("/v1/models")),
        ApiCall::ModelsAvailable => (HttpMethod::Get, owned("/models/available")),
        ApiCall::ModelsApply => (HttpMethod::Post, owned("/models/apply")),
        ApiCall::ModelsDelete(name) => (HttpMethod::Post, concat("/models/delete/", name.as_str())),
        ApiCall::ModelsGalleries => (HttpMethod::Get, owned("/models/galleries")),
        ApiCall::ModelsJobs => (HttpMethod::Get, owned("/models/jobs")),
        ApiCall::ModelsJob(uuid) => (HttpMethod::Get, concat("/models/jobs/", uuid.as_str())),
        ApiCall::Chat => (HttpMethod::Post, owned("/v1/chat/completions")),
        ApiCall::Completions => (HttpMethod::Post, owned("/v1/completions")),
        ApiCall::Embeddings => (HttpMethod::Post, owned("/v1/embeddings")),
        ApiCall::ImagesGenerate => (HttpMethod::Post, owned("/v1/images/generations")),
        ApiCall::ImagesInpaint => (HttpMethod::Post, owned("/v1/images/inpainting")),
        ApiCall::AudioTranscribe => (HttpMethod::Post, owned("/v1/audio/transcriptions")),
        ApiCall::AudioSpeech => (HttpMethod::Post, owned("/v1/audio/speech")),
        ApiCall::AudioTransform => (HttpMethod::Post, owned("/audio/transform")),
        ApiCall::BackendsList => (HttpMethod::Get, owned("/backends")),
        ApiCall::BackendsAvailable => (HttpMethod::Get, owned("/backends/available")),
        ApiCall::BackendsJobs => (HttpMethod::Get, owned("/backends/jobs")),
        ApiCall::BackendsJob(uuid) => (HttpMethod::Get, concat("/backends/jobs/", uuid.as_str())),
        ApiCall::BackendsGalleries => (HttpMethod::Get, owned("/backends/galleries")),
        ApiCall::BackendsKnown => (HttpMethod::Get, owned("/backends/known")),
    };
    Route { method, path }
}

// ---------------------------------------------------------------------------
// Multipart uploads
// ---------------------------------------------------------------------------

/// A multipart upload: the form field that carries the file, and the text
/// fields, in order.
#[derive(Debug)]
pub struct UploadForm {
    pub file_field: String,
    pub texts: Vec<(String, String)>,
}

/// The characters of (name, value) pairs.
pub open spec fn fields_view(v: Seq<(String, String)>) -> Seq<(Seq<char>, Seq<char>)> {
    v.map_values(|p: (String, String)| (p.0@, p.1@))
}

/// The field `name` with `value`, when there is a value.
pub open spec fn optional_field(name: Seq<char>, value: Option<String>) -> Seq<(Seq<char>, Seq<char>)> {
    match value {
        Some(v) => seq![(name, v@)],
        None => seq![],
    }
}

/// The form of `audio transcribe`: the file as `file`, then `model`, and
/// `language` and `response_format` when given.
pub fn transcription_form(model: String, language: Option<String>, response_format: Option<String>) -> (res:
    UploadForm)
    ensures
        res.file_field@ == "file"@,
        fields_view(res.texts@) == seq![("model"@, model@)] + optional_field("language"@, language)
            + optional_field("response_format"@, response_format),
{
    let ghost mv = model@;
    let ghost lv = language;
    let ghost fv = response_format;
    let mut texts: Vec<(String, String)> = Vec::new();
    texts.push((owned("model"), model));
    if let Some(lang) = language {
        texts.push((owned("language"), lang));
    }
    if let Some(fmt) = response_format {
        texts.push((owned("response_format"), fmt));
    }
    assert(fields_view(texts@) =~= seq![("model"@, mv)] + optional_field("language"@, lv)
        + optional_field("response_format"@, fv));
    UploadForm { file_field: owned("file"), texts }
}

/// The form of `audio transform`: the file as `audio`, then `model`, and
/// `response_format` when given.
pub fn transform_form(model: String, response_format: Option<String>) -> (res: UploadForm)
    ensures
        res.file_field@ == "audio"@,
        fields_view(res.texts@) == seq![("model"@, model@)] + optional_field(
            "response_format"@,
            response_format,
        ),
{
    let ghost mv = model@;
    let ghost fv = response_format;
    let mut texts: Vec<(String, String)> = Vec::new();
    texts.push((owned("model"), model));
    if let Some(fmt) = response_format {
        texts.push((owned("response_format"), fmt));
    }
    assert(fields_view(texts@) =~= seq![("model"@, mv)] + optional_field("response_format"@, fv));
    UploadForm { file_field: owned("audio"), texts }
}


// ---------------------------------------------------------------------------
// Methods of raw requests
// ---------------------------------------------------------------------------

/// Whether `b` may stand in an HTTP method name (a token character: a
/// letter, a digit, or one of ``!#$%&'*+-.^_`|~``).
pub open spec fn is_token_byte(b: u8) -> bool {
    ||| 0x30 <= b <= 0x39
    ||| 0x41 <= b <= 0x5A
    ||| 0x61 <= b <= 0x7A
    ||| b == 0x21 || b == 0x23 || b == 0x24 || b == 0x25 || b == 0x26 || b == 0x27
    ||| b == 0x2A || b == 0x2B || b == 0x2D || b == 0x2E
    ||| b == 0x5E || b == 0x5F || b == 0x60 || b == 0x7C || b == 0x7E
}

/// Whether `bytes` name an HTTP method: one token character or more.
pub open spec fn is_method_token(bytes: Seq<u8>) -> bool {
    bytes.len() > 0 && forall|i: int| 0 <= i < bytes.len() ==> is_token_byte(#[trigger] bytes[i])
}

/// The message of the method parser's error (`InvalidMethod`'s `Display`).
pub open spec fn invalid_method_cause() -> Seq<char> {
    "invalid HTTP method"@
}

/// `reqwest::Method::from_bytes`, then `Method::as_str`: the name of the
/// method that `bytes` form, or the message of the parser's error when they
/// do not form one. The parser accepts exactly the non-empty strings of token
/// characters, a method's name is the bytes it was read from, and the error's
/// message is always `invalid HTTP method`.
#[verifier::external_body]
fn method_name_from_bytes(bytes: &[u8]) -> (res: Result<String, String>)
    ensures
        res is Ok <==> is_method_token(bytes@),
        res matches Ok(name) ==> vstd::utf8::encode_utf8(name@) == bytes@,
        res matches Err(e) ==> e@ == invalid_method_cause(),
{
    match reqwest::Method::from_bytes(bytes) {
        Ok(m) => Ok(m.as_str().to_string()),
        Err(e) => Err(e.to_string()),
    }
}

/// The error context for a method name that is not a method.
pub open spec fn invalid_method_text(method: Seq<char>) -> Seq<char> {
    "invalid HTTP method: "@ + method
}

/// The outcome of reading the method name `method`, given what the method
/// parser gave back: the name, or the error naming the input, caused by the
/// parser's error.
pub fn method_or_error(method: &str, parsed: Result<String, String>) -> (res: Result<
    String,
    ErrorReport,
>)
    ensures
        match parsed {
            Ok(m) => res matches Ok(n) && n@ == m@,
            Err(cause) => res matches Err(r) && r.is_caused(invalid_method_text(method@), cause@),
        },
{
    match parsed {
        Ok(m) => Ok(m),
        Err(cause) => Err(ErrorReport { context: concat("invalid HTTP method: ", method), cause: Some(cause) }),
    }
}

/// The HTTP method of a raw request, checked by name: the name itself when
/// its bytes form a method, else the error naming it.
pub fn parse_method(method: &str) -> (res: Result<String, ErrorReport>)
    ensures
        res is Ok <==> is_method_token(vstd::utf8::encode_utf8(method@)),
        res matches Ok(n) ==> n@ == method@,
        res matches Err(r) ==> r.is_caused(invalid_method_text(method@), invalid_method_cause()),
{
    let parsed = method_name_from_bytes(method.as_bytes());
    proof {
        if parsed is Ok {
            vstd::utf8::encode_utf8_decode_utf8(parsed->Ok_0@);
            vstd::utf8::encode_utf8_decode_utf8(method@);
        }
    }
    method_or_error(method, parsed)
}

} // verus!
