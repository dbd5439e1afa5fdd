//! Model discovery requests: the headers that authenticate a provider's
//! model list request, and the errors of its answer.

use vstd::prelude::*;
use crate::api::types::ApiError;
use crate::fs::path_security::{ascii_lower, ascii_lower_exec};
use crate::json::{
    insert_member, json_get, lemma_array_view, lemma_object_view, members_view, object_insert,
    Json, JsonValue,
};
use crate::text::{
    append_chars, chars_eq, chars_of, decimal, decimal_exec, find_sub, find_sub_exec, has_prefix,
    lowercase, starts_with,
    string_of, sub_vec, to_lowercase, trim, trim_exec,
};

verus! {

broadcast use vstd::string::group_string_axioms;

/// The string members of a provider's `headers` object, in order.
pub open spec fn string_members(es: Seq<(Seq<char>, Json)>) -> Seq<(Seq<char>, Seq<char>)>
    decreases es.len(),
{
    if es.len() == 0 {
        seq![]
    } else {
        let prev = string_members(es.drop_last());
        match es.last().1 {
            Json::Str(v) => prev.push((es.last().0, v)),
            _ => prev,
        }
    }
}

/// A header of this name is present (names compared ignoring ASCII case).
pub open spec fn has_header(hs: Seq<(Seq<char>, Seq<char>)>, name: Seq<char>) -> bool {
    exists|i: int| 0 <= i < hs.len() && ascii_lower(#[trigger] hs[i].0) == ascii_lower(name)
}

/// The header added unless one of its name is present.
pub open spec fn add_missing(hs: Seq<(Seq<char>, Seq<char>)>, name: Seq<char>, value: Seq<char>) -> Seq<
    (Seq<char>, Seq<char>),
> {
    if has_header(hs, name) {
        hs
    } else {
        hs.push((name, value))
    }
}

/// The headers of a model list request: `accept: application/json`, the
/// provider's own string headers, then, when an API key is given (trimmed,
/// not empty), the key in the header of the provider's API family unless
/// the provider set that header: `x-api-key` and `anthropic-version` for
/// Anthropic, `x-goog-api-key` for Google, `authorization: Bearer` else.
pub open spec fn discovery_headers_spec(api: Seq<char>, api_key: Option<Seq<char>>, configured: Json) -> Seq<
    (Seq<char>, Seq<char>),
> {
    let own = match configured {
        Json::Object(es) => string_members(es),
        _ => seq![],
    };
    let base = seq![("accept"@, "application/json"@)] + own;
    match api_key {
        Some(k) if trim(k).len() > 0 => {
            let key = trim(k);
            if api == "anthropic-messages"@ {
                add_missing(
                    add_missing(base, "x-api-key"@, key),
                    "anthropic-version"@,
                    "2023-06-01"@,
                )
            } else if api == "google-generative-ai"@ {
                add_missing(base, "x-goog-api-key"@, key)
            } else {
                add_missing(base, "authorization"@, "Bearer "@ + key)
            }
        },
        _ => base,
    }
}

pub open spec fn headers_view(v: Seq<(String, String)>) -> Seq<(Seq<char>, Seq<char>)> {
    v.map_values(|h: (String, String)| (h.0@, h.1@))
}

fn owned(s: &str) -> (r: String)
    ensures
        r@ == s@,
{
    string_of(chars_of(s).as_slice())
}

fn has_header_exec(hs: &Vec<(String, String)>, name: &str) -> (b: bool)
    ensures
        b == has_header(headers_view(hs@), name@),
{
    let target = ascii_lower_exec(&chars_of(name));
    let ghost hv = headers_view(hs@);
    let mut i: usize = 0;
    while i < hs.len()
        invariant
            i <= hs.len(),
            hv == headers_view(hs@),
            target@ == ascii_lower(name@),
            forall|j: int| 0 <= j < i ==> ascii_lower(#[trigger] hv[j].0) != ascii_lower(name@),
        decreases hs.len() - i,
    {
        assert(hv[i as int] == (hs@[i as int].0@, hs@[i as int].1@));
        if chars_eq(&ascii_lower_exec(&chars_of(hs[i].0.as_str())), &target) {
            assert(ascii_lower(hv[i as int].0) == ascii_lower(name@));
            return true;
        }
        i += 1;
    }
    false
}

fn add_missing_exec(hs: &mut Vec<(String, String)>, name: &str, value: String)
    ensures
        headers_view(final(hs)@) == add_missing(headers_view(old(hs)@), name@, value@),
{
    if !has_header_exec(hs, name) {
        let ghost before = headers_view(hs@);
        hs.push((owned(name), value));
        assert(headers_view(hs@) =~= before.push((name@, value@)));
    }
}

/// The headers of a provider's model list request.
pub fn discovery_headers(api: &str, api_key: Option<&str>, configured: &JsonValue) -> (r: Vec<
    (String, String),
>)
    ensures
        headers_view(r@) == discovery_headers_spec(
            api@,
            match api_key {
                Some(k) => Some(k@),
                None => None,
            },
            configured@,
        ),
{
    let mut headers: Vec<(String, String)> = Vec::new();
    headers.push((owned("accept"), owned("application/json")));
    let ghost own = match configured@ {
        Json::Object(es) => string_members(es),
        _ => seq![],
    };
    match configured {
        JsonValue::Object(es) => {
            proof {
                lemma_object_view(*es);
            }
            let ghost mv = members_view(es@);
            assert(mv.take(0) =~= Seq::<(Seq<char>, Json)>::empty());
            for i in 0..es.len()
                invariant
                    mv == members_view(es@),
                    headers_view(headers@) == seq![("accept"@, "application/json"@)]
                        + string_members(mv.take(i as int)),
            {
                let ghost before = headers_view(headers@);
                assert(mv.take(i + 1).drop_last() =~= mv.take(i as int));
                assert(mv.take(i + 1).last() == mv[i as int]);
                assert(mv[i as int] == (es@[i as int].0@, es@[i as int].1@));
                match &es[i].1 {
                    JsonValue::Str(v) => {
                        headers.push((owned(es[i].0.as_str()), owned(v.as_str())));
                        assert(headers_view(headers@) =~= before.push((es@[i as int].0@, v@)));
                    },
                    _ => {},
                }
            }
            assert(mv.take(es.len() as int) =~= mv);
        },
        _ => {
            assert(headers_view(headers@) =~= seq![("accept"@, "application/json"@)] + own);
        },
    }
    match api_key {
        Some(k) => {
            let key = trim_exec(&chars_of(k));
            if key.len() > 0 {
                let a = chars_of(api);
                if chars_eq(&a, &chars_of("anthropic-messages")) {
                    add_missing_exec(&mut headers, "x-api-key", string_of(key.as_slice()));
                    add_missing_exec(&mut headers, "anthropic-version", owned("2023-06-01"));
                } else if chars_eq(&a, &chars_of("google-generative-ai")) {
                    add_missing_exec(&mut headers, "x-goog-api-key", string_of(key.as_slice()));
                } else {
                    let mut bearer = chars_of("Bearer ");
                    append_chars(&mut bearer, &key);
                    add_missing_exec(&mut headers, "authorization", string_of(bearer.as_slice()));
                }
            }
        },
        None => {},
    }
    headers
}


/// What a model discovery request names: the provider, its base URL, its
/// API family, its API key and the request headers.
#[derive(Debug, Clone)]
pub struct DiscoveryRequest {
    pub provider_name: String,
    pub base_url: String,
    pub api: String,
    pub api_key: Option<String>,
    pub headers: Vec<(String, String)>,
}

/// A string member, trimmed; empty when missing or not a string.
pub open spec fn trimmed_member(v: Json, key: Seq<char>) -> Seq<char> {
    match json_get(v, key) {
        Some(Json::Str(s)) => trim(s),
        _ => seq![],
    }
}

/// The API family of a provider: its `api` when a non-empty string, else
/// `openai-completions`.
pub open spec fn api_family(provider: Json) -> Seq<char> {
    match json_get(provider, "api"@) {
        Some(Json::Str(a)) if a.len() > 0 => a,
        _ => "openai-completions"@,
    }
}

/// The provider's `apiKey` when it is a string.
pub open spec fn api_key_of(provider: Json) -> Option<Seq<char>> {
    match json_get(provider, "apiKey"@) {
        Some(Json::Str(k)) => Some(k),
        _ => None,
    }
}

/// The error of a discovery request, or the request: `providerName`,
/// `provider` (an object) and its `baseUrl` are required (400).
pub open spec fn discovery_request_error(args: Json) -> Option<Seq<char>> {
    if trimmed_member(args, "providerName"@).len() == 0 {
        Some("providerName is required"@)
    } else if !(json_get(args, "provider"@) matches Some(Json::Object(_))) {
        Some("provider is required"@)
    } else if trimmed_member(json_get(args, "provider"@)->0, "baseUrl"@).len() == 0 {
        Some("Base URL is required"@)
    } else {
        None
    }
}

fn trimmed_member_exec(v: &JsonValue, key: &str) -> (r: String)
    ensures
        r@ == trimmed_member(v@, key@),
{
    match v.get(key) {
        Some(JsonValue::Str(s)) => string_of(trim_exec(&chars_of(s.as_str())).as_slice()),
        _ => String::new(),
    }
}

/// Reads a model discovery request from its arguments.
pub fn discovery_request(args: &JsonValue) -> (r: Result<DiscoveryRequest, ApiError>)
    ensures
        match discovery_request_error(args@) {
            Some(m) => r matches Err(e) && e.status == 400 && e.message@ == m,
            None => r matches Ok(d) && {
                let provider = json_get(args@, "provider"@)->0;
                &&& d.provider_name@ == trimmed_member(args@, "providerName"@)
                &&& d.base_url@ == trimmed_member(provider, "baseUrl"@)
                &&& d.api@ == api_family(provider)
                &&& match d.api_key {
                    Some(k) => api_key_of(provider) == Some(k@),
                    None => api_key_of(provider) is None,
                }
                &&& headers_view(d.headers@) == discovery_headers_spec(
                    api_family(provider),
                    api_key_of(provider),
                    match json_get(provider, "headers"@) {
                        Some(h) => h,
                        None => Json::Null,
                    },
                )
            },
        },
{
    let provider_name = trimmed_member_exec(args, "providerName");
    if provider_name.as_str().is_empty() {
        return Err(ApiError::new(400, "providerName is required"));
    }
    let provider = match args.get("provider") {
        Some(p) => p,
        None => return Err(ApiError::new(400, "provider is required")),
    };
    match provider {
        JsonValue::Object(_) => {},
        _ => return Err(ApiError::new(400, "provider is required")),
    }
    let base_url = trimmed_member_exec(provider, "baseUrl");
    if base_url.as_str().is_empty() {
        return Err(ApiError::new(400, "Base URL is required"));
    }
    let api = match provider.get("api") {
        Some(JsonValue::Str(a)) => if a.as_str().is_empty() {
            owned("openai-completions")
        } else {
            owned(a.as_str())
        },
        _ => owned("openai-completions"),
    };
    let api_key = match provider.get("apiKey") {
        Some(JsonValue::Str(k)) => Some(owned(k.as_str())),
        _ => None,
    };
    let null = JsonValue::Null;
    let configured = match provider.get("headers") {
        Some(h) => h,
        None => &null,
    };
    let headers = match &api_key {
        Some(k) => discovery_headers(api.as_str(), Some(k.as_str()), configured),
        None => discovery_headers(api.as_str(), None, configured),
    };
    Ok(DiscoveryRequest { provider_name, base_url, api, api_key, headers })
}

/// The error of a failed discovery fetch: 504 when the failure says it
/// timed out (ignoring case), 502 with the failure otherwise.
pub open spec fn fetch_failure(e: Seq<char>) -> (u16, Seq<char>) {
    if find_sub(lowercase(e), "timed out"@) is Some {
        (504, "Model discovery timed out"@)
    } else {
        (502, "network error: "@ + e)
    }
}

/// Maps a failed discovery fetch to its error.
pub fn discovery_fetch_error(e: &str) -> (r: ApiError)
    ensures
        (r.status, r.message@) == fetch_failure(e@),
{
    let lower = chars_of(to_lowercase(e).as_str());
    if find_sub_exec(&lower, &chars_of("timed out"), 0).is_some() {
        ApiError::new(504, "Model discovery timed out")
    } else {
        let mut m = chars_of("network error: ");
        append_chars(&mut m, &chars_of(e));
        ApiError::new(502, string_of(m.as_slice()).as_str())
    }
}

/// The error of an upstream answer that is not a success: the first 500
/// characters of its text, or the status when the text is empty.
pub open spec fn upstream_failure(status: u16, text: Seq<char>) -> Option<Seq<char>> {
    if 200 <= status < 300 {
        None
    } else if text.len() == 0 {
        Some("Upstream returned HTTP "@ + decimal(status as nat))
    } else {
        Some(text.take(if text.len() < 500 { text.len() as int } else { 500 }))
    }
}

/// The 502 error of an upstream answer that is not a success, if any.
pub fn upstream_status_error(status: u16, text: &str) -> (r: Option<ApiError>)
    ensures
        match upstream_failure(status, text@) {
            Some(m) => r matches Some(e) && e.status == 502 && e.message@ == m,
            None => r is None,
        },
{
    if 200 <= status && status < 300 {
        return None;
    }
    let t = chars_of(text);
    if t.len() == 0 {
        let mut m = chars_of("Upstream returned HTTP ");
        append_chars(&mut m, &decimal_exec(status as usize));
        return Some(ApiError::new(502, string_of(m.as_slice()).as_str()));
    }
    let n: usize = if t.len() < 500 { t.len() } else { 500 };
    let head = sub_vec(&t, 0, n);
    assert(head@ =~= t@.take(n as int));
    Some(ApiError::new(502, string_of(head.as_slice()).as_str()))
}


/// The status of a configured package: `loaded` when it has resources and
/// one is enabled, `disabled` when all its resources are disabled, else
/// `installed` or `missing` by whether its directory exists.
pub open spec fn plugin_status_spec(enabled: Seq<bool>, installed_exists: bool) -> Seq<char> {
    if enabled.len() > 0 {
        if forall|i: int| 0 <= i < enabled.len() ==> !#[trigger] enabled[i] {
            "disabled"@
        } else {
            "loaded"@
        }
    } else if installed_exists {
        "installed"@
    } else {
        "missing"@
    }
}

/// The status of a configured package from whether each of its resources
/// is enabled and whether its directory exists.
pub fn plugin_status(enabled: &Vec<bool>, installed_exists: bool) -> (r: &'static str)
    ensures
        r@ == plugin_status_spec(enabled@, installed_exists),
{
    if enabled.len() > 0 {
        let mut i: usize = 0;
        while i < enabled.len()
            invariant
                i <= enabled.len(),
                forall|j: int| 0 <= j < i ==> !#[trigger] enabled@[j],
            decreases enabled.len() - i,
        {
            if enabled[i] {
                return "loaded";
            }
            i += 1;
        }
        "disabled"
    } else if installed_exists {
        "installed"
    } else {
        "missing"
    }
}

/// How many of the resource kinds are `kind`.
pub open spec fn kind_count(kinds: Seq<Seq<char>>, kind: Seq<char>) -> nat
    decreases kinds.len(),
{
    if kinds.len() == 0 {
        0
    } else {
        kind_count(kinds.drop_last(), kind) + if kinds.last() == kind {
            1nat
        } else {
            0nat
        }
    }
}

/// Counts the resources of one kind (`extension`, `skill`, `prompt`,
/// `theme`).
pub fn resource_count(kinds: &Vec<String>, kind: &str) -> (n: usize)
    ensures
        n == kind_count(kinds@.map_values(|k: String| k@), kind@),
{
    let ghost kv = kinds@.map_values(|k: String| k@);
    let mut n: usize = 0;
    assert(kv.take(0) =~= Seq::<Seq<char>>::empty());
    for i in 0..kinds.len()
        invariant
            kv == kinds@.map_values(|k: String| k@),
            n == kind_count(kv.take(i as int), kind@),
            n <= i,
    {
        assert(kv.take(i + 1).drop_last() =~= kv.take(i as int));
        assert(kv.take(i + 1).last() == kinds@[i as int]@);
        if chars_eq(&chars_of(kinds[i].as_str()), &chars_of(kind)) {
            n = n + 1;
        }
    }
    assert(kv.take(kinds.len() as int) =~= kv);
    n
}

/// A model test request: the provider's name, its entry and the model's
/// entry (members), and the model id.
pub struct ModelTestRequest {
    pub provider_name: String,
    pub provider: Vec<(String, JsonValue)>,
    pub model: Vec<(String, JsonValue)>,
    pub model_id: String,
}

/// The checks of a model test, in order: `providerName` (400), `provider`
/// and `model` objects (400), the model's `id` (400), all trimmed; then a
/// content type other than JSON (415).
pub open spec fn model_test_request_spec(args: Json, content_type: Option<Seq<char>>) -> Result<
    (Seq<char>, Seq<(Seq<char>, Json)>, Seq<(Seq<char>, Json)>, Seq<char>),
    (u16, Seq<char>),
> {
    let name = crate::api::commands::str_arg_spec(args, "providerName"@);
    if name.len() == 0 {
        Err((400, "providerName is required"@))
    } else {
        match json_get(args, "provider"@) {
            Some(Json::Object(pe)) => match json_get(args, "model"@) {
                Some(Json::Object(me)) => {
                    let id = crate::api::commands::str_arg_spec(Json::Object(me), "id"@);
                    if id.len() == 0 {
                        Err((400, "Model ID is required"@))
                    } else {
                        match content_type {
                            Some(ct) => if !starts_with(ascii_lower(ct), "application/json"@) {
                                Err((415, "Content-Type must be application/json"@))
                            } else {
                                Ok((name, pe, me, id))
                            },
                            None => Ok((name, pe, me, id)),
                        }
                    }
                },
                _ => Err((400, "model is required"@)),
            },
            _ => Err((400, "provider is required"@)),
        }
    }
}

fn object_members(v: JsonValue) -> (r: Vec<(String, JsonValue)>)
    requires
        v is Object,
    ensures
        Json::Object(members_view(r@)) == v@,
{
    match v {
        JsonValue::Object(es) => {
            proof {
                lemma_object_view(es);
            }
            es
        },
        _ => Vec::new(),
    }
}

/// Reads and checks a model test request.
pub fn model_test_request(args: &JsonValue, content_type: Option<&str>) -> (r: Result<
    ModelTestRequest,
    ApiError,
>)
    ensures
        match model_test_request_spec(
            args@,
            match content_type {
                Some(c) => Some(c@),
                None => None,
            },
        ) {
            Ok((name, pe, me, id)) => r matches Ok(q) && q.provider_name@ == name && members_view(
                q.provider@,
            ) == pe && members_view(q.model@) == me && q.model_id@ == id,
            Err((status, message)) => r matches Err(e) && e.status == status && e.message@
                == message,
        },
{
    let provider_name = crate::api::commands::str_arg(args, "providerName");
    if chars_of(provider_name.as_str()).len() == 0 {
        return Err(ApiError::new(400, "providerName is required"));
    }
    let provider = match args.get("provider") {
        Some(v) => match v {
            JsonValue::Object(_) => object_members(crate::json::copy_json(v)),
            _ => return Err(ApiError::new(400, "provider is required")),
        },
        None => return Err(ApiError::new(400, "provider is required")),
    };
    let model = match args.get("model") {
        Some(v) => match v {
            JsonValue::Object(_) => object_members(crate::json::copy_json(v)),
            _ => return Err(ApiError::new(400, "model is required")),
        },
        None => return Err(ApiError::new(400, "model is required")),
    };
    let model_value = JsonValue::Object(model);
    proof {
        lemma_object_view(model);
    }
    let model_id = crate::api::commands::str_arg(&model_value, "id");
    let model = match model_value {
        JsonValue::Object(m) => m,
        _ => Vec::new(),
    };
    if chars_of(model_id.as_str()).len() == 0 {
        return Err(ApiError::new(400, "Model ID is required"));
    }
    match content_type {
        Some(ct) => {
            let lower = ascii_lower_exec(&chars_of(ct));
            if !has_prefix(&lower, &chars_of("application/json")) {
                return Err(ApiError::new(415, "Content-Type must be application/json"));
            }
        },
        None => {},
    }
    Ok(ModelTestRequest { provider_name, provider, model, model_id })
}

/// The one-provider registry a model test runs against:
/// `{providers: {name: provider with models: [model with id]}}`.
pub open spec fn model_test_document_spec(
    name: Seq<char>,
    provider: Seq<(Seq<char>, Json)>,
    model: Seq<(Seq<char>, Json)>,
    model_id: Seq<char>,
) -> Json {
    let m = Json::Object(insert_member(model, "id"@, Json::Str(model_id)));
    let p = Json::Object(insert_member(provider, "models"@, Json::Array(seq![m])));
    Json::Object(seq![("providers"@, Json::Object(seq![(name, p)]))])
}

/// Builds the registry document of a model test.
pub fn model_test_document(req: ModelTestRequest) -> (r: JsonValue)
    ensures
        r@ == model_test_document_spec(
            req.provider_name@,
            members_view(req.provider@),
            members_view(req.model@),
            req.model_id@,
        ),
{
    let ModelTestRequest { provider_name, provider, model, model_id } = req;
    let ghost pv = members_view(provider@);
    let ghost mv = members_view(model@);
    let mut model = model;
    object_insert(&mut model, string_of(chars_of("id").as_slice()), JsonValue::Str(model_id));
    proof {
        lemma_object_view(model);
    }
    let ghost mj = Json::Object(members_view(model@));
    let items = vec![JsonValue::Object(model)];
    proof {
        lemma_array_view(items);
    }
    assert(crate::json::items_view(items@) =~= seq![mj]);
    let mut provider = provider;
    object_insert(&mut provider, string_of(chars_of("models").as_slice()), JsonValue::Array(items));
    proof {
        lemma_object_view(provider);
    }
    let inner = vec![(provider_name, JsonValue::Object(provider))];
    proof {
        lemma_object_view(inner);
    }
    let outer = vec![(string_of(chars_of("providers").as_slice()), JsonValue::Object(inner))];
    proof {
        lemma_object_view(outer);
    }
    assert(members_view(inner@) =~= model_test_document_spec(req.provider_name@, pv, mv, req.model_id@)->Object_0[0].1->Object_0);
    assert(members_view(outer@) =~= model_test_document_spec(req.provider_name@, pv, mv, req.model_id@)->Object_0);
    JsonValue::Object(outer)
}

} // verus!
