use pi_web::fs::models_config_store::{normalize_models_config_costs, sanitize_models_config};
use pi_web::json::{JsonNumber, JsonValue};

fn obj(members: Vec<(&str, JsonValue)>) -> JsonValue {
    JsonValue::Object(members.into_iter().map(|(k, v)| (k.to_string(), v)).collect())
}

fn text(s: &str) -> JsonValue {
    JsonValue::Str(s.to_string())
}

fn num(n: u64) -> JsonValue {
    JsonValue::Number(JsonNumber::PosInt(n))
}

fn float(t: &str) -> JsonValue {
    JsonValue::Number(JsonNumber::Float(t.to_string()))
}

fn config(models: Vec<JsonValue>) -> JsonValue {
    obj(vec![("providers", obj(vec![("p", obj(vec![("models", JsonValue::Array(models))]))]))])
}

fn models_of(v: &JsonValue) -> &Vec<JsonValue> {
    match v.get("providers").and_then(|p| p.get("p")).and_then(|p| p.get("models")) {
        Some(JsonValue::Array(ms)) => ms,
        other => panic!("no models array: {:?}", other),
    }
}

#[test]
fn sanitize_drops_blank_id_models() {
    let data = config(vec![
        obj(vec![("id", text("keep-me")), ("name", text("K"))]),
        obj(vec![("id", text("  ")), ("name", text("blank-id"))]),
        obj(vec![("id", text("")), ("name", text("empty-id"))]),
        obj(vec![("name", text("no-id"))]),
    ]);
    let sanitized = sanitize_models_config(data);
    let names: Vec<&str> = models_of(&sanitized)
        .iter()
        .map(|m| match m.get("name") {
            Some(JsonValue::Str(s)) => s.as_str(),
            _ => "",
        })
        .collect();
    assert_eq!(names, vec!["K", "no-id"]);
}

#[test]
fn normalize_fills_missing_cost_fields_and_drops_invalid() {
    let data = config(vec![
        obj(vec![("id", text("m1")), ("cost", obj(vec![("input", num(1)), ("output", num(2))]))]),
        obj(vec![("id", text("m2")), ("cost", obj(vec![("input", text("oops")), ("output", num(2))]))]),
        obj(vec![
            ("id", text("m3")),
            (
                "cost",
                obj(vec![
                    ("input", num(3)),
                    ("output", num(4)),
                    ("cacheRead", float("0.1")),
                    ("cacheWrite", float("0.2")),
                ]),
            ),
        ]),
    ]);
    let normalized = normalize_models_config_costs(data);
    let models = models_of(&normalized);
    let cost0 = models[0].get("cost").unwrap();
    assert_eq!(cost0.get("cacheRead"), Some(&num(0)));
    assert_eq!(cost0.get("cacheWrite"), Some(&num(0)));
    assert_eq!(cost0.get("input"), Some(&num(1)));
    assert!(models[1].get("cost").is_none(), "non-finite cost group dropped");
    assert_eq!(models[2].get("cost").unwrap().get("cacheRead"), Some(&float("0.1")));
}

#[test]
fn sanitize_leaves_documents_without_providers_alone() {
    let data = obj(vec![("other", JsonValue::Bool(true))]);
    assert_eq!(sanitize_models_config(data), obj(vec![("other", JsonValue::Bool(true))]));
    assert_eq!(sanitize_models_config(JsonValue::Null), JsonValue::Null);
    let not_object = obj(vec![("providers", JsonValue::Array(vec![]))]);
    assert_eq!(
        normalize_models_config_costs(not_object),
        obj(vec![("providers", JsonValue::Array(vec![]))])
    );
}

#[test]
fn sanitize_keeps_non_object_models_and_non_string_ids() {
    let data = config(vec![num(7), obj(vec![("id", num(3))]), obj(vec![("id", text(" x "))])]);
    let sanitized = sanitize_models_config(data);
    assert_eq!(models_of(&sanitized).len(), 3);
}

#[test]
fn normalize_drops_cost_without_cost_fields() {
    let data = config(vec![
        obj(vec![("id", text("a")), ("cost", obj(vec![("other", num(1))]))]),
        obj(vec![("id", text("b")), ("cost", num(5))]),
        obj(vec![("id", text("c"))]),
    ]);
    let normalized = normalize_models_config_costs(data);
    let models = models_of(&normalized);
    assert!(models[0].get("cost").is_none());
    assert!(models[1].get("cost").is_none());
    assert_eq!(models[2], obj(vec![("id", text("c"))]));
}

#[test]
fn normalize_is_idempotent_on_example() {
    let data = config(vec![obj(vec![("cost", obj(vec![("output", num(2))]))])]);
    let once = normalize_models_config_costs(data);
    let expected = config(vec![obj(vec![(
        "cost",
        obj(vec![("output", num(2)), ("input", num(0)), ("cacheRead", num(0)), ("cacheWrite", num(0))]),
    )])]);
    assert_eq!(once, expected);
    let twice = normalize_models_config_costs(config(vec![obj(vec![(
        "cost",
        obj(vec![("output", num(2)), ("input", num(0)), ("cacheRead", num(0)), ("cacheWrite", num(0))]),
    )])]));
    assert_eq!(twice, expected);
}
