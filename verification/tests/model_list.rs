use pi_web::api::model_list::{
    agent_dir_of, check_models_cwd, model_entries, models_config_arg, models_list_answer,
};
use pi_web::api::models::{model_test_document, model_test_request, plugin_status, resource_count};
use pi_web::json::JsonValue;

fn s(v: &str) -> JsonValue {
    JsonValue::Str(v.to_string())
}

fn obj(pairs: Vec<(&str, JsonValue)>) -> JsonValue {
    JsonValue::Object(pairs.into_iter().map(|(k, v)| (k.to_string(), v)).collect())
}

fn member<'a>(v: &'a JsonValue, key: &str) -> &'a JsonValue {
    v.get(key).unwrap_or_else(|| panic!("no member {key}"))
}

fn probe_config() -> JsonValue {
    obj(vec![(
        "providers",
        obj(vec![(
            "probe",
            obj(vec![
                ("baseUrl", s("https://x")),
                (
                    "models",
                    JsonValue::Array(vec![
                        obj(vec![("id", s("beta")), ("name", s("Beta Model"))]),
                        obj(vec![("id", s("alpha")), ("reasoning", JsonValue::Bool(false))]),
                        obj(vec![("id", s("alpha"))]),
                    ]),
                ),
            ]),
        )]),
    )])
}

#[test]
fn models_config_roundtrip_and_list_assembly() {
    let put = models_config_arg(&obj(vec![("config", probe_config())])).unwrap();
    assert_eq!(put, probe_config());
    let v = models_list_answer(&put, None);
    let list: Vec<&str> = match member(&v, "modelList") {
        JsonValue::Array(items) => items
            .iter()
            .map(|m| match member(m, "id") {
                JsonValue::Str(id) => id.as_str(),
                other => panic!("id {other:?}"),
            })
            .collect(),
        other => panic!("modelList {other:?}"),
    };
    assert_eq!(list, vec!["alpha", "beta"]);
    assert_eq!(member(member(&v, "models"), "probe:beta"), &s("Beta Model"));
    assert_eq!(member(member(&v, "thinkingLevels"), "probe:alpha"), &JsonValue::Array(vec![s("off")]));
    match member(member(&v, "thinkingLevels"), "probe:beta") {
        JsonValue::Array(levels) => assert_eq!(levels.len(), 7),
        other => panic!("levels {other:?}"),
    }
    assert_eq!(member(&v, "defaultModel"), &JsonValue::Null);
    assert_eq!(member(&v, "thinkingLevelPins"), &obj(vec![]));
}

#[test]
fn models_list_cwd_validation() {
    let e = check_models_cwd("/definitely/not/here", false, false).unwrap_err();
    assert_eq!((e.status, e.message.as_str()), (400, "Directory does not exist: /definitely/not/here"));
    let e = check_models_cwd("/f.txt", true, false).unwrap_err();
    assert_eq!((e.status, e.message.as_str()), (400, "Not a directory: /f.txt"));
    assert!(check_models_cwd("/d", true, true).is_ok());
}

#[test]
fn models_answer_shape() {
    let config = obj(vec![(
        "providers",
        obj(vec![
            (
                "b-prov",
                obj(vec![(
                    "models",
                    JsonValue::Array(vec![
                        obj(vec![("id", s("m")), ("name", s("Same")), ("thinkingLevelMap", obj(vec![("high", s("x"))]))]),
                        obj(vec![("id", s("")), ("name", s("skipped"))]),
                        obj(vec![("name", s("no id"))]),
                    ]),
                )]),
            ),
            ("a-prov", obj(vec![("models", JsonValue::Array(vec![obj(vec![("id", s("m")), ("name", s("same"))])]))])),
            ("bad", obj(vec![("models", s("not a list"))])),
        ]),
    )]);
    let v = models_list_answer(&config, Some(("a-prov", "m")));
    let expected = obj(vec![
        ("defaultModel", obj(vec![("modelId", s("m")), ("provider", s("a-prov"))])),
        (
            "modelList",
            JsonValue::Array(vec![
                obj(vec![("id", s("m")), ("name", s("same")), ("provider", s("a-prov"))]),
                obj(vec![("id", s("m")), ("name", s("Same")), ("provider", s("b-prov"))]),
            ]),
        ),
        ("models", obj(vec![("b-prov:m", s("Same")), ("a-prov:m", s("same"))])),
        ("thinkingLevelMaps", obj(vec![("b-prov:m", obj(vec![("high", s("x"))]))])),
        ("thinkingLevelPins", obj(vec![])),
        (
            "thinkingLevels",
            obj(vec![
                ("b-prov:m", JsonValue::Array(["off", "minimal", "low", "medium", "high", "xhigh", "max"].iter().map(|l| s(l)).collect())),
                ("a-prov:m", JsonValue::Array(["off", "minimal", "low", "medium", "high", "xhigh", "max"].iter().map(|l| s(l)).collect())),
            ]),
        ),
    ]);
    assert_eq!(v, expected);
    assert_eq!(model_entries(&config).len(), 2);
    assert_eq!(model_entries(&obj(vec![])).len(), 0);
}

#[test]
fn models_config_argument() {
    assert_eq!(models_config_arg(&obj(vec![])).unwrap(), obj(vec![]));
    let e = models_config_arg(&obj(vec![("config", JsonValue::Array(vec![]))])).unwrap_err();
    assert_eq!((e.status, e.message.as_str()), (400, "config must be an object"));
    assert_eq!(agent_dir_of(Some("/opt/agent//")).as_deref(), Some("/opt/agent"));
    assert_eq!(agent_dir_of(Some("///")), None);
    assert_eq!(agent_dir_of(None), None);
}

#[test]
fn plugin_status_rule() {
    assert_eq!(plugin_status(&vec![true, false], false), "loaded");
    assert_eq!(plugin_status(&vec![false, false], true), "disabled");
    assert_eq!(plugin_status(&vec![], true), "installed");
    assert_eq!(plugin_status(&vec![], false), "missing");
    let kinds: Vec<String> = ["skill", "extension", "skill", "theme"].iter().map(|k| k.to_string()).collect();
    assert_eq!(resource_count(&kinds, "skill"), 2);
    assert_eq!(resource_count(&kinds, "prompt"), 0);
}

#[test]
fn model_test_request_checks() {
    let full = |ct: Option<&str>| {
        model_test_request(
            &obj(vec![("providerName", s(" acme ")), ("provider", obj(vec![("baseUrl", s("https://x")), ("models", JsonValue::Array(vec![]))])), ("model", obj(vec![("id", s(" m1 ")), ("name", s("M"))]))]),
            ct,
        )
    };
    let cases: Vec<(JsonValue, &str)> = vec![
        (obj(vec![("provider", obj(vec![])), ("model", obj(vec![("id", s("m"))]))]), "providerName is required"),
        (obj(vec![("providerName", s("p")), ("model", obj(vec![("id", s("m"))]))]), "provider is required"),
        (obj(vec![("providerName", s("p")), ("provider", obj(vec![])), ("model", s("m"))]), "model is required"),
        (obj(vec![("providerName", s("p")), ("provider", obj(vec![])), ("model", obj(vec![("id", s(" "))]))]), "Model ID is required"),
    ];
    for (args, msg) in cases {
        let e = model_test_request(&args, None).err().unwrap();
        assert_eq!((e.status, e.message.as_str()), (400, msg));
    }
    let e = full(Some("text/plain")).err().unwrap();
    assert_eq!((e.status, e.message.as_str()), (415, "Content-Type must be application/json"));
    let req = full(Some("Application/JSON; charset=utf-8")).ok().unwrap();
    assert_eq!((req.provider_name.as_str(), req.model_id.as_str()), ("acme", "m1"));
    let doc = model_test_document(req);
    let expected = obj(vec![(
        "providers",
        obj(vec![(
            "acme",
            obj(vec![
                ("baseUrl", s("https://x")),
                ("models", JsonValue::Array(vec![obj(vec![("id", s("m1")), ("name", s("M"))])])),
            ]),
        )]),
    )]);
    assert_eq!(doc, expected);
}
