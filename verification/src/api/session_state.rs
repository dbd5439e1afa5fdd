//! What the library tracks of a running agent session: its flags, model
//! and queued messages, the state it reports, and which agent events reach
//! the browser.

use vstd::prelude::*;
use crate::fs::allowed_roots::strings_view;
use crate::json::{
    find_member, items_view, json_get, lemma_array_view, lemma_member_index, lemma_object_view,
    member_index, members_view, Json, JsonValue,
};
use crate::text::{chars_eq, chars_of, string_of};

verus! {

broadcast use vstd::string::group_string_axioms;

/// The tracked state of a session.
#[derive(Debug, Clone)]
pub struct SessionState {
    pub session_id: Option<String>,
    pub is_streaming: bool,
    pub is_prompt_running: bool,
    pub is_compacting: bool,
    pub is_bash_running: bool,
    pub queued_steering: Vec<String>,
    pub queued_follow_up: Vec<String>,
    pub model_provider: Option<String>,
    pub model_id: Option<String>,
    pub thinking_level: Option<String>,
}

fn owned(s: &str) -> (r: String)
    ensures
        r@ == s@,
{
    string_of(chars_of(s).as_slice())
}

/// A JSON array of strings.
pub open spec fn string_array(s: Seq<Seq<char>>) -> Json {
    Json::Array(s.map_values(|x: Seq<char>| Json::Str(x)))
}

pub(crate) fn string_array_exec(v: &Vec<String>) -> (r: JsonValue)
    ensures
        r@ == string_array(strings_view(v@)),
{
    let mut out: Vec<JsonValue> = Vec::new();
    for i in 0..v.len()
        invariant
            items_view(out@) == strings_view(v@).take(i as int).map_values(
                |x: Seq<char>| Json::Str(x),
            ),
    {
        let ghost before = items_view(out@);
        out.push(JsonValue::Str(owned(v[i].as_str())));
        assert(items_view(out@) =~= before.push(Json::Str(v@[i as int]@)));
        assert(strings_view(v@).take(i + 1).map_values(|x: Seq<char>| Json::Str(x))
            =~= strings_view(v@).take(i as int).map_values(|x: Seq<char>| Json::Str(x)).push(
            Json::Str(v@[i as int]@),
        ));
    }
    assert(strings_view(v@).take(v.len() as int) =~= strings_view(v@));
    proof {
        lemma_array_view(out);
    }
    JsonValue::Array(out)
}

/// `{"followUp": [...], "steering": [...]}`: the queued messages.
pub open spec fn queued_messages(steering: Seq<Seq<char>>, follow_up: Seq<Seq<char>>) -> Json {
    Json::Object(seq![("followUp"@, string_array(follow_up)), ("steering"@, string_array(steering))])
}

impl SessionState {
    /// The state of a session that has just started.
    pub fn new() -> (s: SessionState)
        ensures
            s.session_id is None,
            !s.is_streaming && !s.is_prompt_running && !s.is_compacting && !s.is_bash_running,
            s.queued_steering@.len() == 0 && s.queued_follow_up@.len() == 0,
            s.model_provider is None && s.model_id is None && s.thinking_level is None,
    {
        SessionState {
            session_id: None,
            is_streaming: false,
            is_prompt_running: false,
            is_compacting: false,
            is_bash_running: false,
            queued_steering: Vec::new(),
            queued_follow_up: Vec::new(),
            model_provider: None,
            model_id: None,
            thinking_level: None,
        }
    }

    /// Queues a steering message.
    pub fn queue_steering(&mut self, message: String)
        ensures
            strings_view(final(self).queued_steering@) == strings_view(
                old(self).queued_steering@,
            ).push(message@),
            final(self).queued_follow_up == old(self).queued_follow_up,
    {
        let ghost before = strings_view(self.queued_steering@);
        self.queued_steering.push(message);
        assert(strings_view(self.queued_steering@) =~= before.push(message@));
    }

    /// Queues a follow-up message.
    pub fn queue_follow_up(&mut self, message: String)
        ensures
            strings_view(final(self).queued_follow_up@) == strings_view(
                old(self).queued_follow_up@,
            ).push(message@),
            final(self).queued_steering == old(self).queued_steering,
    {
        let ghost before = strings_view(self.queued_follow_up@);
        self.queued_follow_up.push(message);
        assert(strings_view(self.queued_follow_up@) =~= before.push(message@));
    }

    /// Empties both queues; the steering and follow-up messages they held,
    /// in the order queued.
    pub fn clear_queues(&mut self) -> (r: (Vec<String>, Vec<String>))
        ensures
            strings_view(r.0@) == strings_view(old(self).queued_steering@),
            strings_view(r.1@) == strings_view(old(self).queued_follow_up@),
            final(self).queued_steering@.len() == 0,
            final(self).queued_follow_up@.len() == 0,
    {
        let mut steering: Vec<String> = Vec::new();
        let mut follow_up: Vec<String> = Vec::new();
        std::mem::swap(&mut steering, &mut self.queued_steering);
        std::mem::swap(&mut follow_up, &mut self.queued_follow_up);
        (steering, follow_up)
    }

    /// The `queue_update` event: `{followUp, steering, type}`.
    pub fn queue_update_event(&self) -> (r: JsonValue)
        ensures
            r@ == Json::Object(
                seq![
                    ("followUp"@, string_array(strings_view(self.queued_follow_up@))),
                    ("steering"@, string_array(strings_view(self.queued_steering@))),
                    ("type"@, Json::Str("queue_update"@)),
                ],
            ),
    {
        let es = vec![
            (owned("followUp"), string_array_exec(&self.queued_follow_up)),
            (owned("steering"), string_array_exec(&self.queued_steering)),
            (owned("type"), JsonValue::Str(owned("queue_update"))),
        ];
        proof {
            lemma_object_view(es);
        }
        let ghost expected = seq![
            ("followUp"@, string_array(strings_view(self.queued_follow_up@))),
            ("steering"@, string_array(strings_view(self.queued_steering@))),
            ("type"@, Json::Str("queue_update"@)),
        ];
        assert(members_view(es@) =~= expected);
        JsonValue::Object(es)
    }
}

/// The model of the state: `{"id", "provider"}` when both are known.
pub open spec fn state_model(provider: Option<Seq<char>>, id: Option<Seq<char>>) -> Json {
    match (provider, id) {
        (Some(p), Some(m)) => Json::Object(seq![("id"@, Json::Str(m)), ("provider"@, Json::Str(p))]),
        _ => Json::Null,
    }
}

/// The thinking level reported: the level when the model is known and a
/// level is set, `off` otherwise.
pub open spec fn state_thinking(provider: Option<Seq<char>>, id: Option<Seq<char>>, level: Option<Seq<char>>) -> Seq<char> {
    match (provider, id, level) {
        (Some(_), Some(_), Some(l)) => l,
        _ => "off"@,
    }
}

pub open spec fn opt_view(o: Option<String>) -> Option<Seq<char>> {
    match o {
        Some(s) => Some(s@),
        None => None,
    }
}

/// The state a session reports (members by name).
pub open spec fn state_json(s: SessionState) -> Json {
    Json::Object(
        seq![
            ("contextUsage"@, Json::Null),
            ("extensionStatuses"@, Json::Array(seq![])),
            ("extensionWidgets"@, Json::Array(seq![])),
            ("isBashRunning"@, Json::Bool(s.is_bash_running)),
            ("isCompacting"@, Json::Bool(s.is_compacting)),
            ("isPromptRunning"@, Json::Bool(s.is_prompt_running)),
            ("isStreaming"@, Json::Bool(s.is_streaming)),
            ("model"@, state_model(opt_view(s.model_provider), opt_view(s.model_id))),
            ("queuedMessages"@, queued_messages(
                strings_view(s.queued_steering@),
                strings_view(s.queued_follow_up@),
            )),
            ("sessionId"@, match opt_view(s.session_id) {
                Some(i) => Json::Str(i),
                None => Json::Null,
            }),
            ("systemPrompt"@, Json::Null),
            ("thinkingLevel"@, Json::Str(
                state_thinking(
                    opt_view(s.model_provider),
                    opt_view(s.model_id),
                    opt_view(s.thinking_level),
                ),
            )),
        ],
    )
}

fn empty_array() -> (r: JsonValue)
    ensures
        r@ == Json::Array(seq![]),
{
    let v: Vec<JsonValue> = Vec::new();
    proof {
        lemma_array_view(v);
    }
    assert(items_view(v@) =~= Seq::<Json>::empty());
    JsonValue::Array(v)
}

impl SessionState {
    /// The state a session reports to a browser that reconnects.
    pub fn to_state_json(&self) -> (r: JsonValue)
        ensures
            r@ == state_json(*self),
    {
        let (model, thinking) = match (&self.model_provider, &self.model_id) {
            (Some(p), Some(m)) => {
                let es = vec![
                    (owned("id"), JsonValue::Str(owned(m.as_str()))),
                    (owned("provider"), JsonValue::Str(owned(p.as_str()))),
                ];
                proof {
                    lemma_object_view(es);
                }
                assert(members_view(es@) =~= seq![
                    ("id"@, Json::Str(m@)),
                    ("provider"@, Json::Str(p@)),
                ]);
                let level = match &self.thinking_level {
                    Some(l) => owned(l.as_str()),
                    None => owned("off"),
                };
                (JsonValue::Object(es), level)
            },
            _ => (JsonValue::Null, owned("off")),
        };
        let queued = vec![
            (owned("followUp"), string_array_exec(&self.queued_follow_up)),
            (owned("steering"), string_array_exec(&self.queued_steering)),
        ];
        proof {
            lemma_object_view(queued);
        }
        assert(members_view(queued@) =~= seq![
            ("followUp"@, string_array(strings_view(self.queued_follow_up@))),
            ("steering"@, string_array(strings_view(self.queued_steering@))),
        ]);
        let session_id = match &self.session_id {
            Some(i) => JsonValue::Str(owned(i.as_str())),
            None => JsonValue::Null,
        };
        let es = vec![
            (owned("contextUsage"), JsonValue::Null),
            (owned("extensionStatuses"), empty_array()),
            (owned("extensionWidgets"), empty_array()),
            (owned("isBashRunning"), JsonValue::Bool(self.is_bash_running)),
            (owned("isCompacting"), JsonValue::Bool(self.is_compacting)),
            (owned("isPromptRunning"), JsonValue::Bool(self.is_prompt_running)),
            (owned("isStreaming"), JsonValue::Bool(self.is_streaming)),
            (owned("model"), model),
            (owned("queuedMessages"), JsonValue::Object(queued)),
            (owned("sessionId"), session_id),
            (owned("systemPrompt"), JsonValue::Null),
            (owned("thinkingLevel"), JsonValue::Str(thinking)),
        ];
        proof {
            lemma_object_view(es);
        }
        assert(state_json(*self)->Object_0 =~= members_view(es@));
        JsonValue::Object(es)
    }
}

/// The agent event that the browser receives: none for `turn_start`,
/// `turn_end` and `tool_execution_update`; a `message_update` reduced to
/// its type and its `assistantMessageEvent` object without `partial` (none
/// when that is not an object); `{"type": "agent_end"}` for `agent_end`;
/// any other event as it is.
pub open spec fn client_event(v: Json) -> Option<Json> {
    let ty = match json_get(v, "type"@) {
        Some(Json::Str(t)) => t,
        _ => seq![],
    };
    if ty == "turn_start"@ || ty == "turn_end"@ || ty == "tool_execution_update"@ {
        None
    } else if ty == "message_update"@ {
        match json_get(v, "assistantMessageEvent"@) {
            Some(Json::Object(es)) => Some(
                Json::Object(
                    seq![
                        ("assistantMessageEvent"@, Json::Object(
                            match member_index(es, "partial"@) {
                                Some(i) => es.remove(i),
                                None => es,
                            },
                        )),
                        ("type"@, Json::Str("message_update"@)),
                    ],
                ),
            ),
            _ => None,
        }
    } else if ty == "agent_end"@ {
        Some(Json::Object(seq![("type"@, Json::Str("agent_end"@))]))
    } else {
        Some(v)
    }
}

/// Filters and shapes an agent event for the browser.
pub fn to_client_event(v: JsonValue) -> (r: Option<JsonValue>)
    ensures
        match client_event(v@) {
            Some(e) => r matches Some(x) && x@ == e,
            None => r is None,
        },
{
    let ty = match v.get("type") {
        Some(JsonValue::Str(t)) => chars_of(t.as_str()),
        _ => Vec::new(),
    };
    if chars_eq(&ty, &chars_of("turn_start")) || chars_eq(&ty, &chars_of("turn_end")) || chars_eq(
        &ty,
        &chars_of("tool_execution_update"),
    ) {
        return None;
    }
    if chars_eq(&ty, &chars_of("message_update")) {
        let ame = match v {
            JsonValue::Object(es) => {
                proof {
                    lemma_object_view(es);
                    lemma_member_index(members_view(es@), "assistantMessageEvent"@);
                }
                match find_member(&es, "assistantMessageEvent") {
                    Some(i) => {
                        let ghost mv = members_view(es@);
                        let mut es = es;
                        let (_, x) = es.remove(i);
                        assert(mv[i as int].1 == x@);
                        x
                    },
                    None => return None,
                }
            },
            _ => return None,
        };
        return match ame {
            JsonValue::Object(inner) => {
                proof {
                    lemma_object_view(inner);
                    lemma_member_index(members_view(inner@), "partial"@);
                }
                let ghost iv = members_view(inner@);
                let mut inner = inner;
                match find_member(&inner, "partial") {
                    Some(j) => {
                        let _ = inner.remove(j);
                        assert(members_view(inner@) =~= iv.remove(j as int));
                    },
                    None => {},
                }
                proof {
                    lemma_object_view(inner);
                }
                let es = vec![
                    (owned("assistantMessageEvent"), JsonValue::Object(inner)),
                    (owned("type"), JsonValue::Str(owned("message_update"))),
                ];
                proof {
                    lemma_object_view(es);
                }
                let ghost expected = seq![
                    ("assistantMessageEvent"@, es@[0].1@),
                    ("type"@, Json::Str("message_update"@)),
                ];
                assert(members_view(es@) =~= expected);
                assert(client_event(v@)->0->Object_0 =~= expected);
                Some(JsonValue::Object(es))
            },
            _ => None,
        };
    }
    if chars_eq(&ty, &chars_of("agent_end")) {
        let es = vec![(owned("type"), JsonValue::Str(owned("agent_end")))];
        proof {
            lemma_object_view(es);
        }
        let ghost expected = seq![("type"@, Json::Str("agent_end"@))];
        assert(members_view(es@) =~= expected);
        assert(client_event(v@)->0->Object_0 =~= expected);
        return Some(JsonValue::Object(es));
    }
    Some(v)
}

} // verus!
