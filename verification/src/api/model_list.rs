//! The model picker's data, assembled from the `models.json`
//! configuration: the models by key, the list the picker shows, and the
//! thinking levels of each model.

use vstd::prelude::*;
use crate::api::session_state::string_array;
use crate::api::types::ApiError;
use crate::fs::directory_browser::{
    code_less, code_less_exec, lemma_code_less_irreflexive, lemma_code_less_total,
    lemma_code_less_transitive,
};
use crate::json::{
    copy_json, find_member, insert_member, items_view, json_get, lemma_array_view, lemma_object_view, member_index, members_view, object_insert, Json,
    JsonValue,
};
use crate::text::{
    append_chars, chars_eq, chars_of, lowercase, string_of, to_lowercase, trim_end_char,
    trim_end_char_exec,
};

verus! {

broadcast use vstd::string::group_string_axioms;

fn owned(s: &str) -> (r: String)
    ensures
        r@ == s@,
{
    string_of(chars_of(s).as_slice())
}

/// The thinking levels of a model that reasons.
pub open spec fn all_thinking_levels() -> Seq<Seq<char>> {
    seq!["off"@, "minimal"@, "low"@, "medium"@, "high"@, "xhigh"@, "max"@]
}

/// One model of the configuration as the picker reads it.
pub struct ModelRecord {
    pub provider: Seq<char>,
    pub id: Seq<char>,
    pub name: Seq<char>,
    pub reasoning: bool,
    pub level_map: Option<Json>,
}

/// The model an entry of a provider's `models` describes: its `id` must be
/// a non-empty string; `name` defaults to the id and `reasoning` to true.
pub open spec fn model_record(provider: Seq<char>, m: Json) -> Option<ModelRecord> {
    match json_get(m, "id"@) {
        Some(Json::Str(id)) => if id.len() > 0 {
            Some(
                ModelRecord {
                    provider,
                    id,
                    name: match json_get(m, "name"@) {
                        Some(Json::Str(n)) => n,
                        _ => id,
                    },
                    reasoning: match json_get(m, "reasoning"@) {
                        Some(Json::Bool(b)) => b,
                        _ => true,
                    },
                    level_map: json_get(m, "thinkingLevelMap"@),
                },
            )
        } else {
            None
        },
        _ => None,
    }
}

/// The models of one provider, in order.
pub open spec fn provider_records(provider: Seq<char>, ms: Seq<Json>) -> Seq<ModelRecord>
    decreases ms.len(),
{
    if ms.len() == 0 {
        seq![]
    } else {
        let prev = provider_records(provider, ms.drop_last());
        match model_record(provider, ms.last()) {
            Some(r) => prev.push(r),
            None => prev,
        }
    }
}

/// The `models` list of a provider entry (none when it is not a list).
pub open spec fn provider_models(entry: Json) -> Seq<Json> {
    match json_get(entry, "models"@) {
        Some(Json::Array(ms)) => ms,
        _ => seq![],
    }
}

/// The models of the providers, provider after provider.
pub open spec fn config_records(ps: Seq<(Seq<char>, Json)>) -> Seq<ModelRecord>
    decreases ps.len(),
{
    if ps.len() == 0 {
        seq![]
    } else {
        config_records(ps.drop_last()) + provider_records(ps.last().0, provider_models(ps.last().1))
    }
}

/// All the models of a configuration.
pub open spec fn all_model_records(config: Json) -> Seq<ModelRecord> {
    match json_get(config, "providers"@) {
        Some(Json::Object(ps)) => config_records(ps),
        _ => seq![],
    }
}

/// A model as found in the configuration, its thinking level map copied.
pub struct ModelEntry {
    pub provider: String,
    pub id: String,
    pub name: String,
    pub reasoning: bool,
    pub level_map: Option<JsonValue>,
}

impl View for ModelEntry {
    type V = ModelRecord;

    open spec fn view(&self) -> ModelRecord {
        ModelRecord {
            provider: self.provider@,
            id: self.id@,
            name: self.name@,
            reasoning: self.reasoning,
            level_map: match self.level_map {
                Some(j) => Some(j@),
                None => None,
            },
        }
    }
}

pub open spec fn records_view(v: Seq<ModelEntry>) -> Seq<ModelRecord> {
    v.map_values(|e: ModelEntry| e@)
}

fn model_entry(provider: &str, m: &JsonValue) -> (r: Option<ModelEntry>)
    ensures
        match model_record(provider@, m@) {
            Some(rec) => r matches Some(e) && e@ == rec,
            None => r is None,
        },
{
    let id = match m.get("id") {
        Some(JsonValue::Str(id)) => id,
        _ => return None,
    };
    if chars_of(id.as_str()).len() == 0 {
        return None;
    }
    let name = match m.get("name") {
        Some(JsonValue::Str(n)) => owned(n.as_str()),
        _ => owned(id.as_str()),
    };
    let reasoning = match m.get("reasoning") {
        Some(JsonValue::Bool(b)) => *b,
        _ => true,
    };
    let level_map = match m.get("thinkingLevelMap") {
        Some(t) => Some(copy_json(t)),
        None => None,
    };
    Some(ModelEntry { provider: owned(provider), id: owned(id.as_str()), name, reasoning, level_map })
}

/// The models of a configuration, in the order the picker reads them.
pub fn model_entries(config: &JsonValue) -> (r: Vec<ModelEntry>)
    ensures
        records_view(r@) == all_model_records(config@),
{
    let mut out: Vec<ModelEntry> = Vec::new();
    let ps = match config.get("providers") {
        Some(JsonValue::Object(ps)) => ps,
        _ => return out,
    };
    proof {
        lemma_object_view(*ps);
    }
    let ghost pv = members_view(ps@);
    assert(pv.take(0) =~= Seq::<(Seq<char>, Json)>::empty());
    for i in 0..ps.len()
        invariant
            pv == members_view(ps@),
            records_view(out@) == config_records(pv.take(i as int)),
    {
        assert(pv.take(i + 1).drop_last() =~= pv.take(i as int));
        assert(pv.take(i + 1).last() == (ps@[i as int].0@, ps@[i as int].1@));
        let ghost before = records_view(out@);
        let provider = ps[i].0.as_str();
        match ps[i].1.get("models") {
            Some(JsonValue::Array(ms)) => {
                proof {
                    lemma_array_view(*ms);
                }
                let ghost mv = items_view(ms@);
                assert(provider_models(ps@[i as int].1@) == mv);
                assert(mv.take(0) =~= Seq::<Json>::empty());
                assert(before + provider_records(provider@, mv.take(0)) =~= before);
                for j in 0..ms.len()
                    invariant
                        mv == items_view(ms@),
                        records_view(out@) == before + provider_records(provider@, mv.take(j as int)),
                {
                    assert(mv.take(j + 1).drop_last() =~= mv.take(j as int));
                    assert(mv.take(j + 1).last() == ms@[j as int]@);
                    let ghost mid = records_view(out@);
                    match model_entry(provider, &ms[j]) {
                        Some(e) => {
                            let ghost ev = e@;
                            out.push(e);
                            assert(records_view(out@) =~= mid.push(ev));
                            assert(before + provider_records(provider@, mv.take(j + 1)) =~= (before
                                + provider_records(provider@, mv.take(j as int))).push(ev));
                        },
                        None => {},
                    }
                }
                assert(mv.take(ms.len() as int) =~= mv);
            },
            _ => {
                assert(provider_models(ps@[i as int].1@) =~= Seq::<Json>::empty());
                assert(before + provider_records(provider@, seq![]) =~= before);
            },
        }
    }
    assert(pv.take(ps.len() as int) =~= pv);
    out
}


/// The key of a model in the picker's maps: `provider:id`.
pub open spec fn model_key(r: ModelRecord) -> Seq<char> {
    r.provider + ":"@ + r.id
}

/// `map.entry(key).or_insert(v)` on object members: added at the end only
/// when no member has that name.
pub open spec fn insert_absent(es: Seq<(Seq<char>, Json)>, key: Seq<char>, v: Json) -> Seq<
    (Seq<char>, Json),
> {
    if member_index(es, key) is Some {
        es
    } else {
        es.push((key, v))
    }
}

/// The thinking levels the picker offers a model.
pub open spec fn levels_json(reasoning: bool) -> Json {
    if reasoning {
        string_array(all_thinking_levels())
    } else {
        string_array(seq!["off"@])
    }
}

/// The picker's data while the models are read: names by key, the list
/// (id, name, provider) without repeated models, levels by key, level maps
/// by key.
#[verifier::ext_equal]
pub struct Picker {
    pub models: Seq<(Seq<char>, Json)>,
    pub list: Seq<(Seq<char>, Seq<char>, Seq<char>)>,
    pub levels: Seq<(Seq<char>, Json)>,
    pub level_maps: Seq<(Seq<char>, Json)>,
}

/// The list already holds the model `id` of `provider`.
pub open spec fn listed(list: Seq<(Seq<char>, Seq<char>, Seq<char>)>, provider: Seq<char>, id: Seq<char>) -> bool {
    exists|i: int| 0 <= i < list.len() && (#[trigger] list[i]).2 == provider && list[i].0 == id
}

/// Reads one model: the first name and levels of a key stay; the list
/// takes a model once; a later level map replaces an earlier one.
pub open spec fn picker_step(s: Picker, r: ModelRecord) -> Picker {
    let key = model_key(r);
    Picker {
        models: insert_absent(s.models, key, Json::Str(r.name)),
        list: if listed(s.list, r.provider, r.id) {
            s.list
        } else {
            s.list.push((r.id, r.name, r.provider))
        },
        levels: insert_absent(s.levels, key, levels_json(r.reasoning)),
        level_maps: match r.level_map {
            Some(t) => insert_member(s.level_maps, key, t),
            None => s.level_maps,
        },
    }
}

/// The picker's data after reading the models in order.
pub open spec fn picker_of(rs: Seq<ModelRecord>) -> Picker
    decreases rs.len(),
{
    if rs.len() == 0 {
        Picker { models: seq![], list: seq![], levels: seq![], level_maps: seq![] }
    } else {
        picker_step(picker_of(rs.drop_last()), rs.last())
    }
}

fn insert_absent_exec(es: &mut Vec<(String, JsonValue)>, key: String, v: JsonValue)
    ensures
        members_view(final(es)@) == insert_absent(members_view(old(es)@), key@, v@),
{
    match find_member(es, key.as_str()) {
        Some(_) => {},
        None => {
            let ghost before = members_view(es@);
            let ghost kv = (key@, v@);
            es.push((key, v));
            assert(members_view(es@) =~= before.push(kv));
        },
    }
}

fn strings_value(items: &[&str]) -> (r: JsonValue)
    ensures
        r@ == Json::Array(items@.map_values(|x: &str| Json::Str(x@))),
{
    let mut out: Vec<JsonValue> = Vec::new();
    for i in 0..items.len()
        invariant
            items_view(out@) == items@.take(i as int).map_values(|x: &str| Json::Str(x@)),
    {
        let ghost before = items_view(out@);
        out.push(JsonValue::Str(owned(items[i])));
        assert(items_view(out@) =~= before.push(Json::Str(items@[i as int]@)));
        assert(items@.take(i + 1).map_values(|x: &str| Json::Str(x@)) =~= items@.take(i as int).map_values(
            |x: &str| Json::Str(x@),
        ).push(Json::Str(items@[i as int]@)));
    }
    assert(items@.take(items.len() as int) =~= items@);
    proof {
        lemma_array_view(out);
    }
    JsonValue::Array(out)
}

fn levels_value(reasoning: bool) -> (r: JsonValue)
    ensures
        r@ == levels_json(reasoning),
{
    if reasoning {
        let items = ["off", "minimal", "low", "medium", "high", "xhigh", "max"];
        let r = strings_value(&items);
        assert(items@.map_values(|x: &str| Json::Str(x@)) =~= all_thinking_levels().map_values(
            |x: Seq<char>| Json::Str(x),
        ));
        r
    } else {
        let items = ["off"];
        let r = strings_value(&items);
        assert(items@.map_values(|x: &str| Json::Str(x@)) =~= seq!["off"@].map_values(
            |x: Seq<char>| Json::Str(x),
        ));
        r
    }
}

pub open spec fn list_view(v: Seq<(String, String, String)>) -> Seq<(Seq<char>, Seq<char>, Seq<char>)> {
    v.map_values(|e: (String, String, String)| (e.0@, e.1@, e.2@))
}

fn listed_exec(list: &Vec<(String, String, String)>, provider: &str, id: &str) -> (b: bool)
    ensures
        b == listed(list_view(list@), provider@, id@),
{
    let ghost lv = list_view(list@);
    for i in 0..list.len()
        invariant
            lv == list_view(list@),
            forall|j: int| 0 <= j < i ==> !((#[trigger] lv[j]).2 == provider@ && lv[j].0 == id@),
    {
        if chars_eq(&chars_of(list[i].2.as_str()), &chars_of(provider)) && chars_eq(
            &chars_of(list[i].0.as_str()),
            &chars_of(id),
        ) {
            assert(lv[i as int].2 == provider@ && lv[i as int].0 == id@);
            return true;
        }
        assert(!(lv[i as int].2 == provider@ && lv[i as int].0 == id@));
    }
    false
}

/// The picker's data, read from the models in order.
pub struct PickerData {
    pub models: Vec<(String, JsonValue)>,
    pub list: Vec<(String, String, String)>,
    pub levels: Vec<(String, JsonValue)>,
    pub level_maps: Vec<(String, JsonValue)>,
}

pub open spec fn picker_view(d: PickerData) -> Picker {
    Picker {
        models: members_view(d.models@),
        list: list_view(d.list@),
        levels: members_view(d.levels@),
        level_maps: members_view(d.level_maps@),
    }
}

/// Reads the models into the picker's data.
pub fn picker_data(entries: Vec<ModelEntry>) -> (r: PickerData)
    ensures
        picker_view(r) == picker_of(records_view(entries@)),
{
    let ghost orig = entries@;
    let ghost rv = records_view(orig);
    let mut rest = entries;
    let mut d = PickerData { models: Vec::new(), list: Vec::new(), levels: Vec::new(), level_maps: Vec::new() };
    let mut n: usize = 0;
    assert(orig.len() == rest.len());
    assert(picker_view(d) =~= picker_of(rv.take(0)));
    while rest.len() > 0
        invariant
            n <= orig.len() <= usize::MAX,
            rest@ == orig.skip(n as int),
            rv == records_view(orig),
            picker_view(d) == picker_of(rv.take(n as int)),
        decreases rest.len(),
    {
        let e = rest.remove(0);
        assert(e == orig[n as int]);
        assert(rv.take(n + 1).drop_last() =~= rv.take(n as int));
        assert(rv.take(n + 1).last() == e@);
        let ghost prev = picker_view(d);
        let mut key = chars_of(e.provider.as_str());
        key.push(':');
        append_chars(&mut key, &chars_of(e.id.as_str()));
        assert(key@ =~= model_key(e@)) by {
            reveal_strlit(":");
        }
        let key = string_of(key.as_slice());
        insert_absent_exec(&mut d.models, string_of(chars_of(key.as_str()).as_slice()), JsonValue::Str(owned(e.name.as_str())));
        if !listed_exec(&d.list, e.provider.as_str(), e.id.as_str()) {
            let ghost item = (e.id@, e.name@, e.provider@);
            let ghost lb = list_view(d.list@);
            d.list.push((owned(e.id.as_str()), owned(e.name.as_str()), owned(e.provider.as_str())));
            assert(list_view(d.list@) =~= lb.push(item));
        }
        insert_absent_exec(&mut d.levels, string_of(chars_of(key.as_str()).as_slice()), levels_value(e.reasoning));
        match e.level_map {
            Some(t) => {
                object_insert(&mut d.level_maps, key, t);
            },
            None => {},
        }
        assert(picker_view(d) =~= picker_step(prev, e@));
        n += 1;
        assert(rest@ =~= orig.skip(n as int));
    }
    assert(rv.take(n as int) =~= rv);
    d
}


/// What the picker list is ordered by first: the lower-case name, or the
/// lower-case id when that is empty.
pub open spec fn sort_key(e: (Seq<char>, Seq<char>, Seq<char>)) -> Seq<char> {
    if lowercase(e.1).len() == 0 {
        lowercase(e.0)
    } else {
        lowercase(e.1)
    }
}

/// `a` comes before `b` in the picker list: by sort key, then lower-case
/// provider, then lower-case id (in `String` order).
pub open spec fn entry_before(a: (Seq<char>, Seq<char>, Seq<char>), b: (Seq<char>, Seq<char>, Seq<char>)) -> bool {
    ||| code_less(sort_key(a), sort_key(b))
    ||| sort_key(a) == sort_key(b) && code_less(lowercase(a.2), lowercase(b.2))
    ||| sort_key(a) == sort_key(b) && lowercase(a.2) == lowercase(b.2) && code_less(
        lowercase(a.0),
        lowercase(b.0),
    )
}

/// Inserts `x` after the last entry that it does not come before.
pub open spec fn insert_entry(
    s: Seq<(Seq<char>, Seq<char>, Seq<char>)>,
    x: (Seq<char>, Seq<char>, Seq<char>),
) -> Seq<(Seq<char>, Seq<char>, Seq<char>)>
    decreases s.len(),
{
    if s.len() == 0 {
        seq![x]
    } else if entry_before(x, s.last()) {
        insert_entry(s.drop_last(), x).push(s.last())
    } else {
        s.push(x)
    }
}

/// The picker list in order (a stable sort by [`entry_before`]).
pub open spec fn sort_entries(s: Seq<(Seq<char>, Seq<char>, Seq<char>)>) -> Seq<
    (Seq<char>, Seq<char>, Seq<char>),
>
    decreases s.len(),
{
    if s.len() == 0 {
        s
    } else {
        insert_entry(sort_entries(s.drop_last()), s.last())
    }
}

fn lower(s: &String) -> (r: Vec<char>)
    ensures
        r@ == lowercase(s@),
{
    chars_of(to_lowercase(s.as_str()).as_str())
}

fn entry_before_exec(a: &(String, String, String), b: &(String, String, String)) -> (r: bool)
    ensures
        r == entry_before((a.0@, a.1@, a.2@), (b.0@, b.1@, b.2@)),
{
    let an = lower(&a.1);
    let bn = lower(&b.1);
    let ai = lower(&a.0);
    let bi = lower(&b.0);
    let ak = if an.len() == 0 { sub_copy(&ai) } else { an };
    let bk = if bn.len() == 0 { sub_copy(&bi) } else { bn };
    if code_less_exec(&ak, &bk) {
        return true;
    }
    if !chars_eq(&ak, &bk) {
        return false;
    }
    let ap = lower(&a.2);
    let bp = lower(&b.2);
    if code_less_exec(&ap, &bp) {
        return true;
    }
    chars_eq(&ap, &bp) && code_less_exec(&ai, &bi)
}

fn sub_copy(v: &Vec<char>) -> (r: Vec<char>)
    ensures
        r@ == v@,
{
    let mut r: Vec<char> = Vec::new();
    append_chars(&mut r, v);
    r
}

fn insert_entry_exec(v: &mut Vec<(String, String, String)>, x: (String, String, String))
    ensures
        list_view(final(v)@) == insert_entry(list_view(old(v)@), (x.0@, x.1@, x.2@)),
{
    let ghost xs = list_view(v@);
    let ghost xv = (x.0@, x.1@, x.2@);
    let mut j: usize = v.len();
    assert(xs.take(j as int) =~= xs && xs.skip(j as int) =~= Seq::<(Seq<char>, Seq<char>, Seq<char>)>::empty());
    while j > 0 && entry_before_exec(&x, &v[j - 1])
        invariant
            j <= v.len(),
            xs == list_view(v@),
            xv == (x.0@, x.1@, x.2@),
            insert_entry(xs, xv) == insert_entry(xs.take(j as int), xv) + xs.skip(j as int),
        decreases j,
    {
        assert(xs.take(j as int).drop_last() =~= xs.take(j - 1));
        assert(xs.skip(j - 1) =~= seq![xs[j - 1]] + xs.skip(j as int));
        assert(xs.take(j as int).last() == xs[j - 1]);
        assert(insert_entry(xs.take(j - 1), xv).push(xs[j - 1]) + xs.skip(j as int)
            =~= insert_entry(xs.take(j - 1), xv) + xs.skip(j - 1));
        j -= 1;
    }
    v.insert(j, x);
    assert(list_view(v@) =~= xs.take(j as int).push(xv) + xs.skip(j as int));
}

/// One entry of the picker list: `{id, name, provider}`.
pub open spec fn entry_json(e: (Seq<char>, Seq<char>, Seq<char>)) -> Json {
    Json::Object(seq![("id"@, Json::Str(e.0)), ("name"@, Json::Str(e.1)), ("provider"@, Json::Str(e.2))])
}

/// The picker's data: `defaultModel` (`{modelId, provider}` or `null`),
/// `modelList` in order, `models` (names by key), `thinkingLevelMaps`,
/// `thinkingLevelPins` (none) and `thinkingLevels`. The maps keyed by model
/// list their members in the order the models were first read.
pub open spec fn models_answer(config: Json, default_model: Option<(Seq<char>, Seq<char>)>) -> Json {
    let p = picker_of(all_model_records(config));
    Json::Object(
        seq![
            ("defaultModel"@, match default_model {
                Some((provider, model)) => Json::Object(
                    seq![("modelId"@, Json::Str(model)), ("provider"@, Json::Str(provider))],
                ),
                None => Json::Null,
            }),
            ("modelList"@, Json::Array(
                sort_entries(p.list).map_values(
                    |e: (Seq<char>, Seq<char>, Seq<char>)| entry_json(e),
                ),
            )),
            ("models"@, Json::Object(p.models)),
            ("thinkingLevelMaps"@, Json::Object(p.level_maps)),
            ("thinkingLevelPins"@, Json::Object(seq![])),
            ("thinkingLevels"@, Json::Object(p.levels)),
        ],
    )
}

/// The view of an optional (provider, model) pair.
pub open spec fn pair_view(p: Option<(&str, &str)>) -> Option<(Seq<char>, Seq<char>)> {
    match p {
        Some((a, b)) => Some((a@, b@)),
        None => None,
    }
}

/// Assembles the picker's data from the configuration and the default
/// model (provider, model id) when there is one.
pub fn models_list_answer(config: &JsonValue, default_model: Option<(&str, &str)>) -> (r: JsonValue)
    ensures
        r@ == models_answer(config@, pair_view(default_model)),
{
    let d = picker_data(model_entries(config));
    let ghost p = picker_view(d);
    let PickerData { models, list, levels, level_maps } = d;
    let mut sorted: Vec<(String, String, String)> = Vec::new();
    let ghost lv = list_view(list@);
    let mut rest = list;
    let ghost all = rest@;
    let mut n: usize = 0;
    assert(all.len() == rest.len());
    assert(lv.take(0) =~= Seq::<(Seq<char>, Seq<char>, Seq<char>)>::empty());
    while rest.len() > 0
        invariant
            n <= all.len() <= usize::MAX,
            rest@ == all.skip(n as int),
            lv == list_view(all),
            list_view(sorted@) == sort_entries(lv.take(n as int)),
        decreases rest.len(),
    {
        let x = rest.remove(0);
        assert(x == all[n as int]);
        assert(lv.take(n + 1).drop_last() =~= lv.take(n as int));
        assert(lv.take(n + 1).last() == (x.0@, x.1@, x.2@));
        insert_entry_exec(&mut sorted, x);
        n += 1;
        assert(rest@ =~= all.skip(n as int));
    }
    assert(lv.take(n as int) =~= lv);
    let ghost sv = list_view(sorted@);
    let ghost want = sv.map_values(|e: (Seq<char>, Seq<char>, Seq<char>)| entry_json(e));
    let mut items: Vec<JsonValue> = Vec::new();
    for i in 0..sorted.len()
        invariant
            sv == list_view(sorted@),
            want == sv.map_values(|e: (Seq<char>, Seq<char>, Seq<char>)| entry_json(e)),
            items_view(items@) == want.take(i as int),
    {
        let es = vec![
            (owned("id"), JsonValue::Str(owned(sorted[i].0.as_str()))),
            (owned("name"), JsonValue::Str(owned(sorted[i].1.as_str()))),
            (owned("provider"), JsonValue::Str(owned(sorted[i].2.as_str()))),
        ];
        proof {
            lemma_object_view(es);
        }
        assert(members_view(es@) =~= want[i as int]->Object_0);
        let ghost before = items_view(items@);
        items.push(JsonValue::Object(es));
        assert(items_view(items@) =~= before.push(want[i as int]));
        assert(want.take(i + 1) =~= want.take(i as int).push(want[i as int]));
    }
    assert(want.take(sorted.len() as int) =~= want);
    proof {
        lemma_array_view(items);
        lemma_object_view(models);
        lemma_object_view(levels);
        lemma_object_view(level_maps);
    }
    let default_value = match default_model {
        Some((provider, model)) => {
            let es = vec![
                (owned("modelId"), JsonValue::Str(owned(model))),
                (owned("provider"), JsonValue::Str(owned(provider))),
            ];
            proof {
                lemma_object_view(es);
            }
            assert(members_view(es@) =~= seq![("modelId"@, Json::Str(model@)), ("provider"@, Json::Str(provider@))]);
            JsonValue::Object(es)
        },
        None => JsonValue::Null,
    };
    let pins: Vec<(String, JsonValue)> = Vec::new();
    proof {
        lemma_object_view(pins);
    }
    assert(members_view(pins@) =~= Seq::<(Seq<char>, Json)>::empty());
    let es = vec![
        (owned("defaultModel"), default_value),
        (owned("modelList"), JsonValue::Array(items)),
        (owned("models"), JsonValue::Object(models)),
        (owned("thinkingLevelMaps"), JsonValue::Object(level_maps)),
        (owned("thinkingLevelPins"), JsonValue::Object(pins)),
        (owned("thinkingLevels"), JsonValue::Object(levels)),
    ];
    proof {
        lemma_object_view(es);
    }
    assert(members_view(es@) =~= models_answer(config@, pair_view(default_model))->Object_0);
    JsonValue::Object(es)
}

/// A working directory given to the model list must exist and be a
/// directory (both 400).
pub fn check_models_cwd(shown: &str, exists: bool, is_dir: bool) -> (r: Result<(), ApiError>)
    ensures
        !exists ==> (r matches Err(e) && e.status == 400 && e.message@
            == "Directory does not exist: "@ + shown@),
        exists && !is_dir ==> (r matches Err(e) && e.status == 400 && e.message@
            == "Not a directory: "@ + shown@),
        exists && is_dir ==> r is Ok,
{
    if !exists {
        let mut m = chars_of("Directory does not exist: ");
        append_chars(&mut m, &chars_of(shown));
        Err(ApiError::new(400, string_of(m.as_slice()).as_str()))
    } else if !is_dir {
        let mut m = chars_of("Not a directory: ");
        append_chars(&mut m, &chars_of(shown));
        Err(ApiError::new(400, string_of(m.as_slice()).as_str()))
    } else {
        Ok(())
    }
}

/// The configuration a `PUT` writes: the `config` argument (`{}` when
/// missing), which must be an object (400).
pub fn models_config_arg(args: &JsonValue) -> (r: Result<JsonValue, ApiError>)
    ensures
        match json_get(args@, "config"@) {
            None => r matches Ok(v) && v@ == Json::Object(seq![]),
            Some(Json::Object(es)) => r matches Ok(v) && v@ == Json::Object(es),
            Some(_) => r matches Err(e) && e.status == 400 && e.message@
                == "config must be an object"@,
        },
{
    match args.get("config") {
        None => {
            let es: Vec<(String, JsonValue)> = Vec::new();
            proof {
                lemma_object_view(es);
            }
            assert(members_view(es@) =~= Seq::<(Seq<char>, Json)>::empty());
            Ok(JsonValue::Object(es))
        },
        Some(c) => match c {
            JsonValue::Object(_) => Ok(copy_json(c)),
            _ => Err(ApiError::new(400, "config must be an object")),
        },
    }
}

/// The agent directory that the environment names: its value without
/// trailing `/`, unless that is empty.
pub fn agent_dir_of(env_value: Option<&str>) -> (r: Option<String>)
    ensures
        match env_value {
            Some(v) => if trim_end_char(v@, '/').len() > 0 {
                r matches Some(d) && d@ == trim_end_char(v@, '/')
            } else {
                r is None
            },
            None => r is None,
        },
{
    match env_value {
        Some(v) => {
            let t = trim_end_char_exec(&chars_of(v), '/');
            if t.len() > 0 {
                Some(string_of(t.as_slice()))
            } else {
                None
            }
        },
        None => None,
    }
}


proof fn lemma_order_facts(x: Seq<char>, y: Seq<char>, z: Seq<char>)
    ensures
        x == y || code_less(x, y) || code_less(y, x),
        y == z || code_less(y, z) || code_less(z, y),
        x == z || code_less(x, z) || code_less(z, x),
        !code_less(x, x) && !code_less(y, y) && !code_less(z, z),
        code_less(x, y) && code_less(y, z) ==> code_less(x, z),
        code_less(z, y) && code_less(y, x) ==> code_less(z, x),
        code_less(y, x) && code_less(x, z) ==> code_less(y, z),
        code_less(z, x) && code_less(x, y) ==> code_less(z, y),
        code_less(x, z) && code_less(z, y) ==> code_less(x, y),
        code_less(y, z) && code_less(z, x) ==> code_less(y, x),
        !(code_less(x, y) && code_less(y, x)),
        !(code_less(y, z) && code_less(z, y)),
        !(code_less(x, z) && code_less(z, x)),
{
    lemma_code_less_total(x, y);
    lemma_code_less_total(y, z);
    lemma_code_less_total(x, z);
    lemma_code_less_irreflexive(x);
    lemma_code_less_irreflexive(y);
    lemma_code_less_irreflexive(z);
    if code_less(x, y) && code_less(y, z) {
        lemma_code_less_transitive(x, y, z);
    }
    if code_less(z, y) && code_less(y, x) {
        lemma_code_less_transitive(z, y, x);
    }
    if code_less(y, x) && code_less(x, z) {
        lemma_code_less_transitive(y, x, z);
    }
    if code_less(z, x) && code_less(x, y) {
        lemma_code_less_transitive(z, x, y);
    }
    if code_less(x, z) && code_less(z, y) {
        lemma_code_less_transitive(x, z, y);
    }
    if code_less(y, z) && code_less(z, x) {
        lemma_code_less_transitive(y, z, x);
    }
    if code_less(x, y) && code_less(y, x) {
        lemma_code_less_transitive(x, y, x);
    }
    if code_less(y, z) && code_less(z, y) {
        lemma_code_less_transitive(y, z, y);
    }
    if code_less(x, z) && code_less(z, x) {
        lemma_code_less_transitive(x, z, x);
    }
}

/// Not after: `a` may stand before `b` in the picker list.
pub open spec fn entry_le(a: (Seq<char>, Seq<char>, Seq<char>), b: (Seq<char>, Seq<char>, Seq<char>)) -> bool {
    !entry_before(b, a)
}

proof fn lemma_entry_order(
    a: (Seq<char>, Seq<char>, Seq<char>),
    b: (Seq<char>, Seq<char>, Seq<char>),
    c: (Seq<char>, Seq<char>, Seq<char>),
)
    ensures
        entry_before(a, b) ==> !entry_before(b, a),
        entry_le(a, b) && entry_le(b, c) ==> entry_le(a, c),
{
    lemma_order_facts(sort_key(a), sort_key(b), sort_key(c));
    lemma_order_facts(lowercase(a.2), lowercase(b.2), lowercase(c.2));
    lemma_order_facts(lowercase(a.0), lowercase(b.0), lowercase(c.0));
}

/// A picker list in order: each entry may stand before the next.
pub open spec fn entries_sorted(s: Seq<(Seq<char>, Seq<char>, Seq<char>)>) -> bool {
    forall|i: int, j: int| 0 <= i < j < s.len() ==> entry_le(#[trigger] s[i], #[trigger] s[j])
}

proof fn lemma_insert_entry(
    s: Seq<(Seq<char>, Seq<char>, Seq<char>)>,
    x: (Seq<char>, Seq<char>, Seq<char>),
)
    requires
        entries_sorted(s),
    ensures
        entries_sorted(insert_entry(s, x)),
        insert_entry(s, x).to_multiset() == s.to_multiset().insert(x),
    decreases s.len(),
{
    broadcast use vstd::seq_lib::group_to_multiset_ensures;

    if s.len() == 0 {
        assert(seq![x] =~= Seq::<(Seq<char>, Seq<char>, Seq<char>)>::empty().push(x));
    } else {
        let p = s.drop_last();
        let last = s.last();
        assert(s =~= p.push(last));
        assert(entries_sorted(p)) by {
            assert forall|i: int, j: int| 0 <= i < j < p.len() implies entry_le(
                #[trigger] p[i],
                #[trigger] p[j],
            ) by {
                assert(p[i] == s[i] && p[j] == s[j]);
            }
        }
        if entry_before(x, last) {
            lemma_insert_entry(p, x);
            let q = insert_entry(p, x);
            assert forall|k: int| 0 <= k < q.len() implies entry_le(#[trigger] q[k], last) by {
                assert(q.to_multiset().count(q[k]) > 0);
                if q[k] == x {
                    lemma_entry_order(x, last, x);
                } else {
                    assert(p.to_multiset().count(q[k]) > 0);
                    assert(p.contains(q[k]));
                    let m = choose|m: int| 0 <= m < p.len() && p[m] == q[k];
                    assert(s[m] == q[k] && s[s.len() - 1] == last);
                }
            }
            let r = q.push(last);
            assert forall|i: int, j: int| 0 <= i < j < r.len() implies entry_le(
                #[trigger] r[i],
                #[trigger] r[j],
            ) by {
                if j == q.len() {
                    assert(r[i] == q[i]);
                } else {
                    assert(r[i] == q[i] && r[j] == q[j]);
                }
            }
        } else {
            let r = s.push(x);
            assert forall|i: int, j: int| 0 <= i < j < r.len() implies entry_le(
                #[trigger] r[i],
                #[trigger] r[j],
            ) by {
                if j == s.len() {
                    assert(r[i] == s[i]);
                    if i < s.len() - 1 {
                        lemma_entry_order(s[i], last, x);
                    }
                } else {
                    assert(r[i] == s[i] && r[j] == s[j]);
                }
            }
        }
    }
}

/// The picker list comes out ordered by name (or id), provider and id,
/// and holds each listed model as often as it was listed.
pub proof fn law_model_list_sorted(s: Seq<(Seq<char>, Seq<char>, Seq<char>)>)
    ensures
        entries_sorted(sort_entries(s)),
        sort_entries(s).to_multiset() == s.to_multiset(),
    decreases s.len(),
{
    broadcast use vstd::seq_lib::group_to_multiset_ensures;

    if s.len() > 0 {
        law_model_list_sorted(s.drop_last());
        lemma_insert_entry(sort_entries(s.drop_last()), s.last());
        assert(s =~= s.drop_last().push(s.last()));
    }
}


/// No model (provider and id) stands twice in a list.
pub open spec fn list_distinct(l: Seq<(Seq<char>, Seq<char>, Seq<char>)>) -> bool {
    forall|i: int, j: int|
        0 <= i < j < l.len() ==> !((#[trigger] l[i]).2 == (#[trigger] l[j]).2 && l[i].0 == l[j].0)
}

/// The picker lists each model of the configuration once, however often
/// the configuration repeats it.
pub proof fn law_model_list_distinct(rs: Seq<ModelRecord>)
    ensures
        list_distinct(picker_of(rs).list),
    decreases rs.len(),
{
    if rs.len() > 0 {
        law_model_list_distinct(rs.drop_last());
        let prev = picker_of(rs.drop_last()).list;
        let r = rs.last();
        if !listed(prev, r.provider, r.id) {
            let l = prev.push((r.id, r.name, r.provider));
            assert forall|i: int, j: int| 0 <= i < j < l.len() implies !((#[trigger] l[i]).2 == (
            #[trigger] l[j]).2 && l[i].0 == l[j].0) by {
                assert(l[i] == prev[i]);
                if j < prev.len() {
                    assert(l[j] == prev[j]);
                } else {
                    assert(!(prev[i].2 == r.provider && prev[i].0 == r.id));
                }
            }
        }
    }
}


/// A model's shown name: its `name` when that is a string, else its id; so
/// a model with an id but no name is shown by its id.
pub proof fn law_model_name(provider: Seq<char>, m: Json)
    ensures
        match json_get(m, "id"@) {
            Some(Json::Str(id)) => id.len() > 0 ==> (model_record(provider, m) matches Some(r) && r.id
                == id && r.provider == provider && match json_get(m, "name"@) {
                Some(Json::Str(n)) => r.name == n,
                _ => r.name == id,
            }),
            _ => model_record(provider, m) is None,
        },
{
}

/// Reading a model whose key is new gives the picker its name under
/// `provider:id`, and a model not yet listed is listed with that name.
pub proof fn law_picker_names(s: Picker, r: ModelRecord)
    ensures
        member_index(s.models, r.provider + ":"@ + r.id) is None ==> picker_step(s, r).models
            == s.models.push((r.provider + ":"@ + r.id, Json::Str(r.name))),
        !listed(s.list, r.provider, r.id) ==> picker_step(s, r).list == s.list.push(
            (r.id, r.name, r.provider),
        ),
{
}

} // verus!
