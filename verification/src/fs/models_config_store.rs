//! The `models.json` configuration file: where it lives, and the clean-up
//! applied to its model lists before it is written.

use vstd::prelude::*;
use crate::json::{
    distinct_names, find_member, json_view, items_view, lemma_array_view, lemma_member_index,
    lemma_object_view, lemma_set_member_index, member, member_index, members_view, set_member, Json,
    JsonNumber, JsonValue, NumberView,
};
use crate::text::{append_chars, chars_of, string_of, trim, trim_exec};

verus! {

broadcast use vstd::string::group_string_axioms;

/// `Path::join` of a relative path on a POSIX host: `rel` after `base`,
/// with one `/` between them unless `base` is empty or already ends with
/// `/`.
pub open spec fn path_join(base: Seq<char>, rel: Seq<char>) -> Seq<char> {
    if base.len() == 0 {
        rel
    } else if base.last() == '/' {
        base + rel
    } else {
        base.push('/') + rel
    }
}

pub(crate) fn path_join_exec(base: &Vec<char>, rel: &Vec<char>) -> (r: Vec<char>)
    ensures
        r@ == path_join(base@, rel@),
{
    let mut out = crate::text::sub_vec(base, 0, base.len());
    assert(out@ =~= base@);
    if base.len() > 0 && base[base.len() - 1] != '/' {
        out.push('/');
    }
    append_chars(&mut out, rel);
    out
}

/// Where `models.json` lives: in `agent_dir` when given, else in
/// `<home>/.pi/agent`.
pub open spec fn models_config_path(agent_dir: Option<Seq<char>>, home: Seq<char>) -> Seq<char> {
    let dir = match agent_dir {
        Some(d) => d,
        None => path_join(home, ".pi/agent"@),
    };
    path_join(dir, "models.json"@)
}

/// The path of `models.json`.
pub fn get_models_config_path(agent_dir: Option<&str>, home: &str) -> (r: String)
    ensures
        r@ == models_config_path(
            match agent_dir {
                Some(d) => Some(d@),
                None => None,
            },
            home@,
        ),
{
    let dir = match agent_dir {
        Some(d) => chars_of(d),
        None => path_join_exec(&chars_of(home), &chars_of(".pi/agent")),
    };
    let p = path_join_exec(&dir, &chars_of("models.json"));
    string_of(p.as_slice())
}

/// A model is kept unless it is an object whose `id` is a string of
/// whitespace only.
pub open spec fn keeps_model(m: Json) -> bool {
    match m {
        Json::Object(es) => match member(es, "id"@) {
            Some(Json::Str(id)) => trim(id).len() > 0,
            _ => true,
        },
        _ => true,
    }
}

/// The models that `keeps_model` keeps, in order.
pub open spec fn kept_models(ms: Seq<Json>) -> Seq<Json>
    decreases ms.len(),
{
    if ms.len() == 0 {
        ms
    } else if keeps_model(ms.last()) {
        kept_models(ms.drop_last()).push(ms.last())
    } else {
        kept_models(ms.drop_last())
    }
}

/// The `0` that fills a missing cost field.
pub open spec fn zero() -> Json {
    Json::Number(NumberView::PosInt(0))
}

pub open spec fn has_member(es: Seq<(Seq<char>, Json)>, key: Seq<char>) -> bool {
    member_index(es, key) is Some
}

/// The member `key` is absent or a number (a number of a JSON document is
/// always finite).
pub open spec fn number_or_absent(es: Seq<(Seq<char>, Json)>, key: Seq<char>) -> bool {
    match member(es, key) {
        Some(v) => v is Number,
        None => true,
    }
}

/// The members with `key: 0` added at the end when `key` is missing.
pub open spec fn with_default(es: Seq<(Seq<char>, Json)>, key: Seq<char>) -> Seq<(Seq<char>, Json)> {
    if has_member(es, key) {
        es
    } else {
        es.push((key, zero()))
    }
}

/// A cost group with its missing fields set to `0`: `None` when the value
/// is not an object, has none of the four cost fields, or has one that is
/// not a number.
pub open spec fn normalized_cost(c: Json) -> Option<Json> {
    match c {
        Json::Object(es) => if !(has_member(es, "input"@) || has_member(es, "output"@)
            || has_member(es, "cacheRead"@) || has_member(es, "cacheWrite"@)) {
            None
        } else if !(number_or_absent(es, "input"@) && number_or_absent(es, "output"@)
            && number_or_absent(es, "cacheRead"@) && number_or_absent(es, "cacheWrite"@)) {
            None
        } else {
            Some(
                Json::Object(
                    with_default(
                        with_default(
                            with_default(with_default(es, "input"@), "output"@),
                            "cacheRead"@,
                        ),
                        "cacheWrite"@,
                    ),
                ),
            )
        },
        _ => None,
    }
}

/// A model whose `cost` is normalised, or removed when it cannot be.
pub open spec fn normalized_model(m: Json) -> Json {
    match m {
        Json::Object(es) => match member_index(es, "cost"@) {
            Some(i) => match normalized_cost(es[i].1) {
                Some(nc) => Json::Object(set_member(es, i, nc)),
                None => Json::Object(es.remove(i)),
            },
            None => m,
        },
        _ => m,
    }
}

/// The two edits made to every `providers.*.models` list.
#[derive(Clone, Copy, Debug, PartialEq, Eq, Structural)]
pub enum ModelsEdit {
    /// Drop the models whose `id` is blank.
    DropBlankIds,
    /// Complete or drop each model's `cost`.
    FillCosts,
}

/// A model list after an edit.
pub open spec fn edited_models(edit: ModelsEdit, ms: Seq<Json>) -> Seq<Json> {
    match edit {
        ModelsEdit::DropBlankIds => kept_models(ms),
        ModelsEdit::FillCosts => ms.map_values(|m: Json| normalized_model(m)),
    }
}

/// A provider whose `models` array is edited; any other value unchanged.
pub open spec fn edited_provider(edit: ModelsEdit, p: Json) -> Json {
    match p {
        Json::Object(es) => match member_index(es, "models"@) {
            Some(i) => match es[i].1 {
                Json::Array(ms) => Json::Object(set_member(es, i, Json::Array(edited_models(edit, ms)))),
                _ => p,
            },
            None => p,
        },
        _ => p,
    }
}

/// A configuration whose `providers` object has each provider edited; any
/// other document unchanged.
pub open spec fn edited_config(edit: ModelsEdit, d: Json) -> Json {
    match d {
        Json::Object(es) => match member_index(es, "providers"@) {
            Some(i) => match es[i].1 {
                Json::Object(ps) => Json::Object(
                    set_member(
                        es,
                        i,
                        Json::Object(
                            ps.map_values(
                                |e: (Seq<char>, Json)| (e.0, edited_provider(edit, e.1)),
                            ),
                        ),
                    ),
                ),
                _ => d,
            },
            None => d,
        },
        _ => d,
    }
}

proof fn lemma_kept_models_kept(ms: Seq<Json>)
    ensures
        forall|j: int|
            0 <= j < kept_models(ms).len() ==> keeps_model(#[trigger] kept_models(ms)[j]),
    decreases ms.len(),
{
    if ms.len() > 0 {
        lemma_kept_models_kept(ms.drop_last());
        let r = kept_models(ms.drop_last());
        if keeps_model(ms.last()) {
            assert forall|j: int| 0 <= j < r.push(ms.last()).len() implies keeps_model(
                #[trigger] r.push(ms.last())[j],
            ) by {
                if j < r.len() {
                    assert(r.push(ms.last())[j] == r[j]);
                }
            }
        }
    }
}

proof fn lemma_kept_models_fixed(ms: Seq<Json>)
    requires
        forall|j: int| 0 <= j < ms.len() ==> keeps_model(#[trigger] ms[j]),
    ensures
        kept_models(ms) == ms,
    decreases ms.len(),
{
    if ms.len() > 0 {
        lemma_kept_models_fixed(ms.drop_last());
        assert(ms.drop_last().push(ms.last()) =~= ms);
    }
}

proof fn lemma_set_member_twice(es: Seq<(Seq<char>, Json)>, i: int, a: Json, b: Json)
    requires
        0 <= i < es.len(),
    ensures
        set_member(set_member(es, i, a), i, b) == set_member(es, i, b),
{
    assert(set_member(set_member(es, i, a), i, b) =~= set_member(es, i, b));
}

/// The `models` array of a provider, if it has one.
pub open spec fn models_of(p: Json) -> Option<Seq<Json>> {
    match p {
        Json::Object(es) => match member_index(es, "models"@) {
            Some(i) => match es[i].1 {
                Json::Array(ms) => Some(ms),
                _ => None,
            },
            None => None,
        },
        _ => None,
    }
}

/// The `providers` object of a configuration, if it has one.
pub open spec fn providers_of(d: Json) -> Option<Seq<(Seq<char>, Json)>> {
    match d {
        Json::Object(es) => match member_index(es, "providers"@) {
            Some(i) => match es[i].1 {
                Json::Object(ps) => Some(ps),
                _ => None,
            },
            None => None,
        },
        _ => None,
    }
}

proof fn lemma_edited_provider_twice(edit: ModelsEdit, p: Json)
    requires
        match models_of(p) {
            Some(ms) => edited_models(edit, edited_models(edit, ms)) == edited_models(edit, ms),
            None => true,
        },
    ensures
        edited_provider(edit, edited_provider(edit, p)) == edited_provider(edit, p),
{
    if let Json::Object(es) = p {
        if let Some(i) = member_index(es, "models"@) {
            lemma_member_index(es, "models"@);
            if let Json::Array(ms) = es[i].1 {
                let a = Json::Array(edited_models(edit, ms));
                lemma_set_member_index(es, i, a, "models"@);
                lemma_set_member_twice(
                    es,
                    i,
                    a,
                    Json::Array(edited_models(edit, edited_models(edit, ms))),
                );
            }
        }
    }
}

proof fn lemma_edited_config_twice(edit: ModelsEdit, d: Json)
    requires
        providers_of(d) is Some ==> forall|j: int|
            0 <= j < providers_of(d)->0.len() ==> #[trigger] edited_provider(
                edit,
                edited_provider(edit, providers_of(d)->0[j].1),
            ) == edited_provider(edit, providers_of(d)->0[j].1),
    ensures
        edited_config(edit, edited_config(edit, d)) == edited_config(edit, d),
{
    if let Json::Object(es) = d {
        if let Some(i) = member_index(es, "providers"@) {
            lemma_member_index(es, "providers"@);
            if let Json::Object(ps) = es[i].1 {
                assert(providers_of(d) == Some(ps));
                let f = |e: (Seq<char>, Json)| (e.0, edited_provider(edit, e.1));
                let ps1 = ps.map_values(f);
                lemma_set_member_index(es, i, Json::Object(ps1), "providers"@);
                assert(ps1.map_values(f) =~= ps1) by {
                    assert forall|j: int| 0 <= j < ps1.len() implies ps1.map_values(f)[j]
                        == ps1[j] by {
                        assert(providers_of(d)->0 == ps);
                        assert(providers_of(d)->0[j] == ps[j]);
                        assert(edited_provider(edit, edited_provider(edit, ps[j].1))
                            == edited_provider(edit, ps[j].1));
                    }
                }
                lemma_set_member_twice(es, i, Json::Object(ps1), Json::Object(ps1.map_values(f)));
            }
        }
    }
}

/// Sanitizing a configuration a second time changes nothing: the models
/// left all have an `id` that is not blank, or none that is a string.
pub proof fn law_sanitize_idempotent(d: Json)
    ensures
        edited_config(ModelsEdit::DropBlankIds, edited_config(ModelsEdit::DropBlankIds, d))
            == edited_config(ModelsEdit::DropBlankIds, d),
{
    assert forall|p: Json|
        #[trigger] edited_provider(
            ModelsEdit::DropBlankIds,
            edited_provider(ModelsEdit::DropBlankIds, p),
        ) == edited_provider(ModelsEdit::DropBlankIds, p) by {
        if let Some(ms) = models_of(p) {
            lemma_kept_models_kept(ms);
            lemma_kept_models_fixed(kept_models(ms));
        }
        lemma_edited_provider_twice(ModelsEdit::DropBlankIds, p);
    }
    lemma_edited_config_twice(ModelsEdit::DropBlankIds, d);
}

proof fn lemma_member_index_push(es: Seq<(Seq<char>, Json)>, x: (Seq<char>, Json), key: Seq<char>)
    ensures
        member_index(es.push(x), key) == match member_index(es, key) {
            Some(i) => Some(i),
            None => if x.0 == key {
                Some(es.len() as int)
            } else {
                None
            },
        },
{
    lemma_member_index(es, key);
    lemma_member_index(es.push(x), key);
    match (member_index(es, key), member_index(es.push(x), key)) {
        (Some(a), Some(b)) => {
            if a < b {
                assert(es.push(x)[a] == es[a]);
            } else if b < a {
                assert(es.push(x)[b] == es[b]);
            }
        },
        (Some(a), None) => {
            assert(es.push(x)[a] == es[a]);
        },
        (None, Some(b)) => {
            if b < es.len() {
                assert(es.push(x)[b] == es[b]);
            }
        },
        (None, None) => {
            assert(es.push(x)[es.len() as int] == x);
        },
    }
}

proof fn lemma_with_default(es: Seq<(Seq<char>, Json)>, added: Seq<char>, key: Seq<char>)
    ensures
        has_member(es, key) ==> has_member(with_default(es, added), key),
        has_member(with_default(es, key), key),
        number_or_absent(es, key) ==> number_or_absent(with_default(es, added), key),
{
    lemma_member_index_push(es, (added, zero()), key);
    lemma_member_index_push(es, (key, zero()), key);
    lemma_member_index(es, key);
    if !has_member(es, added) && member_index(es, key) is None && added == key {
        assert(es.push((added, zero()))[es.len() as int] == (added, zero()));
    }
}

proof fn lemma_with_default_all(es: Seq<(Seq<char>, Json)>, added: Seq<char>)
    ensures
        forall|key: Seq<char>|
            #![trigger has_member(with_default(es, added), key)]
            #![trigger number_or_absent(with_default(es, added), key)]
            (has_member(es, key) ==> has_member(with_default(es, added), key)) && (
            number_or_absent(es, key) ==> number_or_absent(with_default(es, added), key)),
        has_member(with_default(es, added), added),
{
    assert forall|key: Seq<char>|
        #![trigger has_member(with_default(es, added), key)]
        #![trigger number_or_absent(with_default(es, added), key)]
        (has_member(es, key) ==> has_member(with_default(es, added), key)) && (number_or_absent(
            es,
            key,
        ) ==> number_or_absent(with_default(es, added), key)) by {
        lemma_with_default(es, added, key);
    }
    lemma_with_default(es, added, added);
}

proof fn lemma_cost_settles(c: Json)
    ensures
        match normalized_cost(c) {
            Some(nc) => normalized_cost(nc) == Some(nc),
            None => true,
        },
{
    if let Some(nc) = normalized_cost(c) {
        if let Json::Object(es) = c {
            let w1 = with_default(es, "input"@);
            let w2 = with_default(w1, "output"@);
            let w3 = with_default(w2, "cacheRead"@);
            let w4 = with_default(w3, "cacheWrite"@);
            lemma_with_default_all(es, "input"@);
            lemma_with_default_all(w1, "output"@);
            lemma_with_default_all(w2, "cacheRead"@);
            lemma_with_default_all(w3, "cacheWrite"@);
            assert(has_member(w4, "input"@));
            assert(has_member(w4, "output"@));
            assert(has_member(w4, "cacheRead"@));
            assert(has_member(w4, "cacheWrite"@));
            assert(number_or_absent(w4, "input"@));
            assert(number_or_absent(w4, "output"@));
            assert(number_or_absent(w4, "cacheRead"@));
            assert(number_or_absent(w4, "cacheWrite"@));
        }
    }
}

proof fn lemma_model_settles(m: Json)
    requires
        distinct_names(m),
    ensures
        normalized_model(normalized_model(m)) == normalized_model(m),
{
    if let Json::Object(es) = m {
        if let Some(i) = member_index(es, "cost"@) {
            lemma_member_index(es, "cost"@);
            match normalized_cost(es[i].1) {
                Some(nc) => {
                    lemma_cost_settles(es[i].1);
                    lemma_set_member_index(es, i, nc, "cost"@);
                    lemma_set_member_twice(es, i, nc, nc);
                },
                None => {
                    let r = es.remove(i);
                    lemma_member_index(r, "cost"@);
                    assert forall|j: int| 0 <= j < r.len() implies r[j].0 != "cost"@ by {
                        if j < i {
                            assert(r[j] == es[j]);
                        } else {
                            assert(r[j] == es[j + 1]);
                            assert(es[i].0 != es[j + 1].0);
                        }
                    }
                },
            }
        }
    }
}

/// Normalizing the costs of a configuration a second time changes
/// nothing, for a document whose objects have distinct member names (as
/// every document read from JSON text has).
pub proof fn law_normalize_idempotent(d: Json)
    requires
        distinct_names(d),
    ensures
        edited_config(ModelsEdit::FillCosts, edited_config(ModelsEdit::FillCosts, d))
            == edited_config(ModelsEdit::FillCosts, d),
{
    let f = |m: Json| normalized_model(m);
    if let Some(ps) = providers_of(d) {
        if let Json::Object(es) = d {
            let i = member_index(es, "providers"@)->0;
            lemma_member_index(es, "providers"@);
            assert(distinct_names(es[i].1));
        }
        assert forall|j: int| 0 <= j < ps.len() implies #[trigger] edited_provider(
            ModelsEdit::FillCosts,
            edited_provider(ModelsEdit::FillCosts, ps[j].1),
        ) == edited_provider(ModelsEdit::FillCosts, ps[j].1) by {
            let p = ps[j].1;
            assert(distinct_names(p));
            if let Some(ms) = models_of(p) {
                if let Json::Object(pes) = p {
                    let k = member_index(pes, "models"@)->0;
                    lemma_member_index(pes, "models"@);
                    assert(distinct_names(pes[k].1));
                }
                assert(ms.map_values(f).map_values(f) =~= ms.map_values(f)) by {
                    assert forall|a: int| 0 <= a < ms.len() implies ms.map_values(f).map_values(
                        f,
                    )[a] == ms.map_values(f)[a] by {
                        assert(distinct_names(ms[a]));
                        lemma_model_settles(ms[a]);
                    }
                }
            }
            lemma_edited_provider_twice(ModelsEdit::FillCosts, p);
        }
    }
    lemma_edited_config_twice(ModelsEdit::FillCosts, d);
}

fn keeps_model_exec(m: &JsonValue) -> (b: bool)
    ensures
        b == keeps_model(m@),
{
    match m {
        JsonValue::Object(es) => {
            proof {
                lemma_object_view(*es);
                lemma_member_index(members_view(es@), "id"@);
            }
            match find_member(es, "id") {
                Some(j) => {
                    assert(members_view(es@)[j as int] == (es@[j as int].0@, json_view(
                        es@[j as int].1,
                    )));
                    match &es[j].1 {
                        JsonValue::Str(id) => trim_exec(&chars_of(id.as_str())).len() > 0,
                        _ => true,
                    }
                },
                None => true,
            }
        },
        _ => true,
    }
}

fn kept_models_exec(ms: Vec<JsonValue>) -> (r: Vec<JsonValue>)
    ensures
        items_view(r@) == kept_models(items_view(ms@)),
{
    let ghost orig = ms@;
    let mut rest = ms;
    let mut out: Vec<JsonValue> = Vec::new();
    let mut n: usize = 0;
    assert(orig.len() == rest.len());
    assert(items_view(orig.take(0)) =~= Seq::<Json>::empty());
    assert(items_view(out@) =~= Seq::<Json>::empty());
    while rest.len() > 0
        invariant
            n <= orig.len() <= usize::MAX,
            rest@ == orig.skip(n as int),
            items_view(out@) == kept_models(items_view(orig.take(n as int))),
        decreases rest.len(),
    {
        let m = rest.remove(0);
        assert(m == orig[n as int]);
        let keep = keeps_model_exec(&m);
        let ghost before = items_view(out@);
        if keep {
            out.push(m);
            assert(items_view(out@) =~= before.push(json_view(orig[n as int])));
        }
        let ghost t = items_view(orig.take(n + 1));
        assert(t.drop_last() =~= items_view(orig.take(n as int)));
        assert(t.last() == json_view(orig[n as int]));
        n += 1;
        assert(rest@ =~= orig.skip(n as int));
    }
    assert(orig.take(n as int) =~= orig);
    out
}

fn cost_field_ok(es: &Vec<(String, JsonValue)>, at: Option<usize>) -> (b: bool)
    requires
        match at {
            Some(j) => j < es.len(),
            None => true,
        },
    ensures
        b == match at {
            Some(j) => es@[j as int].1 is Number,
            None => true,
        },
{
    match at {
        Some(j) => match &es[j].1 {
            JsonValue::Number(_) => true,
            _ => false,
        },
        None => true,
    }
}

fn add_default(es: &mut Vec<(String, JsonValue)>, key: &str)
    ensures
        members_view(final(es)@) == with_default(members_view(old(es)@), key@),
{
    match find_member(es, key) {
        Some(_) => {},
        None => {
            let k = string_of(chars_of(key).as_slice());
            let ghost before = es@;
            es.push((k, JsonValue::Number(JsonNumber::PosInt(0))));
            assert(members_view(es@) =~= members_view(before).push((key@, zero())));
        },
    }
}

proof fn lemma_member_of(es: Seq<(String, JsonValue)>, key: Seq<char>)
    ensures
        match member_index(members_view(es), key) {
            Some(j) => 0 <= j < es.len() && member(members_view(es), key) == Some(
                json_view(es[j].1),
            ),
            None => member(members_view(es), key) is None,
        },
{
    lemma_member_index(members_view(es), key);
}

fn normalize_cost_exec(c: JsonValue) -> (r: Option<JsonValue>)
    ensures
        match r {
            Some(x) => normalized_cost(c@) == Some(x@),
            None => normalized_cost(c@) is None,
        },
{
    match c {
        JsonValue::Object(es) => {
            proof {
                lemma_object_view(es);
                lemma_member_of(es@, "input"@);
                lemma_member_of(es@, "output"@);
                lemma_member_of(es@, "cacheRead"@);
                lemma_member_of(es@, "cacheWrite"@);
            }
            let a = find_member(&es, "input");
            let b = find_member(&es, "output");
            let cr = find_member(&es, "cacheRead");
            let cw = find_member(&es, "cacheWrite");
            if a.is_none() && b.is_none() && cr.is_none() && cw.is_none() {
                return None;
            }
            if !(cost_field_ok(&es, a) && cost_field_ok(&es, b) && cost_field_ok(&es, cr)
                && cost_field_ok(&es, cw)) {
                return None;
            }
            let mut out = es;
            add_default(&mut out, "input");
            add_default(&mut out, "output");
            add_default(&mut out, "cacheRead");
            add_default(&mut out, "cacheWrite");
            proof {
                lemma_object_view(out);
            }
            Some(JsonValue::Object(out))
        },
        _ => None,
    }
}

fn normalize_model_exec(m: JsonValue) -> (r: JsonValue)
    ensures
        r@ == normalized_model(m@),
{
    match m {
        JsonValue::Object(es) => {
            proof {
                lemma_object_view(es);
                lemma_member_index(members_view(es@), "cost"@);
            }
            match find_member(&es, "cost") {
                Some(i) => {
                    let ghost old_es = es@;
                    let mut es = es;
                    let (k, c) = es.remove(i);
                    assert(members_view(old_es)[i as int] == (k@, c@));
                    match normalize_cost_exec(c) {
                        Some(nc) => {
                            es.insert(i, (k, nc));
                            assert(members_view(es@) =~= set_member(
                                members_view(old_es),
                                i as int,
                                nc@,
                            ));
                        },
                        None => {
                            assert(members_view(es@) =~= members_view(old_es).remove(i as int));
                        },
                    }
                    proof {
                        lemma_object_view(es);
                    }
                    JsonValue::Object(es)
                },
                None => JsonValue::Object(es),
            }
        },
        other => other,
    }
}

fn edit_models_exec(edit: ModelsEdit, ms: Vec<JsonValue>) -> (r: Vec<JsonValue>)
    ensures
        items_view(r@) == edited_models(edit, items_view(ms@)),
{
    match edit {
        ModelsEdit::DropBlankIds => kept_models_exec(ms),
        ModelsEdit::FillCosts => {
            let ghost orig = ms@;
            let mut rest = ms;
            let mut out: Vec<JsonValue> = Vec::new();
            let mut n: usize = 0;
            assert(orig.len() == rest.len());
            while rest.len() > 0
                invariant
                    n <= orig.len() <= usize::MAX,
                    rest@ == orig.skip(n as int),
                    out@.len() == n,
                    forall|j: int|
                        0 <= j < n ==> json_view(#[trigger] out@[j]) == normalized_model(
                            json_view(orig[j]),
                        ),
                decreases rest.len(),
            {
                let m = rest.remove(0);
                assert(m == orig[n as int]);
                out.push(normalize_model_exec(m));
                n += 1;
                assert(rest@ =~= orig.skip(n as int));
            }
            assert(items_view(out@) =~= items_view(orig).map_values(
                |m: Json| normalized_model(m),
            ));
            out
        },
    }
}

fn edit_provider_exec(edit: ModelsEdit, p: JsonValue) -> (r: JsonValue)
    ensures
        r@ == edited_provider(edit, p@),
{
    match p {
        JsonValue::Object(es) => {
            proof {
                lemma_object_view(es);
                lemma_member_index(members_view(es@), "models"@);
            }
            match find_member(&es, "models") {
                Some(i) => {
                    let is_array = match &es[i].1 {
                        JsonValue::Array(_) => true,
                        _ => false,
                    };
                    if !is_array {
                        return JsonValue::Object(es);
                    }
                    let ghost old_es = es@;
                    let mut es = es;
                    let (k, v) = es.remove(i);
                    assert(members_view(old_es)[i as int] == (k@, v@));
                    let nv = match v {
                        JsonValue::Array(ms) => {
                            proof {
                                lemma_array_view(ms);
                            }
                            let out = edit_models_exec(edit, ms);
                            proof {
                                lemma_array_view(out);
                            }
                            JsonValue::Array(out)
                        },
                        other => other,
                    };
                    es.insert(i, (k, nv));
                    assert(members_view(es@) =~= set_member(members_view(old_es), i as int, nv@));
                    proof {
                        lemma_object_view(es);
                    }
                    JsonValue::Object(es)
                },
                None => JsonValue::Object(es),
            }
        },
        other => other,
    }
}

fn edit_providers_exec(edit: ModelsEdit, ps: Vec<(String, JsonValue)>) -> (r: Vec<
    (String, JsonValue),
>)
    ensures
        members_view(r@) == members_view(ps@).map_values(
            |e: (Seq<char>, Json)| (e.0, edited_provider(edit, e.1)),
        ),
{
    let ghost orig = ps@;
    let mut rest = ps;
    let mut out: Vec<(String, JsonValue)> = Vec::new();
    let mut n: usize = 0;
    assert(orig.len() == rest.len());
    while rest.len() > 0
        invariant
            n <= orig.len() <= usize::MAX,
            rest@ == orig.skip(n as int),
            out@.len() == n,
            forall|j: int|
                0 <= j < n ==> (#[trigger] out@[j]).0@ == orig[j].0@ && json_view(out@[j].1)
                    == edited_provider(edit, json_view(orig[j].1)),
        decreases rest.len(),
    {
        let (k, p) = rest.remove(0);
        assert((k, p) == orig[n as int]);
        out.push((k, edit_provider_exec(edit, p)));
        n += 1;
        assert(rest@ =~= orig.skip(n as int));
    }
    assert(members_view(out@) =~= members_view(orig).map_values(
        |e: (Seq<char>, Json)| (e.0, edited_provider(edit, e.1)),
    ));
    out
}

fn edit_config_exec(edit: ModelsEdit, data: JsonValue) -> (r: JsonValue)
    ensures
        r@ == edited_config(edit, data@),
{
    match data {
        JsonValue::Object(es) => {
            proof {
                lemma_object_view(es);
                lemma_member_index(members_view(es@), "providers"@);
            }
            match find_member(&es, "providers") {
                Some(i) => {
                    let is_object = match &es[i].1 {
                        JsonValue::Object(_) => true,
                        _ => false,
                    };
                    if !is_object {
                        return JsonValue::Object(es);
                    }
                    let ghost old_es = es@;
                    let mut es = es;
                    let (k, v) = es.remove(i);
                    assert(members_view(old_es)[i as int] == (k@, v@));
                    let nv = match v {
                        JsonValue::Object(ps) => {
                            proof {
                                lemma_object_view(ps);
                            }
                            let out = edit_providers_exec(edit, ps);
                            proof {
                                lemma_object_view(out);
                            }
                            JsonValue::Object(out)
                        },
                        other => other,
                    };
                    es.insert(i, (k, nv));
                    assert(members_view(es@) =~= set_member(members_view(old_es), i as int, nv@));
                    proof {
                        lemma_object_view(es);
                    }
                    JsonValue::Object(es)
                },
                None => JsonValue::Object(es),
            }
        },
        other => other,
    }
}

/// Drops, in every `providers.*.models` array, the models whose `id` is a
/// string of whitespace only; everything else is kept as it is.
pub fn sanitize_models_config(data: JsonValue) -> (r: JsonValue)
    ensures
        r@ == edited_config(ModelsEdit::DropBlankIds, data@),
{
    edit_config_exec(ModelsEdit::DropBlankIds, data)
}

/// Completes, in every `providers.*.models` array, each model's `cost`
/// group with `0` for its missing fields, and removes a `cost` that has no
/// cost field or a field that is not a number.
pub fn normalize_models_config_costs(data: JsonValue) -> (r: JsonValue)
    ensures
        r@ == edited_config(ModelsEdit::FillCosts, data@),
{
    edit_config_exec(ModelsEdit::FillCosts, data)
}

} // verus!
