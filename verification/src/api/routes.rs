//! The route table: method and path to command, path parameters and
//! timeout class.

use vstd::prelude::*;
use crate::file::paths::{join_with, nonempty_segments};
use crate::json::{
    insert_all, members_view, object_insert, object_insert_all, Json, JsonNumber,
    JsonValue, NumberView,
};
use crate::text::{
    append_chars, chars_eq, chars_of, find_char, find_char_exec, from_utf8_lossy,
    lemma_find_char_from, parse_i64, parse_i64_exec, split_char, split_char_exec, string_of,
    sub_vec, trim, trim_exec, utf8_lossy,
};

verus! {

broadcast use vstd::string::group_string_axioms;

/// Timeout class of a command: the default one, or the long one of slow
/// commands.
#[derive(Clone, Copy, Debug, PartialEq, Eq, Structural)]
pub enum TimeoutClass {
    Default,
    Long,
}

/// Timeouts of the two classes, in milliseconds.
#[derive(Clone, Copy, Debug, PartialEq, Eq, Structural)]
pub struct TimeoutConfig {
    pub default_ms: u64,
    pub long_ms: u64,
}

/// Default timeout, in milliseconds.
pub const DEFAULT_TIMEOUT_MS: u64 = 60_000;

/// Timeout of slow commands, in milliseconds.
pub const LONG_TIMEOUT_MS: u64 = 300_000;

impl TimeoutConfig {
    /// The standard timeouts: 60 s, and 300 s for slow commands.
    pub fn standard() -> (c: TimeoutConfig)
        ensures
            c.default_ms == DEFAULT_TIMEOUT_MS && c.long_ms == LONG_TIMEOUT_MS,
    {
        TimeoutConfig { default_ms: DEFAULT_TIMEOUT_MS, long_ms: LONG_TIMEOUT_MS }
    }

    /// The timeout of a class, in milliseconds.
    pub fn for_class(&self, class: TimeoutClass) -> (ms: u64)
        ensures
            ms == match class {
                TimeoutClass::Default => self.default_ms,
                TimeoutClass::Long => self.long_ms,
            },
    {
        match class {
            TimeoutClass::Default => self.default_ms,
            TimeoutClass::Long => self.long_ms,
        }
    }
}

impl Default for TimeoutConfig {
    /// The standard timeouts.
    fn default() -> (c: TimeoutConfig)
        ensures
            c.default_ms == DEFAULT_TIMEOUT_MS && c.long_ms == LONG_TIMEOUT_MS,
    {
        TimeoutConfig::standard()
    }
}

/// A request path with surrounding whitespace removed, `/` for an empty
/// one, and without a trailing slash (except for the root).
pub open spec fn normalized_path(path: Seq<char>) -> Seq<char> {
    let p = trim(path);
    if p.len() == 0 {
        seq!['/']
    } else if p.len() > 1 && p.last() == '/' {
        p.drop_last()
    } else {
        p
    }
}

/// Normalises a request path.
pub fn normalize_path(path: &str) -> (r: String)
    ensures
        r@ == normalized_path(path@),
{
    let p = trim_exec(&chars_of(path));
    if p.len() == 0 {
        let mut v: Vec<char> = Vec::new();
        v.push('/');
        assert(v@ =~= seq!['/']);
        return string_of(v.as_slice());
    }
    if p.len() > 1 && p[p.len() - 1] == '/' {
        let q = sub_vec(&p, 0, p.len() - 1);
        assert(q@ =~= p@.drop_last());
        string_of(q.as_slice())
    } else {
        string_of(p.as_slice())
    }
}

/// Value of an ASCII hexadecimal digit.
pub open spec fn hex_value(b: u8) -> Option<u8> {
    if 48 <= b && b <= 57 {
        Some((b - 48) as u8)
    } else if 97 <= b && b <= 102 {
        Some((b - 87) as u8)
    } else if 65 <= b && b <= 70 {
        Some((b - 55) as u8)
    } else {
        None
    }
}

/// Percent-decoding of bytes: `%XY` with two hex digits becomes that byte,
/// `+` a space; everything else stays.
pub open spec fn percent_decode(b: Seq<u8>) -> Seq<u8>
    decreases b.len(),
{
    if b.len() == 0 {
        seq![]
    } else if b[0] == 37 && b.len() > 2 && hex_value(b[1]) is Some && hex_value(b[2]) is Some {
        seq![(hex_value(b[1])->0 * 16 + hex_value(b[2])->0) as u8] + percent_decode(b.skip(3))
    } else if b[0] == 43 {
        seq![32u8] + percent_decode(b.drop_first())
    } else {
        seq![b[0]] + percent_decode(b.drop_first())
    }
}

/// URL decoding of a query or path piece: percent-decoding of its UTF-8
/// bytes, read back as UTF-8 with invalid sequences replaced.
pub open spec fn url_decoded(s: Seq<char>) -> Seq<char> {
    utf8_lossy(percent_decode(vstd::utf8::encode_utf8(s)))
}

fn hex_value_exec(b: u8) -> (r: Option<u8>)
    ensures
        r == hex_value(b),
{
    if 48 <= b && b <= 57 {
        Some(b - 48)
    } else if 97 <= b && b <= 102 {
        Some(b - 87)
    } else if 65 <= b && b <= 70 {
        Some(b - 55)
    } else {
        None
    }
}

/// Decodes a URL piece (`%XY` escapes and `+` for space).
pub fn url_decode(s: &str) -> (r: String)
    ensures
        r@ == url_decoded(s@),
{
    let bytes = s.as_bytes();
    let ghost b = bytes@;
    let mut out: Vec<u8> = Vec::new();
    let mut i: usize = 0;
    assert(b.skip(0) =~= b);
    assert(out@ + percent_decode(b.skip(0)) =~= percent_decode(b));
    while i < bytes.len()
        invariant
            b == bytes@,
            i <= bytes.len(),
            out@ + percent_decode(b.skip(i as int)) == percent_decode(b),
        decreases bytes.len() - i,
    {
        let ghost rest = b.skip(i as int);
        assert(rest[0] == b[i as int]);
        if bytes[i] == 37 && bytes.len() - i > 2 {
            let h = hex_value_exec(bytes[i + 1]);
            let l = hex_value_exec(bytes[i + 2]);
            assert(rest[1] == b[i + 1] && rest[2] == b[i + 2]);
            if h.is_some() && l.is_some() {
                let hv = h.unwrap();
                let lv = l.unwrap();
                assert(hv < 16 && lv < 16);
                let ghost before = out@;
                out.push(hv * 16 + lv);
                assert(rest.skip(3) =~= b.skip(i + 3));
                assert(out@ + percent_decode(b.skip(i + 3)) =~= before + percent_decode(rest));
                i += 3;
                continue;
            }
        }
        let ghost before = out@;
        if bytes[i] == 43 {
            out.push(32);
        } else {
            out.push(bytes[i]);
        }
        assert(rest.drop_first() =~= b.skip(i + 1));
        assert(out@ + percent_decode(b.skip(i + 1)) =~= before + percent_decode(rest));
        i += 1;
    }
    assert(b.skip(bytes.len() as int) =~= Seq::<u8>::empty());
    assert(out@ =~= percent_decode(b));
    from_utf8_lossy(out.as_slice())
}

/// Matching of pattern segments against path segments: `:name` captures one
/// segment (URL-decoded); `*name` captures all remaining segments, each
/// URL-decoded and joined with `/` (it must be the last pattern segment or
/// capture at least one segment); other segments must be equal.
pub open spec fn match_segments(ps: Seq<Seq<char>>, ss: Seq<Seq<char>>) -> Option<
    Seq<(Seq<char>, Seq<char>)>,
>
    decreases ps.len(),
{
    if ps.len() == 0 {
        if ss.len() == 0 {
            Some(seq![])
        } else {
            None
        }
    } else {
        let p = ps[0];
        if p.len() > 0 && p[0] == '*' {
            if ss.len() == 0 && ps.len() != 1 {
                None
            } else {
                Some(
                    seq![(p.drop_first(), join_with(ss.map_values(|s: Seq<char>| url_decoded(s)), '/'))],
                )
            }
        } else if ss.len() == 0 {
            None
        } else if p.len() > 0 && p[0] == ':' {
            match match_segments(ps.drop_first(), ss.drop_first()) {
                Some(rest) => Some(seq![(p.drop_first(), url_decoded(ss[0]))] + rest),
                None => None,
            }
        } else if p != ss[0] {
            None
        } else {
            match_segments(ps.drop_first(), ss.drop_first())
        }
    }
}

/// The non-empty `/`-separated segments of a path.
pub open spec fn path_segments(p: Seq<char>) -> Seq<Seq<char>> {
    nonempty_segments(split_char(p, '/'))
}

/// The parameters captured by a route pattern on a path, or `None` when it
/// does not match.
pub open spec fn pattern_match(pattern: Seq<char>, path: Seq<char>) -> Option<
    Seq<(Seq<char>, Seq<char>)>,
> {
    match_segments(path_segments(pattern), path_segments(path))
}

pub open spec fn pairs_view(v: Seq<(String, String)>) -> Seq<(Seq<char>, Seq<char>)> {
    v.map_values(|p: (String, String)| (p.0@, p.1@))
}

pub open spec fn chars_view(v: Seq<Vec<char>>) -> Seq<Seq<char>> {
    v.map_values(|x: Vec<char>| x@)
}

fn segments_exec(p: &str) -> (r: Vec<Vec<char>>)
    ensures
        chars_view(r@) == path_segments(p@),
{
    let parts = split_char_exec(&chars_of(p), '/');
    let ghost pv = chars_view(parts@);
    assert(pv == split_char(p@, '/'));
    let mut out: Vec<Vec<char>> = Vec::new();
    let mut i: usize = 0;
    assert(pv.take(0) =~= Seq::<Seq<char>>::empty());
    while i < parts.len()
        invariant
            i <= parts.len(),
            pv == chars_view(parts@),
            chars_view(out@) == nonempty_segments(pv.take(i as int)),
        decreases parts.len() - i,
    {
        assert(pv.take(i + 1).drop_last() =~= pv.take(i as int));
        assert(pv[i as int] == parts@[i as int]@);
        if parts[i].len() > 0 {
            let ghost before = chars_view(out@);
            let c = sub_vec(&parts[i], 0, parts[i].len());
            assert(c@ =~= parts@[i as int]@);
            out.push(c);
            assert(chars_view(out@) =~= before.push(pv[i as int]));
        }
        i += 1;
    }
    assert(pv.take(parts.len() as int) =~= pv);
    out
}

fn decode_chars(s: &Vec<char>) -> (r: String)
    ensures
        r@ == url_decoded(s@),
{
    let t = string_of(s.as_slice());
    url_decode(t.as_str())
}

fn match_from(ps: &Vec<Vec<char>>, ss: &Vec<Vec<char>>, pi: usize, si: usize) -> (r: Option<
    Vec<(String, String)>,
>)
    requires
        pi <= ps.len(),
        si <= ss.len(),
    ensures
        match match_segments(chars_view(ps@).skip(pi as int), chars_view(ss@).skip(si as int)) {
            Some(m) => r matches Some(v) && pairs_view(v@) == m,
            None => r is None,
        },
    decreases ps.len() - pi,
{
    let ghost pv = chars_view(ps@).skip(pi as int);
    let ghost sv = chars_view(ss@).skip(si as int);
    if pi == ps.len() {
        if si == ss.len() {
            let v: Vec<(String, String)> = Vec::new();
            assert(pairs_view(v@) =~= Seq::<(Seq<char>, Seq<char>)>::empty());
            return Some(v);
        }
        return None;
    }
    assert(pv[0] == ps@[pi as int]@);
    assert(pv.drop_first() =~= chars_view(ps@).skip(pi + 1));
    let p = &ps[pi];
    if p.len() > 0 && p[0] == '*' {
        if si == ss.len() && pi + 1 != ps.len() {
            return None;
        }
        let name = sub_vec(p, 1, p.len());
        assert(name@ =~= pv[0].drop_first());
        let ghost dec = sv.map_values(|s: Seq<char>| url_decoded(s));
        let mut joined: Vec<char> = Vec::new();
        let mut k: usize = si;
        assert(dec.take(0) =~= Seq::<Seq<char>>::empty());
        while k < ss.len()
            invariant
                si <= k <= ss.len(),
                sv == chars_view(ss@).skip(si as int),
                dec == sv.map_values(|s: Seq<char>| url_decoded(s)),
                joined@ == join_with(dec.take(k - si), '/'),
            decreases ss.len() - k,
        {
            assert(sv[k - si] == ss@[k as int]@);
            let d = decode_chars(&ss[k]);
            let ghost prev = joined@;
            if k > si {
                joined.push('/');
            }
            append_chars(&mut joined, &chars_of(d.as_str()));
            assert(dec.take(k - si + 1).drop_last() =~= dec.take(k - si));
            assert(dec.take(k - si + 1).last() == dec[k - si]);
            if k == si {
                assert(dec.take(1) =~= seq![dec[0]]);
            }
            k += 1;
        }
        assert(dec.take(ss.len() - si) =~= dec);
        let mut v: Vec<(String, String)> = Vec::new();
        v.push((string_of(name.as_slice()), string_of(joined.as_slice())));
        assert(pairs_view(v@) =~= seq![(pv[0].drop_first(), join_with(dec, '/'))]);
        return Some(v);
    }
    if si == ss.len() {
        return None;
    }
    assert(sv[0] == ss@[si as int]@);
    assert(sv.drop_first() =~= chars_view(ss@).skip(si + 1));
    if p.len() > 0 && p[0] == ':' {
        match match_from(ps, ss, pi + 1, si + 1) {
            Some(rest) => {
                let name = sub_vec(p, 1, p.len());
                assert(name@ =~= pv[0].drop_first());
                let d = decode_chars(&ss[si]);
                let mut v: Vec<(String, String)> = Vec::new();
                v.push((string_of(name.as_slice()), d));
                let mut j: usize = 0;
                let ghost first = pairs_view(v@);
                while j < rest.len()
                    invariant
                        j <= rest.len(),
                        pairs_view(v@) == first + pairs_view(rest@).take(j as int),
                    decreases rest.len() - j,
                {
                    let ghost before = pairs_view(v@);
                    let pair = (rest[j].0.clone(), rest[j].1.clone());
                    v.push(pair);
                    assert(pairs_view(v@) =~= before.push(pairs_view(rest@)[j as int]));
                    assert(pairs_view(rest@).take(j + 1) =~= pairs_view(rest@).take(j as int).push(
                        pairs_view(rest@)[j as int],
                    ));
                    j += 1;
                }
                assert(pairs_view(rest@).take(rest.len() as int) =~= pairs_view(rest@));
                Some(v)
            },
            None => None,
        }
    } else if !chars_eq(p, &ss[si]) {
        None
    } else {
        match_from(ps, ss, pi + 1, si + 1)
    }
}

/// Matches a route pattern against a request path; returns the captured
/// parameters in pattern order.
pub fn match_pattern(pattern: &str, path: &str) -> (r: Option<Vec<(String, String)>>)
    ensures
        match pattern_match(pattern@, path@) {
            Some(m) => r matches Some(v) && pairs_view(v@) == m,
            None => r is None,
        },
{
    let ps = segments_exec(pattern);
    let ss = segments_exec(path);
    assert(chars_view(ps@).skip(0) =~= chars_view(ps@));
    assert(chars_view(ss@).skip(0) =~= chars_view(ss@));
    match_from(&ps, &ss, 0, 0)
}

/// Number of routes.
pub const ROUTE_COUNT: usize = 19;

/// The route table: (method, pattern, command, timeout class).  In a
/// pattern, `:name` captures one path segment and `*name` the rest.
pub open spec fn route_table() -> Seq<(Seq<char>, Seq<char>, Seq<char>, TimeoutClass)> {
    seq![
        ("POST"@, "/api/agent/new"@, "agent_new"@, TimeoutClass::Default),
        ("GET"@, "/api/agent/running"@, "agent_running"@, TimeoutClass::Default),
        ("GET"@, "/api/agent/:id"@, "agent_get_state"@, TimeoutClass::Default),
        ("POST"@, "/api/agent/:id"@, "agent_rpc"@, TimeoutClass::Default),
        ("GET"@, "/api/home"@, "home"@, TimeoutClass::Default),
        ("GET"@, "/api/sessions"@, "sessions_list"@, TimeoutClass::Default),
        ("GET"@, "/api/sessions/:id"@, "sessions_get"@, TimeoutClass::Default),
        ("GET"@, "/api/sessions/:id/context"@, "sessions_context"@, TimeoutClass::Default),
        ("GET"@, "/api/cwd/browse"@, "cwd_browse"@, TimeoutClass::Default),
        ("POST"@, "/api/cwd/validate"@, "cwd_validate"@, TimeoutClass::Default),
        ("POST"@, "/api/default-cwd"@, "default_cwd"@, TimeoutClass::Default),
        ("GET"@, "/api/file-index"@, "file_index"@, TimeoutClass::Default),
        ("GET"@, "/api/models"@, "models_list"@, TimeoutClass::Default),
        ("GET"@, "/api/models-config"@, "models_config_get"@, TimeoutClass::Default),
        ("PUT"@, "/api/models-config"@, "models_config_put"@, TimeoutClass::Default),
        ("GET"@, "/api/git/status"@, "git_status"@, TimeoutClass::Default),
        ("GET"@, "/api/git/diff"@, "git_diff"@, TimeoutClass::Default),
        ("GET"@, "/api/files/*path"@, "files"@, TimeoutClass::Default),
        ("POST"@, "/api/files/*path"@, "files"@, TimeoutClass::Default),
    ]
}

/// Entry `i` of the route table.
fn route_entry(i: usize) -> (r: (&'static str, &'static str, &'static str, TimeoutClass))
    requires
        i < ROUTE_COUNT,
    ensures
        (r.0@, r.1@, r.2@, r.3) == route_table()[i as int],
{
    if i == 0 {
        ("POST", "/api/agent/new", "agent_new", TimeoutClass::Default)
    } else if i == 1 {
        ("GET", "/api/agent/running", "agent_running", TimeoutClass::Default)
    } else if i == 2 {
        ("GET", "/api/agent/:id", "agent_get_state", TimeoutClass::Default)
    } else if i == 3 {
        ("POST", "/api/agent/:id", "agent_rpc", TimeoutClass::Default)
    } else if i == 4 {
        ("GET", "/api/home", "home", TimeoutClass::Default)
    } else if i == 5 {
        ("GET", "/api/sessions", "sessions_list", TimeoutClass::Default)
    } else if i == 6 {
        ("GET", "/api/sessions/:id", "sessions_get", TimeoutClass::Default)
    } else if i == 7 {
        ("GET", "/api/sessions/:id/context", "sessions_context", TimeoutClass::Default)
    } else if i == 8 {
        ("GET", "/api/cwd/browse", "cwd_browse", TimeoutClass::Default)
    } else if i == 9 {
        ("POST", "/api/cwd/validate", "cwd_validate", TimeoutClass::Default)
    } else if i == 10 {
        ("POST", "/api/default-cwd", "default_cwd", TimeoutClass::Default)
    } else if i == 11 {
        ("GET", "/api/file-index", "file_index", TimeoutClass::Default)
    } else if i == 12 {
        ("GET", "/api/models", "models_list", TimeoutClass::Default)
    } else if i == 13 {
        ("GET", "/api/models-config", "models_config_get", TimeoutClass::Default)
    } else if i == 14 {
        ("PUT", "/api/models-config", "models_config_put", TimeoutClass::Default)
    } else if i == 15 {
        ("GET", "/api/git/status", "git_status", TimeoutClass::Default)
    } else if i == 16 {
        ("GET", "/api/git/diff", "git_diff", TimeoutClass::Default)
    } else if i == 17 {
        ("GET", "/api/files/*path", "files", TimeoutClass::Default)
    } else {
        ("POST", "/api/files/*path", "files", TimeoutClass::Default)
    }
}

/// A route that matched: its command, the captured path parameters and its
/// timeout class.
#[derive(Debug)]
pub struct RouteMatch {
    pub command: &'static str,
    pub params: Vec<(String, String)>,
    pub timeout_class: TimeoutClass,
}

/// The value captured for `id`, if any.
pub open spec fn id_param(params: Seq<(Seq<char>, Seq<char>)>) -> Option<Seq<char>>
    decreases params.len(),
{
    if params.len() == 0 {
        None
    } else if params[0].0 == "id"@ {
        Some(params[0].1)
    } else {
        id_param(params.drop_first())
    }
}

/// `new` and `running` are never session ids: they have routes of their own.
pub open spec fn reserved_id(params: Seq<(Seq<char>, Seq<char>)>) -> bool {
    match id_param(params) {
        Some(v) => v == "new"@ || v == "running"@,
        None => false,
    }
}

/// The first route from entry `i` on whose method is `method` and whose
/// pattern matches `path`: its command, parameters and class; no route
/// when that match captures a reserved id.
pub open spec fn route_from(method: Seq<char>, path: Seq<char>, i: int) -> Option<
    (Seq<char>, Seq<(Seq<char>, Seq<char>)>, TimeoutClass),
>
    decreases ROUTE_COUNT - i,
{
    if i < 0 || i >= ROUTE_COUNT {
        None
    } else {
        let e = route_table()[i];
        if e.0 != method {
            route_from(method, path, i + 1)
        } else {
            match pattern_match(e.1, path) {
                None => route_from(method, path, i + 1),
                Some(ps) => if reserved_id(ps) {
                    None
                } else {
                    Some((e.2, ps, e.3))
                },
            }
        }
    }
}

/// The route of a request: its path is normalised first.
pub open spec fn route_of(method: Seq<char>, path: Seq<char>) -> Option<
    (Seq<char>, Seq<(Seq<char>, Seq<char>)>, TimeoutClass),
> {
    route_from(method, normalized_path(path), 0)
}

fn id_param_exec(params: &Vec<(String, String)>) -> (r: Option<Vec<char>>)
    ensures
        match id_param(pairs_view(params@)) {
            Some(v) => r matches Some(x) && x@ == v,
            None => r is None,
        },
{
    let ghost pv = pairs_view(params@);
    let mut i: usize = 0;
    assert(pv.skip(0) =~= pv);
    while i < params.len()
        invariant
            i <= params.len(),
            pv == pairs_view(params@),
            id_param(pv) == id_param(pv.skip(i as int)),
        decreases params.len() - i,
    {
        assert(pv.skip(i as int)[0] == pv[i as int]);
        assert(pv[i as int] == (params@[i as int].0@, params@[i as int].1@));
        let k = chars_of(params[i].0.as_str());
        if chars_eq(&k, &chars_of("id")) {
            return Some(chars_of(params[i].1.as_str()));
        }
        assert(pv.skip(i as int).drop_first() =~= pv.skip(i + 1));
        i += 1;
    }
    None
}

/// Finds the route of a request (method and path).
pub fn match_route(method: &str, path: &str) -> (r: Option<RouteMatch>)
    ensures
        match route_of(method@, path@) {
            Some((command, params, class)) => r matches Some(m) && m.command@ == command
                && pairs_view(m.params@) == params && m.timeout_class == class,
            None => r is None,
        },
{
    let p = normalize_path(path);
    let mv = chars_of(method);
    let mut i: usize = 0;
    while i < ROUTE_COUNT
        invariant
            i <= ROUTE_COUNT,
            mv@ == method@,
            p@ == normalized_path(path@),
            route_of(method@, path@) == route_from(method@, p@, i as int),
        decreases ROUTE_COUNT - i,
    {
        let (m, pattern, command, class) = route_entry(i);
        if chars_eq(&chars_of(m), &mv) {
            match match_pattern(pattern, p.as_str()) {
                Some(params) => {
                    match id_param_exec(&params) {
                        Some(id) => {
                            if chars_eq(&id, &chars_of("new")) || chars_eq(&id, &chars_of("running")) {
                                return None;
                            }
                        },
                        None => {},
                    }
                    return Some(RouteMatch { command, params, timeout_class: class });
                },
                None => {},
            }
        }
        i += 1;
    }
    None
}

/// The value of a query argument: an `i64` when the text is one, a boolean
/// for `true` and `false`, the text itself otherwise.
pub open spec fn arg_value(v: Seq<char>) -> Json {
    match parse_i64(v) {
        Some(n) => if n < 0 {
            Json::Number(NumberView::NegInt(n as i64))
        } else {
            Json::Number(NumberView::PosInt(n as u64))
        },
        None => if v == "true"@ {
            Json::Bool(true)
        } else if v == "false"@ {
            Json::Bool(false)
        } else {
            Json::Str(v)
        },
    }
}

/// One `key=value` piece of a query (a piece without `=` has an empty
/// value), both sides URL-decoded.
pub open spec fn query_member(piece: Seq<char>) -> (Seq<char>, Json) {
    match find_char(piece, '=') {
        Some(i) => (url_decoded(piece.take(i)), arg_value(url_decoded(piece.skip(i + 1)))),
        None => (url_decoded(piece), arg_value(url_decoded(Seq::empty()))),
    }
}

/// The arguments of a query string: its non-empty `&`-separated pieces,
/// inserted in order, a later key replacing an earlier one.
pub open spec fn query_args(query: Seq<char>) -> Seq<(Seq<char>, Json)> {
    insert_all(
        Seq::empty(),
        nonempty_segments(split_char(query, '&')).map_values(|p: Seq<char>| query_member(p)),
    )
}

fn arg_value_exec(v: String) -> (r: JsonValue)
    ensures
        r@ == arg_value(v@),
{
    let cs = chars_of(v.as_str());
    match parse_i64_exec(&cs) {
        Some(n) => if n < 0 {
            JsonValue::Number(JsonNumber::NegInt(n))
        } else {
            JsonValue::Number(JsonNumber::PosInt(n as u64))
        },
        None => if chars_eq(&cs, &chars_of("true")) {
            JsonValue::Bool(true)
        } else if chars_eq(&cs, &chars_of("false")) {
            JsonValue::Bool(false)
        } else {
            JsonValue::Str(v)
        },
    }
}

fn query_member_exec(piece: &Vec<char>) -> (r: (String, JsonValue))
    ensures
        (r.0@, r.1@) == query_member(piece@),
{
    proof {
        lemma_find_char_from(piece@, '=', 0);
    }
    match find_char_exec(piece, '=', 0) {
        Some(i) => {
            assert(i < piece.len());
            let k = string_of(sub_vec(piece, 0, i).as_slice());
            let v = string_of(sub_vec(piece, i + 1, piece.len()).as_slice());
            assert(piece@.subrange(0, i as int) =~= piece@.take(i as int));
            assert(piece@.subrange(i + 1, piece@.len() as int) =~= piece@.skip(i + 1));
            (url_decode(k.as_str()), arg_value_exec(url_decode(v.as_str())))
        },
        None => {
            let k = string_of(piece.as_slice());
            let v = url_decode("");
            proof {
                reveal_strlit("");
            }
            (url_decode(k.as_str()), arg_value_exec(v))
        },
    }
}

/// The arguments carried by a query string (`a=1&b=x` gives
/// `{"a": 1, "b": "x"}`).
pub fn query_to_args(query: &str) -> (r: JsonValue)
    ensures
        r@ == Json::Object(query_args(query@)),
{
    let pieces = split_char_exec(&chars_of(query), '&');
    let ghost pv = pieces@.map_values(|v: Vec<char>| v@);
    let ghost f = |p: Seq<char>| query_member(p);
    let mut es: Vec<(String, JsonValue)> = Vec::new();
    assert(pv.take(0) =~= Seq::<Seq<char>>::empty());
    assert(members_view(es@) =~= insert_all(
        Seq::empty(),
        nonempty_segments(pv.take(0)).map_values(f),
    ));
    for i in 0..pieces.len()
        invariant
            pv == pieces@.map_values(|v: Vec<char>| v@),
            f == (|p: Seq<char>| query_member(p)),
            members_view(es@) == insert_all(
                Seq::empty(),
                nonempty_segments(pv.take(i as int)).map_values(f),
            ),
    {
        let ghost prev = nonempty_segments(pv.take(i as int));
        assert(pv.take(i + 1).drop_last() =~= pv.take(i as int));
        assert(pv.take(i + 1).last() == pv[i as int]);
        assert(pv[i as int] == pieces@[i as int]@);
        if pieces[i].len() > 0 {
            let (k, v) = query_member_exec(&pieces[i]);
            object_insert(&mut es, k, v);
            let ghost pushed = prev.push(pv[i as int]).map_values(f);
            assert(pushed =~= prev.map_values(f).push(f(pv[i as int])));
            assert(pushed.drop_last() =~= prev.map_values(f));
        } else {
            assert(nonempty_segments(pv.take(i + 1)) == prev);
        }
    }
    assert(pv.take(pieces.len() as int) =~= pv);
    proof {
        crate::json::lemma_object_view(es);
    }
    JsonValue::Object(es)
}

/// Methods whose JSON object body adds to the arguments.
pub open spec fn has_body_args(method: Seq<char>) -> bool {
    method == "POST"@ || method == "PUT"@ || method == "PATCH"@
}

/// The arguments of a routed request: the query's, then the members of a
/// JSON object body (for `POST`, `PUT` and `PATCH`), then the path
/// parameters as strings; a later key replaces an earlier one.
pub open spec fn dispatch_args(
    method: Seq<char>,
    query: Seq<char>,
    body: Option<Json>,
    params: Seq<(Seq<char>, Seq<char>)>,
) -> Json {
    let q = query_args(query);
    let with_body = match body {
        Some(Json::Object(bm)) => if has_body_args(method) {
            insert_all(q, bm)
        } else {
            q
        },
        _ => q,
    };
    Json::Object(
        insert_all(
            with_body,
            params.map_values(|p: (Seq<char>, Seq<char>)| (p.0, Json::Str(p.1))),
        ),
    )
}

/// A request resolved to a command: the command, its arguments and its
/// timeout class.
#[derive(Debug)]
pub struct Dispatch {
    pub command: &'static str,
    pub args: JsonValue,
    pub timeout_class: TimeoutClass,
}

/// Resolves a request (method, path, query string and the request body read
/// as JSON, when it is JSON) to the command that serves it; `None` when no
/// route matches.
pub fn resolve(method: &str, path: &str, query: &str, body: Option<JsonValue>) -> (r: Option<
    Dispatch,
>)
    ensures
        match route_of(method@, path@) {
            Some((command, params, class)) => r matches Some(d) && d.command@ == command
                && d.args@ == dispatch_args(
                method@,
                query@,
                match body {
                    Some(b) => Some(b@),
                    None => None,
                },
                params,
            ) && d.timeout_class == class,
            None => r is None,
        },
{
    match match_route(method, path) {
        Some(m) => {
            let q = query_to_args(query);
            let mut es = match q {
                JsonValue::Object(es) => es,
                _ => Vec::new(),
            };
            proof {
                crate::json::lemma_object_view(es);
            }
            let mv = chars_of(method);
            let wants_body = chars_eq(&mv, &chars_of("POST")) || chars_eq(&mv, &chars_of("PUT"))
                || chars_eq(&mv, &chars_of("PATCH"));
            match body {
                Some(JsonValue::Object(bm)) => {
                    proof {
                        crate::json::lemma_object_view(bm);
                    }
                    if wants_body {
                        object_insert_all(&mut es, bm);
                    }
                },
                _ => {},
            }
            let ghost before = members_view(es@);
            let mut ps: Vec<(String, JsonValue)> = Vec::new();
            let params = m.params;
            for i in 0..params.len()
                invariant
                    ps@.len() == i,
                    forall|j: int|
                        0 <= j < i ==> (#[trigger] ps@[j]).0@ == params@[j].0@ && ps@[j].1@
                            == Json::Str(params@[j].1@),
            {
                let k = string_of(chars_of(params[i].0.as_str()).as_slice());
                let v = string_of(chars_of(params[i].1.as_str()).as_slice());
                ps.push((k, JsonValue::Str(v)));
            }
            assert(members_view(ps@) =~= pairs_view(params@).map_values(
                |p: (Seq<char>, Seq<char>)| (p.0, Json::Str(p.1)),
            ));
            object_insert_all(&mut es, ps);
            proof {
                crate::json::lemma_object_view(es);
            }
            Some(Dispatch { command: m.command, args: JsonValue::Object(es), timeout_class: m.timeout_class })
        },
        None => None,
    }
}

} // verus!
