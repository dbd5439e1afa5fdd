//! The files API: multipart upload bodies, and file kinds, MIME types and
//! highlighting languages by name.

use vstd::prelude::*;
use crate::fs::path_security::{ascii_lower, ascii_lower_exec};
use crate::git::changes::{lines_exec, lines_of};
use crate::text::{
    append_chars, chars_eq, chars_of, find_sub, find_sub_exec, from_utf8_lossy, has_prefix,
    lemma_find_sub_from, split_char, split_char_exec, starts_with, string_of, sub_vec, trim,
    trim_end_char, trim_end_char_exec, trim_exec, utf8_lossy,
};

verus! {

broadcast use vstd::string::group_string_axioms;

// ---------------------------------------------------------------------------
// Byte search
// ---------------------------------------------------------------------------

/// First index `i >= from` at which `needle` occurs in `hay`.
pub open spec fn first_window(hay: Seq<u8>, needle: Seq<u8>, i: int) -> Option<int>
    decreases hay.len() + 1 - i,
{
    if i < 0 || i + needle.len() > hay.len() {
        None
    } else if hay.subrange(i, i + needle.len()) == needle {
        Some(i)
    } else {
        first_window(hay, needle, i + 1)
    }
}

/// Byte search as the upload parser does it: nothing is found for an empty
/// needle or a start at or past the end.
pub open spec fn find_bytes(hay: Seq<u8>, needle: Seq<u8>, from: int) -> Option<int> {
    if needle.len() == 0 || from >= hay.len() {
        None
    } else {
        first_window(hay, needle, from)
    }
}

proof fn lemma_first_window(hay: Seq<u8>, needle: Seq<u8>, i: int)
    ensures
        match first_window(hay, needle, i) {
            Some(k) => 0 <= i <= k && k + needle.len() <= hay.len() && hay.subrange(
                k,
                k + needle.len(),
            ) == needle,
            None => true,
        },
    decreases hay.len() + 1 - i,
{
    if i >= 0 && i + needle.len() <= hay.len() && hay.subrange(i, i + needle.len()) != needle {
        lemma_first_window(hay, needle, i + 1);
    }
}

fn bytes_match_at(hay: &[u8], needle: &[u8], i: usize) -> (b: bool)
    requires
        i + needle@.len() <= hay@.len(),
    ensures
        b == (hay@.subrange(i as int, i + needle@.len()) == needle@),
{
    let hl = hay.len();
    let mut j: usize = 0;
    while j < needle.len()
        invariant
            hl == hay@.len(),
            i + needle@.len() <= hay@.len(),
            j <= needle.len(),
            forall|t: int| 0 <= t < j ==> hay@[i + t] == needle@[t],
        decreases needle.len() - j,
    {
        if hay[i + j] != needle[j] {
            assert(hay@.subrange(i as int, i + needle@.len())[j as int] != needle@[j as int]);
            return false;
        }
        j += 1;
    }
    assert(hay@.subrange(i as int, i + needle@.len()) =~= needle@);
    true
}

/// Position of `needle` in `haystack` at or after `from`.
pub fn find(haystack: &[u8], needle: &[u8], from: usize) -> (r: Option<usize>)
    ensures
        match find_bytes(haystack@, needle@, from as int) {
            Some(k) => r == Some(k as usize),
            None => r is None,
        },
{
    if needle.len() == 0 || from >= haystack.len() {
        return None;
    }
    let mut i: usize = from;
    while i <= haystack.len() && haystack.len() - i >= needle.len()
        invariant
            from <= i,
            needle@.len() > 0,
            from < haystack@.len(),
            first_window(haystack@, needle@, from as int) == first_window(haystack@, needle@, i as int),
        decreases haystack.len() + 1 - i,
    {
        if bytes_match_at(haystack, needle, i) {
            return Some(i);
        }
        i += 1;
    }
    None
}

// ---------------------------------------------------------------------------
// Multipart bodies
// ---------------------------------------------------------------------------

/// `s` without leading `c`s.
pub open spec fn trim_start_char(s: Seq<char>, c: char) -> Seq<char>
    decreases s.len(),
{
    if s.len() > 0 && s[0] == c {
        trim_start_char(s.drop_first(), c)
    } else {
        s
    }
}

/// `str::trim_matches(c)`.
pub open spec fn trim_char(s: Seq<char>, c: char) -> Seq<char> {
    trim_end_char(trim_start_char(s, c), c)
}

fn trim_char_exec(s: &Vec<char>, c: char) -> (r: Vec<char>)
    ensures
        r@ == trim_char(s@, c),
{
    let mut i: usize = 0;
    assert(s@.skip(0) =~= s@);
    while i < s.len() && s[i] == c
        invariant
            i <= s.len(),
            trim_start_char(s@, c) == trim_start_char(s@.skip(i as int), c),
        decreases s.len() - i,
    {
        assert(s@.skip(i as int).drop_first() =~= s@.skip(i + 1));
        i += 1;
    }
    let rest = sub_vec(s, i, s.len());
    assert(rest@ =~= s@.skip(i as int));
    trim_end_char_exec(&rest, c)
}

/// The first `;`-separated parameter of a content type that starts (after
/// trimming) with `boundary=`: its value without surrounding quotes.
pub open spec fn boundary_from(params: Seq<Seq<char>>) -> Option<Seq<char>>
    decreases params.len(),
{
    if params.len() == 0 {
        None
    } else if starts_with(trim(params[0]), "boundary="@) {
        Some(trim_char(trim(params[0]).skip(9), '"'))
    } else {
        boundary_from(params.drop_first())
    }
}

/// The multipart boundary of a content type.
pub open spec fn boundary_of(content_type: Seq<char>) -> Option<Seq<char>> {
    boundary_from(split_char(content_type, ';'))
}

/// The lowercase header name that carries a part's file name.
pub open spec fn content_disposition_prefix() -> Seq<char> {
    "content-disposition:"@
}

/// Index of the first header line that is a `Content-Disposition` line.
pub open spec fn first_disposition_line(ls: Seq<Seq<char>>) -> Option<int>
    decreases ls.len(),
{
    if ls.len() == 0 {
        None
    } else if starts_with(ascii_lower(ls[0]), content_disposition_prefix()) {
        Some(0)
    } else {
        match first_disposition_line(ls.drop_first()) {
            Some(i) => Some(i + 1),
            None => None,
        }
    }
}

/// The file name of a part: when some `Content-Disposition` line mentions
/// `filename=`, the value after `filename=` on the first such header line
/// (trimmed, quotes removed), provided that line mentions it.
pub open spec fn part_file_name(headers: Seq<char>) -> Option<Seq<char>> {
    let ls = lines_of(headers);
    if exists|i: int|
        0 <= i < ls.len() && starts_with(ascii_lower(#[trigger] ls[i]), content_disposition_prefix())
            && find_sub(ascii_lower(ls[i]), "filename="@) is Some {
        match first_disposition_line(ls) {
            Some(j) => match find_sub(ascii_lower(ls[j]), "filename="@) {
                Some(idx) => Some(trim_char(trim(ls[j].skip(idx + 9)), '"')),
                None => None,
            },
            None => None,
        }
    } else {
        None
    }
}

/// The end of a part's content: before the `\r\n` that precedes the next
/// boundary, when there is one.
pub open spec fn part_end(body: Seq<u8>, next: int) -> int {
    if next >= 2 && body[next - 2] == 13 && body[next - 1] == 10 {
        next - 2
    } else {
        next
    }
}

/// A file part whose content would start after its end (a boundary right
/// after the part headers).
pub open spec fn empty_part_overlap(body: Seq<u8>, body_start: int, next: int) -> bool {
    part_end(body, next) < body_start
}

/// The parts of a multipart body from `pos` (just after a boundary) on:
/// `--` ends the body; otherwise an optional `\r\n`, headers up to a blank
/// line, and content up to the next boundary.  File parts with a non-empty
/// name are kept as (name, content).
pub open spec fn parts_from(body: Seq<u8>, delim: Seq<u8>, pos: int) -> Result<
    Seq<(Seq<char>, Seq<u8>)>,
    Seq<char>,
>
    decreases body.len() - pos,
{
    if pos < 0 || pos > body.len() || delim.len() == 0 {
        Err("malformed part header"@)
    } else if body.skip(pos).len() >= 2 && body[pos] == 45 && body[pos + 1] == 45 {
        Ok(seq![])
    } else {
        let p = if body.skip(pos).len() >= 2 && body[pos] == 13 && body[pos + 1] == 10 {
            pos + 2
        } else {
            pos
        };
        match find_bytes(body, seq![13u8, 10u8, 13u8, 10u8], p) {
            None => Err("malformed part header"@),
            Some(head_end) => {
                let headers = utf8_lossy(body.subrange(p, head_end));
                let body_start = head_end + 4;
                match find_bytes(body, delim, body_start) {
                    None => Err("unterminated part"@),
                    Some(next) => {
                        let end = part_end(body, next);
                        let rest = if next + delim.len() > pos && next + delim.len() <= body.len() {
                            parts_from(body, delim, next + delim.len())
                        } else {
                            Err("malformed part header"@)
                        };
                        match rest {
                            Err(e) => Err(e),
                            Ok(tail) => match part_file_name(headers) {
                                Some(name) => if name.len() > 0 {
                                    Ok(seq![(name, body.subrange(body_start, end))] + tail)
                                } else {
                                    Ok(tail)
                                },
                                None => Ok(tail),
                            },
                        }
                    },
                }
            },
        }
    }
}

/// The file parts of a `multipart/form-data` body, or the error that
/// stops the parse.
pub open spec fn multipart_parts(content_type: Seq<char>, body: Seq<u8>) -> Result<
    Seq<(Seq<char>, Seq<u8>)>,
    Seq<char>,
> {
    match boundary_of(content_type) {
        None => Err("missing boundary"@),
        Some(b) => {
            let delim = vstd::utf8::encode_utf8(seq!['-', '-'] + b);
            match find_bytes(body, delim, 0) {
                None => Err("boundary not found"@),
                Some(k) => parts_from(body, delim, k + delim.len()),
            }
        },
    }
}

/// Some file part of the body has its content end before its start (see
/// [`empty_part_overlap`]); parsing such a body fails.
pub open spec fn multipart_overlaps_from(body: Seq<u8>, delim: Seq<u8>, pos: int) -> bool
    decreases body.len() - pos,
{
    if pos < 0 || pos > body.len() || delim.len() == 0 {
        false
    } else if body.skip(pos).len() >= 2 && body[pos] == 45 && body[pos + 1] == 45 {
        false
    } else {
        let p = if body.skip(pos).len() >= 2 && body[pos] == 13 && body[pos + 1] == 10 {
            pos + 2
        } else {
            pos
        };
        match find_bytes(body, seq![13u8, 10u8, 13u8, 10u8], p) {
            None => false,
            Some(head_end) => {
                let headers = utf8_lossy(body.subrange(p, head_end));
                let body_start = head_end + 4;
                match find_bytes(body, delim, body_start) {
                    None => false,
                    Some(next) => {
                        let named = match part_file_name(headers) {
                            Some(name) => name.len() > 0,
                            None => false,
                        };
                        (named && empty_part_overlap(body, body_start, next)) || (next
                            + delim.len() > pos && next + delim.len() <= body.len()
                            && multipart_overlaps_from(
                            body,
                            delim,
                            next + delim.len(),
                        ))
                    },
                }
            },
        }
    }
}

/// The body holds a file part that ends before it starts.
pub open spec fn multipart_overlaps(content_type: Seq<char>, body: Seq<u8>) -> bool {
    match boundary_of(content_type) {
        None => false,
        Some(b) => {
            let delim = vstd::utf8::encode_utf8(seq!['-', '-'] + b);
            match find_bytes(body, delim, 0) {
                None => false,
                Some(k) => multipart_overlaps_from(body, delim, k + delim.len()),
            }
        },
    }
}

fn boundary_exec(content_type: &str) -> (r: Option<Vec<char>>)
    ensures
        match boundary_of(content_type@) {
            Some(b) => r matches Some(v) && v@ == b,
            None => r is None,
        },
{
    let params = split_char_exec(&chars_of(content_type), ';');
    let ghost pv = params@.map_values(|v: Vec<char>| v@);
    let prefix = chars_of("boundary=");
    proof {
        reveal_strlit("boundary=");
    }
    let mut i: usize = 0;
    assert(pv.skip(0) =~= pv);
    while i < params.len()
        invariant
            i <= params.len(),
            pv == params@.map_values(|v: Vec<char>| v@),
            pv == split_char(content_type@, ';'),
            prefix@ == "boundary="@,
            prefix@.len() == 9,
            boundary_from(pv) == boundary_from(pv.skip(i as int)),
        decreases params.len() - i,
    {
        assert(pv.skip(i as int)[0] == params@[i as int]@);
        let t = trim_exec(&params[i]);
        if has_prefix(&t, &prefix) {
            let rest = sub_vec(&t, 9, t.len());
            assert(rest@ =~= t@.skip(9));
            return Some(trim_char_exec(&rest, '"'));
        }
        assert(pv.skip(i as int).drop_first() =~= pv.skip(i + 1));
        i += 1;
    }
    None
}

fn contains_exec(s: &Vec<char>, p: &Vec<char>) -> (b: bool)
    ensures
        b == (find_sub(s@, p@) is Some),
{
    find_sub_exec(s, p, 0).is_some()
}

fn part_file_name_exec(headers: &str) -> (r: Option<Vec<char>>)
    ensures
        match part_file_name(headers@) {
            Some(n) => r matches Some(v) && v@ == n,
            None => r is None,
        },
{
    let ls = lines_exec(&chars_of(headers));
    let ghost lv = ls@.map_values(|v: Vec<char>| v@);
    let cd = chars_of("content-disposition:");
    let fname = chars_of("filename=");
    proof {
        reveal_strlit("filename=");
    }
    let mut first: Option<usize> = None;
    let mut mentioned = false;
    let mut i: usize = 0;
    while i < ls.len()
        invariant
            i <= ls.len(),
            lv == ls@.map_values(|v: Vec<char>| v@),
            lv == lines_of(headers@),
            cd@ == content_disposition_prefix(),
            fname@ == "filename="@,
            fname@.len() == 9,
            mentioned == exists|k: int|
                0 <= k < i && starts_with(ascii_lower(#[trigger] lv[k]), content_disposition_prefix())
                    && find_sub(ascii_lower(lv[k]), "filename="@) is Some,
            match first {
                Some(j) => j < i && first_disposition_line(lv) == Some(j as int),
                None => forall|k: int|
                    0 <= k < i ==> !starts_with(
                        ascii_lower(#[trigger] lv[k]),
                        content_disposition_prefix(),
                    ),
            },
        decreases ls.len() - i,
    {
        assert(lv[i as int] == ls@[i as int]@);
        let lower = ascii_lower_exec(&ls[i]);
        let is_cd = has_prefix(&lower, &cd);
        if is_cd {
            if first.is_none() {
                proof {
                    lemma_first_disposition(lv, i as int);
                }
                first = Some(i);
            }
            if contains_exec(&lower, &fname) {
                mentioned = true;
            }
        }
        i += 1;
    }
    if !mentioned {
        return None;
    }
    let j = match first {
        Some(j) => j,
        None => {
            return None;
        },
    };
    assert(lv[j as int] == ls@[j as int]@);
    let lower = ascii_lower_exec(&ls[j]);
    proof {
        lemma_find_sub_from(lower@, fname@, 0);
    }
    match find_sub_exec(&lower, &fname, 0) {
        Some(idx) => {
            let ll = ls[j].len();
            assert(lower@.len() == ls@[j as int]@.len());
            assert(idx + 9 <= ll);
            let rest = sub_vec(&ls[j], idx + 9, ll);
            assert(rest@ =~= lv[j as int].skip(idx + 9));
            let t = trim_exec(&rest);
            Some(trim_char_exec(&t, '"'))
        },
        None => None,
    }
}

proof fn lemma_first_disposition(ls: Seq<Seq<char>>, i: int)
    requires
        0 <= i < ls.len(),
        starts_with(ascii_lower(ls[i]), content_disposition_prefix()),
        forall|k: int| 0 <= k < i ==> !starts_with(ascii_lower(#[trigger] ls[k]), content_disposition_prefix()),
    ensures
        first_disposition_line(ls) == Some(i),
    decreases i,
{
    if i > 0 {
        let t = ls.drop_first();
        assert forall|k: int| 0 <= k < i - 1 implies !starts_with(
            ascii_lower(#[trigger] t[k]),
            content_disposition_prefix(),
        ) by {
            assert(t[k] == ls[k + 1]);
        }
        assert(t[i - 1] == ls[i]);
        lemma_first_disposition(t, i - 1);
    }
}

pub open spec fn parts_view(v: Seq<(String, Vec<u8>)>) -> Seq<(Seq<char>, Seq<u8>)> {
    v.map_values(|p: (String, Vec<u8>)| (p.0@, p.1@))
}

fn byte_slice_copy(b: &[u8], from: usize, to: usize) -> (r: Vec<u8>)
    requires
        from <= to <= b@.len(),
    ensures
        r@ == b@.subrange(from as int, to as int),
{
    let mut r: Vec<u8> = Vec::new();
    let mut i: usize = from;
    while i < to
        invariant
            from <= i <= to <= b@.len(),
            r@ == b@.subrange(from as int, i as int),
        decreases to - i,
    {
        r.push(b[i]);
        assert(b@.subrange(from as int, i + 1) =~= b@.subrange(from as int, i as int).push(
            b@[i as int],
        ));
        i += 1;
    }
    r
}

/// [`parse_multipart`] on every input: `None` exactly when the body holds
/// a file part that ends before it starts (see [`multipart_overlaps`]).
pub fn parse_multipart_checked(content_type: &str, body: &[u8]) -> (r: Option<
    Result<Vec<(String, Vec<u8>)>, String>,
>)
    ensures
        r is None <==> multipart_overlaps(content_type@, body@),
        r matches Some(res) ==> match multipart_parts(content_type@, body@) {
            Ok(ps) => res matches Ok(v) && parts_view(v@) == ps,
            Err(m) => res matches Err(e) && e@ == m,
        },
{
    let bl = body.len();
    let boundary = match boundary_exec(content_type) {
        Some(b) => b,
        None => return Some(Err(string_of(chars_of("missing boundary").as_slice()))),
    };
    let mut dv = chars_of("--");
    append_chars(&mut dv, &boundary);
    let ds = string_of(dv.as_slice());
    let delim = ds.as_str().as_bytes();
    assert(dv@ =~= seq!['-', '-'] + boundary@) by {
        reveal_strlit("--");
    }
    let ghost d = delim@;
    let first = match find(body, delim, 0) {
        Some(k) => k,
        None => return Some(Err(string_of(chars_of("boundary not found").as_slice()))),
    };
    proof {
        lemma_first_window(body@, d, 0);
    }
    let mut pos = first + delim.len();
    let crlf2: [u8; 4] = [13, 10, 13, 10];
    assert(crlf2@ == seq![13u8, 10u8, 13u8, 10u8]);
    let mut parts: Vec<(String, Vec<u8>)> = Vec::new();
    assert(d == vstd::utf8::encode_utf8(seq!['-', '-'] + boundary@));
    assert(parts_view(parts@) =~= Seq::<(Seq<char>, Seq<u8>)>::empty());
    loop
        invariant
            d == delim@,
            d.len() > 0,
            crlf2@ == seq![13u8, 10u8, 13u8, 10u8],
            pos <= body@.len(),
            multipart_overlaps(content_type@, body@) == multipart_overlaps_from(body@, d, pos as int),
            match parts_from(body@, d, pos as int) {
                Ok(tail) => match multipart_parts(content_type@, body@) {
                    Ok(all) => all == parts_view(parts@) + tail,
                    Err(_) => false,
                },
                Err(m) => multipart_parts(content_type@, body@) == Err::<Seq<(Seq<char>, Seq<u8>)>, Seq<char>>(m),
            },
        decreases body@.len() - pos,
    {
        if body.len() - pos >= 2 && body[pos] == 45 && body[pos + 1] == 45 {
            assert(body@.skip(pos as int).len() >= 2);
            assert(parts_view(parts@) + Seq::<(Seq<char>, Seq<u8>)>::empty() =~= parts_view(parts@));
            return Some(Ok(parts));
        }
        let p = if body.len() - pos >= 2 && body[pos] == 13 && body[pos + 1] == 10 {
            pos + 2
        } else {
            pos
        };
        let head_end = match find(body, &crlf2, p) {
            Some(h) => h,
            None => return Some(Err(string_of(chars_of("malformed part header").as_slice()))),
        };
        proof {
            lemma_first_window(body@, crlf2@, p as int);
        }
        let headers = from_utf8_lossy(byte_slice_copy(body, p, head_end).as_slice());
        let body_start = head_end + 4;
        let next = match find(body, delim, body_start) {
            Some(n) => n,
            None => return Some(Err(string_of(chars_of("unterminated part").as_slice()))),
        };
        proof {
            lemma_first_window(body@, d, body_start as int);
        }
        let end = if next >= 2 && body[next - 2] == 13 && body[next - 1] == 10 {
            next - 2
        } else {
            next
        };
        let name = part_file_name_exec(headers.as_str());
        let ghost parts_before = parts_view(parts@);
        match name {
            Some(n) => {
                if n.len() > 0 {
                    if end < body_start {
                        return None;
                    }
                    let content = byte_slice_copy(body, body_start, end);
                    parts.push((string_of(n.as_slice()), content));
                    assert(parts_view(parts@) =~= parts_before.push(
                        (n@, body@.subrange(body_start as int, end as int)),
                    ));
                }
            },
            None => {},
        }
        pos = next + delim.len();
    }
}

/// Parses a `multipart/form-data` body into its file parts (name and
/// content); form fields and file parts without a name are skipped.
pub fn parse_multipart(content_type: &str, body: &[u8]) -> (r: Result<Vec<(String, Vec<u8>)>, String>)
    requires
        !multipart_overlaps(content_type@, body@),
    ensures
        match multipart_parts(content_type@, body@) {
            Ok(ps) => r matches Ok(v) && parts_view(v@) == ps,
            Err(m) => r matches Err(e) && e@ == m,
        },
{
    match parse_multipart_checked(content_type, body) {
        Some(r) => r,
        None => {
            proof {
                assert(false);
            }
            Err(String::new())
        },
    }
}

// ---------------------------------------------------------------------------
// File kinds by extension
// ---------------------------------------------------------------------------

pub open spec fn strs_view(v: Seq<&str>) -> Seq<Seq<char>> {
    v.map_values(|s: &str| s@)
}

pub open spec fn str_pairs_view(v: Seq<(&str, &str)>) -> Seq<(Seq<char>, Seq<char>)> {
    v.map_values(|p: (&str, &str)| (p.0@, p.1@))
}

fn is_one_of(v: &Vec<char>, list: &[&str]) -> (b: bool)
    ensures
        b == strs_view(list@).contains(v@),
{
    let mut i: usize = 0;
    while i < list.len()
        invariant
            i <= list.len(),
            forall|k: int| 0 <= k < i ==> list@[k]@ != v@,
        decreases list.len() - i,
    {
        if chars_eq(v, &chars_of(list[i])) {
            assert(strs_view(list@)[i as int] == v@);
            return true;
        }
        i += 1;
    }
    assert forall|k: int| 0 <= k < strs_view(list@).len() implies strs_view(list@)[k] != v@ by {
        assert(strs_view(list@)[k] == list@[k]@);
    }
    false
}

/// The value paired with `key` in a table (first match).
pub open spec fn table_lookup(table: Seq<(Seq<char>, Seq<char>)>, key: Seq<char>) -> Option<Seq<char>>
    decreases table.len(),
{
    if table.len() == 0 {
        None
    } else if table[0].0 == key {
        Some(table[0].1)
    } else {
        table_lookup(table.drop_first(), key)
    }
}

fn lookup_exec(table: &[(&'static str, &'static str)], key: &Vec<char>) -> (r: Option<&'static str>)
    ensures
        match table_lookup(str_pairs_view(table@), key@) {
            Some(v) => r matches Some(x) && x@ == v,
            None => r is None,
        },
{
    let ghost tv = str_pairs_view(table@);
    let mut i: usize = 0;
    assert(tv.skip(0) =~= tv);
    while i < table.len()
        invariant
            i <= table.len(),
            tv == str_pairs_view(table@),
            table_lookup(tv, key@) == table_lookup(tv.skip(i as int), key@),
        decreases table.len() - i,
    {
        assert(tv.skip(i as int)[0] == (table@[i as int].0@, table@[i as int].1@));
        if chars_eq(&chars_of(table[i].0), key) {
            return Some(table[i].1);
        }
        assert(tv.skip(i as int).drop_first() =~= tv.skip(i + 1));
        i += 1;
    }
    None
}

/// The extension of a path's file name, ASCII-lowercased: what follows its
/// last `.`, provided that `.` is not the name's first character (`""`
/// when there is none).
pub open spec fn extension_spec(p: Seq<char>) -> Seq<char> {
    match crate::api::export::path_file_name(p) {
        None => seq![],
        Some(n) => match crate::text::rfind_char(n, '.') {
            Some(i) => if i > 0 {
                ascii_lower(n.skip(i + 1))
            } else {
                seq![]
            },
            None => seq![],
        },
    }
}

pub(crate) fn file_name_exec(p: &Vec<char>) -> (r: Option<Vec<char>>)
    ensures
        match crate::api::export::path_file_name(p@) {
            Some(n) => r matches Some(v) && v@ == n,
            None => r is None,
        },
{
    let segs = split_char_exec(p, '/');
    let ghost sv = segs@.map_values(|v: Vec<char>| v@);
    let mut last: Option<usize> = None;
    let mut i: usize = 0;
    assert(sv.take(0) =~= Seq::<Seq<char>>::empty());
    while i < segs.len()
        invariant
            i <= segs.len(),
            sv == segs@.map_values(|v: Vec<char>| v@),
            sv == split_char(p@, '/'),
            match last {
                Some(j) => j < i && crate::api::export::filter_components(sv.take(i as int)).len() > 0
                    && crate::api::export::filter_components(sv.take(i as int)).last() == sv[j as int],
                None => crate::api::export::filter_components(sv.take(i as int)).len() == 0,
            },
        decreases segs.len() - i,
    {
        assert(sv.take(i + 1).drop_last() =~= sv.take(i as int));
        assert(sv[i as int] == segs@[i as int]@);
        let x = &segs[i];
        let dot = x.len() == 1 && x[0] == '.';
        assert(dot == (x@ == seq!['.'])) by {
            if dot {
                assert(x@ =~= seq!['.']);
            }
        }
        if x.len() > 0 && !dot {
            last = Some(i);
        }
        i += 1;
    }
    assert(sv.take(segs.len() as int) =~= sv);
    match last {
        Some(j) => {
            let x = &segs[j];
            let dotdot = x.len() == 2 && x[0] == '.' && x[1] == '.';
            assert(dotdot == (x@ == seq!['.', '.'])) by {
                if dotdot {
                    assert(x@ =~= seq!['.', '.']);
                }
            }
            if dotdot {
                None
            } else {
                Some(sub_vec(x, 0, x.len()))
            }
        },
        None => None,
    }
}

/// The lowercase extension of a path (`""` when it has none).
pub fn extension_of(path: &str) -> (r: Vec<char>)
    ensures
        r@ == extension_spec(path@),
{
    match file_name_exec(&chars_of(path)) {
        None => Vec::new(),
        Some(n) => {
            proof {
                crate::text::lemma_rfind_char(n@, '.');
            }
            match crate::text::rfind_char_exec(&n, '.') {
                Some(i) => {
                    if i > 0 {
                        let e = sub_vec(&n, i + 1, n.len());
                        assert(e@ =~= n@.skip(i + 1));
                        ascii_lower_exec(&e)
                    } else {
                        Vec::new()
                    }
                },
                None => Vec::new(),
            }
        },
    }
}

/// Extensions of images.
pub open spec fn image_exts() -> Seq<Seq<char>> {
    seq!["png"@, "jpg"@, "jpeg"@, "gif"@, "webp"@, "bmp"@, "ico"@, "svg"@, "avif"@]
}

/// Extensions of audio files.
pub open spec fn audio_exts() -> Seq<Seq<char>> {
    seq!["mp3"@, "wav"@, "ogg"@, "flac"@, "m4a"@, "aac"@, "opus"@]
}

/// Extensions of videos.
pub open spec fn video_exts() -> Seq<Seq<char>> {
    seq!["mp4"@, "webm"@, "mov"@, "mkv"@, "avi"@]
}

/// Extensions of archives.
pub open spec fn archive_exts() -> Seq<Seq<char>> {
    seq!["zip"@, "tar"@, "gz"@, "tgz"@, "bz2"@, "xz"@, "7z"@, "rar"@]
}

/// Extensions of files that are not text.
pub open spec fn binary_exts() -> Seq<Seq<char>> {
    seq!["png"@, "jpg"@, "jpeg"@, "gif"@, "webp"@, "bmp"@, "ico"@, "avif"@, "mp3"@, "wav"@, "ogg"@, "flac"@, "m4a"@, "aac"@, "opus"@, "mp4"@, "webm"@, "mov"@, "mkv"@, "avi"@, "pdf"@, "docx"@, "doc"@, "zip"@, "tar"@, "gz"@, "tgz"@, "bz2"@, "xz"@, "7z"@, "rar"@, "class"@, "jar"@, "pyc"@, "pyo"@, "o"@, "so"@, "dll"@, "dylib"@, "exe"@, "bin"@, "wasm"@, "ttf"@, "otf"@, "woff"@, "woff2"@, "eot"@]
}

/// An extension of text files: empty, or not a known binary one.
pub open spec fn is_text_ext(ext: Seq<char>) -> bool {
    ext.len() == 0 || !binary_exts().contains(ext)
}

/// Whether an extension belongs to text files.
pub fn is_text_extension(ext: &Vec<char>) -> (b: bool)
    ensures
        b == is_text_ext(ext@),
{
    if ext.len() == 0 {
        return true;
    }
    let list = ["png", "jpg", "jpeg", "gif", "webp", "bmp", "ico", "avif", "mp3", "wav", "ogg", "flac", "m4a", "aac", "opus", "mp4", "webm", "mov", "mkv", "avi", "pdf", "docx", "doc", "zip", "tar", "gz", "tgz", "bz2", "xz", "7z", "rar", "class", "jar", "pyc", "pyo", "o", "so", "dll", "dylib", "exe", "bin", "wasm", "ttf", "otf", "woff", "woff2", "eot"];
    assert(strs_view(list@) =~= binary_exts());
    !is_one_of(ext, &list)
}

/// Preview kind of an extension.
pub open spec fn preview_kind_of(ext: Seq<char>) -> Seq<char> {
    if image_exts().contains(ext) {
        "image"@
    } else if audio_exts().contains(ext) {
        "audio"@
    } else if video_exts().contains(ext) {
        "video"@
    } else if ext == "pdf"@ {
        "pdf"@
    } else if ext == "docx"@ {
        "docx"@
    } else if archive_exts().contains(ext) {
        "archive"@
    } else if is_text_ext(ext) {
        "text"@
    } else {
        "binary"@
    }
}

/// How the file browser previews a path.
pub fn preview_kind(path: &str) -> (r: &'static str)
    ensures
        r@ == preview_kind_of(extension_spec(path@)),
{
    let ext = extension_of(path);
    let images = ["png", "jpg", "jpeg", "gif", "webp", "bmp", "ico", "svg", "avif"];
    assert(strs_view(images@) =~= image_exts());
    let audios = ["mp3", "wav", "ogg", "flac", "m4a", "aac", "opus"];
    assert(strs_view(audios@) =~= audio_exts());
    let videos = ["mp4", "webm", "mov", "mkv", "avi"];
    assert(strs_view(videos@) =~= video_exts());
    let archives = ["zip", "tar", "gz", "tgz", "bz2", "xz", "7z", "rar"];
    assert(strs_view(archives@) =~= archive_exts());
    if is_one_of(&ext, &images) {
        "image"
    } else if is_one_of(&ext, &audios) {
        "audio"
    } else if is_one_of(&ext, &videos) {
        "video"
    } else if chars_eq(&ext, &chars_of("pdf")) {
        "pdf"
    } else if chars_eq(&ext, &chars_of("docx")) {
        "docx"
    } else if is_one_of(&ext, &archives) {
        "archive"
    } else if is_text_extension(&ext) {
        "text"
    } else {
        "binary"
    }
}

/// MIME types by extension.
pub open spec fn mime_table() -> Seq<(Seq<char>, Seq<char>)> {
    seq![("png"@, "image/png"@), ("jpg"@, "image/jpeg"@), ("jpeg"@, "image/jpeg"@), ("gif"@, "image/gif"@), ("webp"@, "image/webp"@), ("bmp"@, "image/bmp"@), ("ico"@, "image/x-icon"@), ("svg"@, "image/svg+xml"@), ("avif"@, "image/avif"@), ("mp3"@, "audio/mpeg"@), ("wav"@, "audio/wav"@), ("ogg"@, "audio/ogg"@), ("flac"@, "audio/flac"@), ("m4a"@, "audio/mp4"@), ("aac"@, "audio/mp4"@), ("opus"@, "audio/opus"@), ("mp4"@, "video/mp4"@), ("webm"@, "video/webm"@), ("mov"@, "video/quicktime"@), ("mkv"@, "video/x-matroska"@), ("avi"@, "video/x-msvideo"@), ("pdf"@, "application/pdf"@), ("docx"@, "application/vnd.openxmlformats-officedocument.wordprocessingml.document"@)]
}

/// The MIME type of a path (`text/plain` for unknown extensions).
pub open spec fn mime_of(ext: Seq<char>) -> Seq<char> {
    match table_lookup(mime_table(), ext) {
        Some(m) => m,
        None => "text/plain"@,
    }
}

/// The MIME type a file is served with.
pub fn mime_for(path: &str) -> (r: String)
    ensures
        r@ == mime_of(extension_spec(path@)),
{
    let ext = extension_of(path);
    let table = [("png", "image/png"), ("jpg", "image/jpeg"), ("jpeg", "image/jpeg"), ("gif", "image/gif"), ("webp", "image/webp"), ("bmp", "image/bmp"), ("ico", "image/x-icon"), ("svg", "image/svg+xml"), ("avif", "image/avif"), ("mp3", "audio/mpeg"), ("wav", "audio/wav"), ("ogg", "audio/ogg"), ("flac", "audio/flac"), ("m4a", "audio/mp4"), ("aac", "audio/mp4"), ("opus", "audio/opus"), ("mp4", "video/mp4"), ("webm", "video/webm"), ("mov", "video/quicktime"), ("mkv", "video/x-matroska"), ("avi", "video/x-msvideo"), ("pdf", "application/pdf"), ("docx", "application/vnd.openxmlformats-officedocument.wordprocessingml.document")];
    assert(str_pairs_view(table@) =~= mime_table());
    match lookup_exec(&table, &ext) {
        Some(m) => string_of(chars_of(m).as_slice()),
        None => string_of(chars_of("text/plain").as_slice()),
    }
}

/// Document preview of an extension: `pdf` or `docx`.
pub open spec fn document_kind_of(ext: Seq<char>) -> Option<Seq<char>> {
    if ext == "pdf"@ {
        Some("pdf"@)
    } else if ext == "docx"@ {
        Some("docx"@)
    } else {
        None
    }
}

/// The document preview of a path, if any.
pub fn document_preview_kind(path: &str) -> (r: Option<&'static str>)
    ensures
        match document_kind_of(extension_spec(path@)) {
            Some(k) => r matches Some(x) && x@ == k,
            None => r is None,
        },
{
    let ext = extension_of(path);
    if chars_eq(&ext, &chars_of("pdf")) {
        Some("pdf")
    } else if chars_eq(&ext, &chars_of("docx")) {
        Some("docx")
    } else {
        None
    }
}

/// Highlighting languages by extension.
pub open spec fn language_table() -> Seq<(Seq<char>, Seq<char>)> {
    seq![("ts"@, "typescript"@), ("tsx"@, "typescript"@), ("js"@, "javascript"@), ("jsx"@, "javascript"@), ("mjs"@, "javascript"@), ("cjs"@, "javascript"@), ("py"@, "python"@), ("rb"@, "ruby"@), ("go"@, "go"@), ("rs"@, "rust"@), ("java"@, "java"@), ("kt"@, "kotlin"@), ("swift"@, "swift"@), ("c"@, "c"@), ("cpp"@, "cpp"@), ("cc"@, "cpp"@), ("cxx"@, "cpp"@), ("h"@, "c"@), ("hpp"@, "cpp"@), ("hh"@, "cpp"@), ("hxx"@, "cpp"@), ("cs"@, "csharp"@), ("html"@, "html"@), ("htm"@, "html"@), ("css"@, "css"@), ("scss"@, "css"@), ("sass"@, "css"@), ("less"@, "css"@), ("json"@, "json"@), ("jsonl"@, "json"@), ("yaml"@, "yaml"@), ("yml"@, "yaml"@), ("toml"@, "toml"@), ("xml"@, "xml"@), ("md"@, "markdown"@), ("mdx"@, "markdown"@), ("sh"@, "bash"@), ("bash"@, "bash"@), ("zsh"@, "bash"@), ("fish"@, "bash"@), ("sql"@, "sql"@), ("graphql"@, "graphql"@), ("gql"@, "graphql"@), ("tf"@, "hcl"@), ("hcl"@, "hcl"@), ("txt"@, "text"@)]
}

/// The highlighting language of an extension (`text` when unknown).
pub open spec fn language_of_ext(ext: Seq<char>) -> Seq<char> {
    match table_lookup(language_table(), ext) {
        Some(l) => l,
        None => "text"@,
    }
}

/// The highlighting language of an extension.
pub fn language_for_extension(ext: &Vec<char>) -> (r: &'static str)
    ensures
        r@ == language_of_ext(ext@),
{
    let table = [("ts", "typescript"), ("tsx", "typescript"), ("js", "javascript"), ("jsx", "javascript"), ("mjs", "javascript"), ("cjs", "javascript"), ("py", "python"), ("rb", "ruby"), ("go", "go"), ("rs", "rust"), ("java", "java"), ("kt", "kotlin"), ("swift", "swift"), ("c", "c"), ("cpp", "cpp"), ("cc", "cpp"), ("cxx", "cpp"), ("h", "c"), ("hpp", "cpp"), ("hh", "cpp"), ("hxx", "cpp"), ("cs", "csharp"), ("html", "html"), ("htm", "html"), ("css", "css"), ("scss", "css"), ("sass", "css"), ("less", "css"), ("json", "json"), ("jsonl", "json"), ("yaml", "yaml"), ("yml", "yaml"), ("toml", "toml"), ("xml", "xml"), ("md", "markdown"), ("mdx", "markdown"), ("sh", "bash"), ("bash", "bash"), ("zsh", "bash"), ("fish", "bash"), ("sql", "sql"), ("graphql", "graphql"), ("gql", "graphql"), ("tf", "hcl"), ("hcl", "hcl"), ("txt", "text")];
    assert(str_pairs_view(table@) =~= language_table());
    match lookup_exec(&table, ext) {
        Some(l) => l,
        None => "text",
    }
}

/// The highlighting language of a path: by its lowercased file name for
/// Dockerfiles, `.env` files and makefiles, else by its extension.
pub open spec fn language_of_path(p: Seq<char>) -> Seq<char> {
    let base = match crate::api::export::path_file_name(p) {
        Some(n) => crate::text::lowercase(n),
        None => seq![],
    };
    if base == "dockerfile"@ || starts_with(base, "dockerfile."@) {
        "dockerfile"@
    } else if base == ".env"@ || starts_with(base, ".env."@) {
        "bash"@
    } else if base == "makefile"@ || base == "gnumakefile"@ {
        "makefile"@
    } else {
        language_of_ext(extension_spec(p))
    }
}

/// The highlighting language of a path.
pub fn language_for_path(path: &str) -> (r: &'static str)
    ensures
        r@ == language_of_path(path@),
{
    let p = chars_of(path);
    let base = match file_name_exec(&p) {
        Some(n) => crate::text::lowercase_exec(&n),
        None => Vec::new(),
    };
    if chars_eq(&base, &chars_of("dockerfile")) || has_prefix(&base, &chars_of("dockerfile.")) {
        "dockerfile"
    } else if chars_eq(&base, &chars_of(".env")) || has_prefix(&base, &chars_of(".env.")) {
        "bash"
    } else if chars_eq(&base, &chars_of("makefile")) || chars_eq(&base, &chars_of("gnumakefile")) {
        "makefile"
    } else {
        language_for_extension(&extension_of(path))
    }
}

/// A path as the files API reads it: `~` expanded with `home`, then
/// resolved from `cwd`.
pub fn resolve_path(raw: &str, home: &str, cwd: &str) -> (r: String)
    ensures
        r@ == crate::paths::resolve_spec(
            crate::fs::directory_browser::expand_home(raw@, home@),
            cwd@,
        ),
{
    crate::fs::directory_browser::normalize_directory(raw, home, cwd)
}

} // verus!
