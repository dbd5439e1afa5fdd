//! Cross-platform path string helpers (no file-system access).
//!
//! Windows paths (`C:\...`, `C:/...` or `\\server\...`) have their
//! backslashes turned into forward slashes before any other processing.

use vstd::prelude::*;
use crate::text::{
    after_last, after_last_exec, append_chars, chars_of, has_prefix, lemma_rfind_char,
    replace_char, replace_char_exec, rfind_char, rfind_char_exec, split_char, split_char_exec,
    starts_with, string_of, sub_vec, trim_end_char, trim_end_char_exec,
};

verus! {

broadcast use vstd::string::group_string_axioms;

/// ASCII letter.
pub open spec fn is_ascii_alpha(c: char) -> bool {
    ('a' <= c && c <= 'z') || ('A' <= c && c <= 'Z')
}

/// The path is a Windows path: a drive prefix `X:\` or `X:/`, or a UNC
/// prefix `\\`.
pub open spec fn is_windows_style(p: Seq<char>) -> bool {
    ||| (p.len() >= 3 && is_ascii_alpha(p[0]) && p[1] == ':' && (p[2] == '\\' || p[2] == '/'))
    ||| (p.len() >= 2 && p[0] == '\\' && p[1] == '\\')
}

/// Windows paths with backslashes turned into slashes; other paths as they are.
pub open spec fn normalize_slashes_spec(p: Seq<char>) -> Seq<char> {
    if is_windows_style(p) {
        replace_char(p, '\\', '/')
    } else {
        p
    }
}

fn is_windows_style_exec(p: &Vec<char>) -> (b: bool)
    ensures
        b == is_windows_style(p@),
{
    (p.len() >= 3 && (('a' <= p[0] && p[0] <= 'z') || ('A' <= p[0] && p[0] <= 'Z')) && p[1] == ':'
        && (p[2] == '\\' || p[2] == '/')) || (p.len() >= 2 && p[0] == '\\' && p[1] == '\\')
}

/// [`normalize_slashes_spec`] on a character vector.
pub fn normalize_slashes_chars(p: &Vec<char>) -> (r: Vec<char>)
    ensures
        r@ == normalize_slashes_spec(p@),
{
    if is_windows_style_exec(p) {
        replace_char_exec(p, '\\', '/')
    } else {
        sub_vec(p, 0, p.len())
    }
}

/// Turns the backslashes of a Windows path (`C:\` or `\\`) into slashes.
pub fn normalize_file_path_slashes(file_path: &str) -> (r: String)
    ensures
        r@ == normalize_slashes_spec(file_path@),
{
    let p = chars_of(file_path);
    let r = normalize_slashes_chars(&p);
    string_of(r.as_slice())
}

// ---------------------------------------------------------------------------
// Percent-encoding
// ---------------------------------------------------------------------------

/// Bytes that `encodeURIComponent` leaves as they are.
pub open spec fn is_unreserved(b: u8) -> bool {
    ||| (48 <= b && b <= 57)
    ||| (65 <= b && b <= 90)
    ||| (97 <= b && b <= 122)
    ||| b == 45 || b == 95 || b == 46 || b == 33 || b == 126 || b == 42 || b == 39 || b == 40
        || b == 41
}

/// Uppercase hexadecimal digit for `d < 16`.
pub open spec fn hex_digit(d: int) -> char {
    seq!['0', '1', '2', '3', '4', '5', '6', '7', '8', '9', 'A', 'B', 'C', 'D', 'E', 'F'][d]
}

/// One byte, percent-encoded unless unreserved.
pub open spec fn encode_byte(b: u8) -> Seq<char> {
    if is_unreserved(b) {
        seq![b as char]
    } else {
        seq!['%', hex_digit(b as int / 16), hex_digit(b as int % 16)]
    }
}

/// Percent-encoding of a byte string.
pub open spec fn url_encode_bytes(bs: Seq<u8>) -> Seq<char>
    decreases bs.len(),
{
    if bs.len() == 0 {
        seq![]
    } else {
        url_encode_bytes(bs.drop_last()) + encode_byte(bs.last())
    }
}

/// `encodeURIComponent` of a string: its UTF-8 bytes, percent-encoded.
pub open spec fn url_encode_spec(s: Seq<char>) -> Seq<char> {
    url_encode_bytes(vstd::utf8::encode_utf8(s))
}

pub fn hex_digit_exec(d: u8) -> (c: char)
    requires
        d < 16,
    ensures
        c == hex_digit(d as int),
{
    let digits = ['0', '1', '2', '3', '4', '5', '6', '7', '8', '9', 'A', 'B', 'C', 'D', 'E', 'F'];
    assert(digits@ == seq![
        '0', '1', '2', '3', '4', '5', '6', '7', '8', '9', 'A', 'B', 'C', 'D', 'E', 'F',
    ]);
    digits[d as usize]
}

/// `encodeURIComponent`: percent-encodes every UTF-8 byte outside
/// `A-Z a-z 0-9 - _ . ! ~ * ' ( )`, with uppercase hex digits.
pub fn url_encode_component(s: &str) -> (r: String)
    ensures
        r@ == url_encode_spec(s@),
{
    let bytes = s.as_bytes();
    let ghost bs = bytes@;
    assert(bs == vstd::utf8::encode_utf8(s@));
    let mut out: Vec<char> = Vec::new();
    let mut i: usize = 0;
    assert(bs.take(0) =~= Seq::<u8>::empty());
    while i < bytes.len()
        invariant
            i <= bytes.len(),
            bs == bytes@,
            out@ == url_encode_bytes(bs.take(i as int)),
        decreases bytes.len() - i,
    {
        let b = bytes[i];
        assert(bs.take(i + 1).drop_last() =~= bs.take(i as int));
        let ghost before = out@;
        if (48 <= b && b <= 57) || (65 <= b && b <= 90) || (97 <= b && b <= 122) || b == 45 || b
            == 95 || b == 46 || b == 33 || b == 126 || b == 42 || b == 39 || b == 40 || b == 41 {
            out.push(b as char);
        } else {
            out.push('%');
            out.push(hex_digit_exec(b / 16));
            out.push(hex_digit_exec(b % 16));
        }
        assert(out@ =~= before + encode_byte(b));
        i += 1;
    }
    assert(bs.take(bytes.len() as int) =~= bs);
    string_of(out.as_slice())
}

// ---------------------------------------------------------------------------
// Path pieces
// ---------------------------------------------------------------------------

/// The non-empty segments of a list, in order.
pub open spec fn nonempty_segments(segs: Seq<Seq<char>>) -> Seq<Seq<char>>
    decreases segs.len(),
{
    if segs.len() == 0 {
        seq![]
    } else {
        let rest = nonempty_segments(segs.drop_last());
        if segs.last().len() > 0 {
            rest.push(segs.last())
        } else {
            rest
        }
    }
}

/// Segments joined with a separator.
pub open spec fn join_with(segs: Seq<Seq<char>>, sep: char) -> Seq<char>
    decreases segs.len(),
{
    if segs.len() == 0 {
        seq![]
    } else if segs.len() == 1 {
        segs[0]
    } else {
        join_with(segs.drop_last(), sep).push(sep) + segs.last()
    }
}

/// The path for an API URL: its non-empty `/` segments (after slash
/// normalisation), each percent-encoded, joined with `/`.
pub open spec fn api_path_spec(p: Seq<char>) -> Seq<char> {
    join_with(
        nonempty_segments(split_char(normalize_slashes_spec(p), '/')).map_values(
            |s: Seq<char>| url_encode_spec(s),
        ),
        '/',
    )
}

/// Percent-encodes each non-empty segment of a path and joins them with `/`.
pub fn encode_file_path_for_api(file_path: &str) -> (r: String)
    ensures
        r@ == api_path_spec(file_path@),
{
    let p = chars_of(file_path);
    let n = normalize_slashes_chars(&p);
    let segs = split_char_exec(&n, '/');
    let ghost sv = segs@.map_values(|v: Vec<char>| v@);
    assert(sv == split_char(n@, '/'));
    let ghost enc = |s: Seq<char>| url_encode_spec(s);
    let mut out: Vec<char> = Vec::new();
    let mut count: usize = 0;
    let mut i: usize = 0;
    assert(sv.take(0) =~= Seq::<Seq<char>>::empty());
    while i < segs.len()
        invariant
            i <= segs.len(),
            sv == segs@.map_values(|v: Vec<char>| v@),
            count == nonempty_segments(sv.take(i as int)).len(),
            count <= i,
            out@ == join_with(nonempty_segments(sv.take(i as int)).map_values(enc), '/'),
            enc == (|s: Seq<char>| url_encode_spec(s)),
        decreases segs.len() - i,
    {
        assert(sv.take(i + 1).drop_last() =~= sv.take(i as int));
        assert(sv[i as int] == segs@[i as int]@);
        if segs[i].len() > 0 {
            let ghost prev = nonempty_segments(sv.take(i as int));
            let seg = string_of(segs[i].as_slice());
            let e = url_encode_component(seg.as_str());
            let ev = chars_of(e.as_str());
            if count > 0 {
                out.push('/');
            }
            append_chars(&mut out, &ev);
            assert(prev.push(sv[i as int]).map_values(enc) =~= prev.map_values(enc).push(
                enc(sv[i as int]),
            ));
            if count == 0 {
                assert(prev.len() == 0);
                assert(prev.map_values(enc) =~= Seq::<Seq<char>>::empty());
            } else {
                assert(prev.push(sv[i as int]).map_values(enc).drop_last() =~= prev.map_values(
                    enc,
                ));
            }
            count = count + 1;
        }
        i += 1;
    }
    assert(sv.take(segs.len() as int) =~= sv);
    string_of(out.as_slice())
}

/// A path without its trailing slashes, after slash normalisation.
pub open spec fn trimmed_path(p: Seq<char>) -> Seq<char> {
    trim_end_char(normalize_slashes_spec(p), '/')
}

/// Last segment of a path (trailing slashes ignored).
pub open spec fn file_name_spec(p: Seq<char>) -> Seq<char> {
    after_last(trimmed_path(p), '/')
}

/// Last segment of a path (trailing slashes ignored).
pub fn get_file_name(file_path: &str) -> (r: String)
    ensures
        r@ == file_name_spec(file_path@),
{
    let p = chars_of(file_path);
    let n = normalize_slashes_chars(&p);
    let t = trim_end_char_exec(&n, '/');
    let r = after_last_exec(&t, '/');
    string_of(r.as_slice())
}

/// Everything but the last segment of a path: `""` when there is no `/`,
/// `/` for a top-level entry, `X:/` for an entry at the root of a drive.
pub open spec fn file_directory_spec(p: Seq<char>) -> Seq<char> {
    let t = trimmed_path(p);
    match rfind_char(t, '/') {
        None => seq![],
        Some(j) => if j == 0 {
            seq!['/']
        } else if j == 2 && t[1] == ':' && (t[0] as u32) < 0x80 {
            t.take(3)
        } else {
            t.take(j)
        },
    }
}

/// Everything but the last segment of a path.
pub fn get_file_directory(file_path: &str) -> (r: String)
    ensures
        r@ == file_directory_spec(file_path@),
{
    let p = chars_of(file_path);
    let n = normalize_slashes_chars(&p);
    let t = trim_end_char_exec(&n, '/');
    proof {
        lemma_rfind_char(t@, '/');
    }
    let d = match rfind_char_exec(&t, '/') {
        None => Vec::new(),
        Some(j) => {
            if j == 0 {
                let mut v: Vec<char> = Vec::new();
                v.push('/');
                assert(v@ =~= seq!['/']);
                v
            } else if j == 2 && t[1] == ':' && (t[0] as u32) < 0x80 {
                sub_vec(&t, 0, 3)
            } else {
                sub_vec(&t, 0, j)
            }
        },
    };
    string_of(d.as_slice())
}

/// The path relative to `cwd` when it lies under `cwd`, else the path as
/// given.
pub open spec fn relative_path_spec(p: Seq<char>, cwd: Option<Seq<char>>) -> Seq<char> {
    match cwd {
        None => p,
        Some(c) => {
            let base = trimmed_path(c).push('/');
            let np = normalize_slashes_spec(p);
            if starts_with(np, base) {
                np.skip(base.len() as int)
            } else {
                p
            }
        },
    }
}

/// The view of an optional string slice.
pub open spec fn opt_view(o: Option<&str>) -> Option<Seq<char>> {
    match o {
        Some(s) => Some(s@),
        None => None,
    }
}

/// The path relative to `cwd` when it lies under `cwd`, else the path.
pub fn get_relative_file_path(file_path: &str, cwd: Option<&str>) -> (r: String)
    ensures
        r@ == relative_path_spec(file_path@, opt_view(cwd)),
{
    let p = chars_of(file_path);
    match cwd {
        None => string_of(p.as_slice()),
        Some(c) => {
            let cv = chars_of(c);
            let nc = normalize_slashes_chars(&cv);
            let mut base = trim_end_char_exec(&nc, '/');
            base.push('/');
            let np = normalize_slashes_chars(&p);
            if has_prefix(&np, &base) {
                let rest = sub_vec(&np, base.len(), np.len());
                string_of(rest.as_slice())
            } else {
                string_of(p.as_slice())
            }
        },
    }
}

/// `parent` (normalised, trailing slashes removed), `/`, then `child`.
pub open spec fn join_path_spec(parent: Seq<char>, child: Seq<char>) -> Seq<char> {
    trimmed_path(parent).push('/') + child
}

/// Joins a parent directory and a child name with one `/`.
pub fn join_file_path(parent: &str, child: &str) -> (r: String)
    ensures
        r@ == join_path_spec(parent@, child@),
{
    let pv = chars_of(parent);
    let n = normalize_slashes_chars(&pv);
    let mut t = trim_end_char_exec(&n, '/');
    t.push('/');
    let cv = chars_of(child);
    append_chars(&mut t, &cv);
    string_of(t.as_slice())
}

} // verus!
