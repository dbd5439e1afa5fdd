//! HTTP Basic authentication for the web UI.
//!
//! The `Authorization` header must read `Basic <token>` (scheme matched
//! case-insensitively, any whitespace run as separator), the token must be
//! canonical standard base64 of UTF-8 `user:password`, the user must be
//! [`PI_WEB_AUTH_USERNAME`] and the password the configured one.  Both
//! comparisons are made between SHA-256 digests.

use sha2::{Digest, Sha256};
use vstd::prelude::*;
use vstd::utf8::{encode_utf8, encode_utf8_valid_utf8, valid_utf8};
use crate::text::{chars_eq, chars_of, is_ws, is_ws_exec, trim, trim_exec, trim_start};

verus! {

pub const PI_WEB_AUTH_USERNAME: &'static str = "pi";

// ---------------------------------------------------------------------------
// Trusted items
// ---------------------------------------------------------------------------

/// The SHA-256 digest of a byte string.
pub uninterp spec fn sha256_digest(data: Seq<u8>) -> Seq<u8>;

/// `sha2::Sha256` (`new`, `update`, `finalize`): the digest of `data`,
/// named by [`sha256_digest`]; SHA-256 digests are 32 bytes long.
#[verifier::external_body]
fn sha256(data: &[u8]) -> (r: Vec<u8>)
    ensures
        r@ == sha256_digest(data@),
        r@.len() == 32,
{
    let mut hasher = Sha256::new();
    hasher.update(data);
    hasher.finalize().to_vec()
}

/// `std::str::from_utf8(bytes).is_ok()`: whether `bytes` is well-formed UTF-8.
#[verifier::external_body]
pub(crate) fn is_valid_utf8(bytes: &[u8]) -> (r: bool)
    ensures
        r == valid_utf8(bytes@),
{
    std::str::from_utf8(bytes).is_ok()
}

// ---------------------------------------------------------------------------
// Base64 (standard alphabet, `=` padding)
// ---------------------------------------------------------------------------

/// Value of a base64 alphabet character.
pub open spec fn b64_val(c: char) -> Option<u8> {
    if 'A' <= c && c <= 'Z' {
        Some((c as u32 - 65) as u8)
    } else if 'a' <= c && c <= 'z' {
        Some((c as u32 - 97 + 26) as u8)
    } else if '0' <= c && c <= '9' {
        Some((c as u32 - 48 + 52) as u8)
    } else if c == '+' {
        Some(62u8)
    } else if c == '/' {
        Some(63u8)
    } else {
        None
    }
}

/// Alphabet character of a 6-bit value.
pub open spec fn b64_char(v: u8) -> char {
    if v < 26 {
        ((65 + v) as u8) as char
    } else if v < 52 {
        ((97 + v - 26) as u8) as char
    } else if v < 62 {
        ((48 + v - 52) as u8) as char
    } else if v == 62 {
        '+'
    } else {
        '/'
    }
}

pub open spec fn b64_or_pad(c: char) -> bool {
    b64_val(c) is Some || c == '='
}

pub open spec fn all_b64(s: Seq<char>) -> bool {
    forall|i: int| 0 <= i < s.len() ==> b64_or_pad(#[trigger] s[i])
}

/// Value used in decoding: alphabet value, 0 for padding.
pub open spec fn val0(c: char) -> u8 {
    match b64_val(c) {
        Some(v) => v,
        None => 0,
    }
}

pub open spec fn pad_at(c: char) -> int {
    if c == '=' {
        1
    } else {
        0
    }
}

/// Number of `=` in a 4-character chunk.
pub open spec fn pad_count(ch: Seq<char>) -> int {
    pad_at(ch[0]) + pad_at(ch[1]) + pad_at(ch[2]) + pad_at(ch[3])
}

/// The `=` of a chunk all stand at its end.
pub open spec fn pad_ok(ch: Seq<char>) -> bool {
    let p = pad_count(ch);
    ||| p == 0
    ||| p == 1 && ch[3] == '='
    ||| p == 2 && ch[2] == '=' && ch[3] == '='
    ||| p == 3 && ch[1] == '=' && ch[2] == '=' && ch[3] == '='
    ||| p == 4
}

/// Bytes of one 4-character chunk.
pub open spec fn decode_chunk(ch: Seq<char>) -> Option<Seq<u8>> {
    if !pad_ok(ch) {
        None
    } else {
        let v0 = val0(ch[0]);
        let v1 = val0(ch[1]);
        let v2 = val0(ch[2]);
        let v3 = val0(ch[3]);
        let b0 = (v0 << 2u8) | (v1 >> 4u8);
        let b1 = (v1 << 4u8) | (v2 >> 2u8);
        let b2 = (v2 << 6u8) | v3;
        let p = pad_count(ch);
        Some(
            if p >= 2 {
                seq![b0]
            } else if p == 1 {
                seq![b0, b1]
            } else {
                seq![b0, b1, b2]
            },
        )
    }
}

/// Bytes of the first `k` chunks of `s`.
pub open spec fn decode_upto(s: Seq<char>, k: int) -> Option<Seq<u8>>
    decreases k,
{
    if k <= 0 {
        Some(Seq::empty())
    } else {
        match decode_upto(s, k - 1) {
            None => None,
            Some(pre) => match decode_chunk(s.subrange(4 * (k - 1), 4 * k)) {
                None => None,
                Some(c) => Some(pre + c),
            },
        }
    }
}

/// Strict standard base64 decoding of a (trimmed) string: non-empty, a
/// multiple of four characters, alphabet or `=` only, padding only at the
/// end of a chunk.
pub open spec fn base64_decode_spec(input: Seq<char>) -> Option<Seq<u8>> {
    let t = trim(input);
    if t.len() == 0 || !all_b64(t) || t.len() % 4 != 0 {
        None
    } else {
        decode_upto(t, t.len() as int / 4)
    }
}

/// Four characters of a full 3-byte group.
pub open spec fn encode_group(b0: u8, b1: u8, b2: u8) -> Seq<char> {
    seq![
        b64_char(b0 >> 2u8),
        b64_char(((b0 & 3u8) << 4u8) | (b1 >> 4u8)),
        b64_char(((b1 & 15u8) << 2u8) | (b2 >> 6u8)),
        b64_char(b2 & 63u8),
    ]
}

/// Encoding of the first `k` full groups of `b`.
pub open spec fn encode_groups(b: Seq<u8>, k: int) -> Seq<char>
    decreases k,
{
    if k <= 0 {
        Seq::empty()
    } else {
        encode_groups(b, k - 1) + encode_group(b[3 * k - 3], b[3 * k - 2], b[3 * k - 1])
    }
}

/// Encoding of the final one or two bytes, padded.
pub open spec fn encode_tail(t: Seq<u8>) -> Seq<char> {
    if t.len() == 1 {
        seq![b64_char(t[0] >> 2u8), b64_char((t[0] & 3u8) << 4u8), '=', '=']
    } else if t.len() == 2 {
        seq![
            b64_char(t[0] >> 2u8),
            b64_char(((t[0] & 3u8) << 4u8) | (t[1] >> 4u8)),
            b64_char((t[1] & 15u8) << 2u8),
            '=',
        ]
    } else {
        Seq::empty()
    }
}

/// Canonical standard base64 encoding (`Buffer.toString("base64")`).
pub open spec fn base64_encode_spec(b: Seq<u8>) -> Seq<char> {
    encode_groups(b, b.len() as int / 3) + encode_tail(b.skip(3 * (b.len() as int / 3)))
}

fn b64_val_exec(c: char) -> (r: Option<u8>)
    ensures
        r == b64_val(c),
{
    if 'A' <= c && c <= 'Z' {
        Some((c as u32 - 65) as u8)
    } else if 'a' <= c && c <= 'z' {
        Some((c as u32 - 97 + 26) as u8)
    } else if '0' <= c && c <= '9' {
        Some((c as u32 - 48 + 52) as u8)
    } else if c == '+' {
        Some(62u8)
    } else if c == '/' {
        Some(63u8)
    } else {
        None
    }
}

fn b64_char_exec(v: u8) -> (c: char)
    requires
        v < 64,
    ensures
        c == b64_char(v),
{
    if v < 26 {
        (65u8 + v) as char
    } else if v < 52 {
        (97u8 + v - 26u8) as char
    } else if v < 62 {
        (48u8 + v - 52u8) as char
    } else if v == 62 {
        '+'
    } else {
        '/'
    }
}

fn val0_exec(c: char) -> (r: u8)
    ensures
        r == val0(c),
{
    match b64_val_exec(c) {
        Some(v) => v,
        None => 0,
    }
}

fn decode_chunk_exec(c0: char, c1: char, c2: char, c3: char) -> (r: Option<Vec<u8>>)
    ensures
        match r {
            Some(v) => decode_chunk(seq![c0, c1, c2, c3]) == Some(v@),
            None => decode_chunk(seq![c0, c1, c2, c3]) is None,
        },
{
    let ghost ch = seq![c0, c1, c2, c3];
    let p: u8 = (if c0 == '=' { 1u8 } else { 0u8 }) + (if c1 == '=' { 1u8 } else { 0u8 }) + (
    if c2 == '=' {
        1u8
    } else {
        0u8
    }) + (if c3 == '=' { 1u8 } else { 0u8 });
    assert(p as int == pad_count(ch));
    let ok = p == 0 || (p == 1 && c3 == '=') || (p == 2 && c2 == '=' && c3 == '=') || (p == 3
        && c1 == '=' && c2 == '=' && c3 == '=') || p == 4;
    if !ok {
        return None;
    }
    let v0 = val0_exec(c0);
    let v1 = val0_exec(c1);
    let v2 = val0_exec(c2);
    let v3 = val0_exec(c3);
    let b0 = (v0 << 2u8) | (v1 >> 4u8);
    let b1 = (v1 << 4u8) | (v2 >> 2u8);
    let b2 = (v2 << 6u8) | v3;
    let mut out: Vec<u8> = Vec::new();
    out.push(b0);
    if p < 2 {
        out.push(b1);
    }
    if p < 1 {
        out.push(b2);
    }
    Some(out)
}

fn all_b64_exec(t: &Vec<char>) -> (r: bool)
    ensures
        r == all_b64(t@),
{
    let mut i: usize = 0;
    while i < t.len()
        invariant
            i <= t.len(),
            forall|j: int| 0 <= j < i ==> b64_or_pad(#[trigger] t@[j]),
        decreases t.len() - i,
    {
        let c = t[i];
        if b64_val_exec(c).is_none() && c != '=' {
            assert(!b64_or_pad(t@[i as int]));
            return false;
        }
        i += 1;
    }
    true
}

/// Strict standard base64 decoding of a character sequence.
fn base64_decode_chars(input: &Vec<char>) -> (r: Option<Vec<u8>>)
    ensures
        match r {
            Some(v) => base64_decode_spec(input@) == Some(v@),
            None => base64_decode_spec(input@) is None,
        },
{
    let t = trim_exec(input);
    if t.len() == 0 || !all_b64_exec(&t) || t.len() % 4 != 0 {
        return None;
    }
    let n = t.len() / 4;
    let mut out: Vec<u8> = Vec::new();
    let mut k: usize = 0;
    while k < n
        invariant
            t@ == trim(input@),
            n == t.len() / 4,
            k <= n,
            decode_upto(t@, k as int) == Some(out@),
        decreases n - k,
    {
        let i = 4 * k;
        let ghost ch = t@.subrange(4 * k, 4 * k + 4);
        assert(ch =~= seq![t@[i as int], t@[i + 1], t@[i + 2], t@[i + 3]]);
        match decode_chunk_exec(t[i], t[i + 1], t[i + 2], t[i + 3]) {
            Some(c) => {
                let ghost pre = out@;
                let ghost cv = c@;
                let mut c = c;
                out.append(&mut c);
                assert(t@.subrange(4 * ((k + 1) - 1), 4 * (k + 1)) == ch);
                assert(decode_chunk(ch) == Some(cv));
                assert(decode_upto(t@, k + 1) == Some(pre + cv));
            },
            None => {
                assert(t@.subrange(4 * ((k + 1) - 1), 4 * (k + 1)) == ch);
                assert(decode_upto(t@, k + 1) is None);
                proof {
                    lemma_decode_upto_none(t@, k as int + 1, n as int);
                }
                return None;
            },
        }
        k += 1;
    }
    Some(out)
}

proof fn lemma_decode_upto_none(s: Seq<char>, k: int, n: int)
    requires
        0 < k <= n,
        decode_upto(s, k) is None,
    ensures
        decode_upto(s, n) is None,
    decreases n - k,
{
    if k < n {
        lemma_decode_upto_none(s, k + 1, n);
    }
}

/// `base64_decode`: trimmed, strict standard base64 decoding of a string.
fn base64_decode(input: &str) -> (r: Option<Vec<u8>>)
    ensures
        match r {
            Some(v) => base64_decode_spec(input@) == Some(v@),
            None => base64_decode_spec(input@) is None,
        },
{
    let chars = chars_of(input);
    base64_decode_chars(&chars)
}

/// `base64_encode`: canonical standard base64 encoding.
fn base64_encode(input: &[u8]) -> (r: Vec<char>)
    ensures
        r@ == base64_encode_spec(input@),
{
    let n = input.len() / 3;
    let mut out: Vec<char> = Vec::new();
    let mut k: usize = 0;
    while k < n
        invariant
            n == input.len() / 3,
            k <= n,
            out@ == encode_groups(input@, k as int),
        decreases n - k,
    {
        let b0 = input[3 * k];
        let b1 = input[3 * k + 1];
        let b2 = input[3 * k + 2];
        assert(b0 >> 2u8 < 64 && ((b0 & 3u8) << 4u8) | (b1 >> 4u8) < 64 && ((b1 & 15u8) << 2u8)
            | (b2 >> 6u8) < 64 && b2 & 63u8 < 64) by (bit_vector);
        out.push(b64_char_exec(b0 >> 2u8));
        out.push(b64_char_exec(((b0 & 3u8) << 4u8) | (b1 >> 4u8)));
        out.push(b64_char_exec(((b1 & 15u8) << 2u8) | (b2 >> 6u8)));
        out.push(b64_char_exec(b2 & 63u8));
        assert(out@ =~= encode_groups(input@, k as int + 1));
        k += 1;
    }
    let i = 3 * n;
    let rem = input.len() - i;
    let ghost t = input@.skip(i as int);
    if rem == 1 {
        let b0 = input[i];
        assert(b0 >> 2u8 < 64 && (b0 & 3u8) << 4u8 < 64) by (bit_vector);
        out.push(b64_char_exec(b0 >> 2u8));
        out.push(b64_char_exec((b0 & 3u8) << 4u8));
        out.push('=');
        out.push('=');
        assert(t[0] == b0);
    } else if rem == 2 {
        let b0 = input[i];
        let b1 = input[i + 1];
        assert(b0 >> 2u8 < 64 && ((b0 & 3u8) << 4u8) | (b1 >> 4u8) < 64 && (b1 & 15u8) << 2u8
            < 64) by (bit_vector);
        out.push(b64_char_exec(b0 >> 2u8));
        out.push(b64_char_exec(((b0 & 3u8) << 4u8) | (b1 >> 4u8)));
        out.push(b64_char_exec((b1 & 15u8) << 2u8));
        out.push('=');
        assert(t[0] == b0 && t[1] == b1);
    }
    assert(out@ =~= base64_encode_spec(input@));
    out
}


// ---------------------------------------------------------------------------
// Basic authorization header
// ---------------------------------------------------------------------------

/// `Basic` matched case-insensitively (Unicode simple case folding, which
/// also folds `ſ` onto `s`).
pub open spec fn is_basic_word(w: Seq<char>) -> bool {
    &&& w.len() == 5
    &&& (w[0] == 'B' || w[0] == 'b')
    &&& (w[1] == 'A' || w[1] == 'a')
    &&& (w[2] == 'S' || w[2] == 's' || w[2] == '\u{17f}')
    &&& (w[3] == 'I' || w[3] == 'i')
    &&& (w[4] == 'C' || w[4] == 'c')
}

pub open spec fn no_ws(s: Seq<char>) -> bool {
    forall|i: int| 0 <= i < s.len() ==> !is_ws(#[trigger] s[i])
}

/// The token of `^Basic\s+(\S+)$` (case-insensitive), if the header matches.
pub open spec fn basic_token(auth: Seq<char>) -> Option<Seq<char>> {
    if auth.len() >= 5 && is_basic_word(auth.take(5)) {
        let rest = auth.skip(5);
        let t = trim_start(rest);
        if t.len() < rest.len() && t.len() > 0 && no_ws(t) {
            Some(t)
        } else {
            None
        }
    } else {
        None
    }
}

/// Index of the first `x` in `b` at or after `i`.
pub open spec fn find_byte_from(b: Seq<u8>, x: u8, i: int) -> Option<int>
    decreases b.len() - i,
{
    if i < 0 || i >= b.len() {
        None
    } else if b[i] == x {
        Some(i)
    } else {
        find_byte_from(b, x, i + 1)
    }
}

/// Index of the first `:` byte.
pub open spec fn find_colon(b: Seq<u8>) -> Option<int> {
    find_byte_from(b, 58u8, 0)
}

/// Bytes of [`PI_WEB_AUTH_USERNAME`].
pub open spec fn pi_user_bytes() -> Seq<u8> {
    seq![112u8, 105u8]
}

/// `isWebPasswordEnabled`.
pub open spec fn password_enabled(password: Option<Seq<char>>) -> bool {
    match password {
        Some(p) => p.len() > 0,
        None => false,
    }
}

/// `isValidBasicAuthorization`, with both secret comparisons made on
/// SHA-256 digests.
pub open spec fn basic_auth_valid(authorization: Option<Seq<char>>, password: Option<Seq<char>>) -> bool {
    match (authorization, password) {
        (Some(a), Some(p)) => {
            &&& p.len() > 0
            &&& basic_token(a) matches Some(t)
            &&& base64_decode_spec(t) matches Some(d)
            &&& base64_encode_spec(d) == t
            &&& valid_utf8(d)
            &&& find_colon(d) matches Some(i)
            &&& sha256_digest(d.take(i)) == sha256_digest(pi_user_bytes())
            &&& sha256_digest(d.skip(i + 1)) == sha256_digest(encode_utf8(p))
        },
        _ => false,
    }
}

pub open spec fn opt_str(o: Option<&str>) -> Option<Seq<char>> {
    match o {
        Some(s) => Some(s@),
        None => None,
    }
}

/// `isWebPasswordEnabled`: a password is configured and not empty.
pub fn is_web_password_enabled(password: Option<&str>) -> (r: bool)
    ensures
        r == password_enabled(opt_str(password)),
{
    match password {
        Some(p) => !p.is_empty(),
        None => false,
    }
}

/// Constant-time comparison of the SHA-256 digests of two byte strings.
fn digests_equal(a: &[u8], b: &[u8]) -> (r: bool)
    ensures
        r == (sha256_digest(a@) == sha256_digest(b@)),
{
    let h1 = sha256(a);
    let h2 = sha256(b);
    let mut diff: u8 = 0;
    let mut i: usize = 0;
    while i < 32
        invariant
            h1@.len() == 32,
            h2@.len() == 32,
            i <= 32,
            (diff == 0) == (forall|j: int| 0 <= j < i ==> h1@[j] == h2@[j]),
        decreases 32 - i,
    {
        let x = h1[i];
        let y = h2[i];
        assert((diff | (x ^ y)) == 0 <==> (diff == 0 && x == y)) by (bit_vector);
        diff = diff | (x ^ y);
        i += 1;
    }
    assert((diff == 0) == (h1@ =~= h2@));
    diff == 0
}

/// `secrets_equal`: whether two strings have equal SHA-256 digests of their
/// UTF-8 bytes (compared in constant time).
pub fn secrets_equal(actual: &str, expected: &str) -> (r: bool)
    ensures
        r == (sha256_digest(encode_utf8(actual@)) == sha256_digest(encode_utf8(expected@))),
{
    digests_equal(actual.as_bytes(), expected.as_bytes())
}

fn basic_token_exec(a: &Vec<char>) -> (r: Option<Vec<char>>)
    ensures
        match r {
            Some(t) => basic_token(a@) == Some(t@),
            None => basic_token(a@) is None,
        },
{
    if a.len() < 5 {
        return None;
    }
    let ok = (a[0] == 'B' || a[0] == 'b') && (a[1] == 'A' || a[1] == 'a') && (a[2] == 'S' || a[2]
        == 's' || a[2] == '\u{17f}') && (a[3] == 'I' || a[3] == 'i') && (a[4] == 'C' || a[4]
        == 'c');
    assert(ok == is_basic_word(a@.take(5)));
    if !ok {
        return None;
    }
    let ghost rest = a@.skip(5);
    let mut i: usize = 5;
    while i < a.len() && is_ws_exec(a[i])
        invariant
            5 <= i <= a.len(),
            rest == a@.skip(5),
            trim_start(rest) == trim_start(a@.skip(i as int)),
        decreases a.len() - i,
    {
        assert(a@.skip(i as int).drop_first() =~= a@.skip(i + 1));
        i += 1;
    }
    let ghost t = a@.skip(i as int);
    assert(trim_start(t) == t);
    if i == 5 || i == a.len() {
        return None;
    }
    let mut j: usize = i;
    while j < a.len()
        invariant
            5 < i <= j <= a.len(),
            t == a@.skip(i as int),
            a@.len() >= 5 && is_basic_word(a@.take(5)),
            trim_start(a@.skip(5)) == t,
            forall|k: int| 0 <= k < j - i ==> !is_ws(#[trigger] t[k]),
        decreases a.len() - j,
    {
        if is_ws_exec(a[j]) {
            assert(is_ws(t[j - i]));
            return None;
        }
        j += 1;
    }
    let mut out: Vec<char> = Vec::new();
    let mut k: usize = i;
    while k < a.len()
        invariant
            5 < i <= k <= a.len(),
            out@ == a@.subrange(i as int, k as int),
            t == a@.skip(i as int),
            a@.len() >= 5 && is_basic_word(a@.take(5)),
            trim_start(a@.skip(5)) == t,
            no_ws(t),
        decreases a.len() - k,
    {
        out.push(a[k]);
        k += 1;
    }
    assert(out@ =~= t);
    Some(out)
}

proof fn lemma_find_byte_from(b: Seq<u8>, x: u8, i: int)
    ensures
        match find_byte_from(b, x, i) {
            Some(k) => 0 <= i <= k < b.len() && b[k] == x && forall|j: int| i <= j < k ==> b[j] != x,
            None => forall|j: int| 0 <= i <= j < b.len() ==> b[j] != x,
        },
    decreases b.len() - i,
{
    if i < 0 || i >= b.len() {
    } else if b[i] == x {
    } else {
        lemma_find_byte_from(b, x, i + 1);
    }
}

proof fn lemma_find_colon_bound(d: Seq<u8>)
    ensures
        find_colon(d) matches Some(i) ==> 0 <= i < d.len(),
{
    lemma_find_byte_from(d, 58u8, 0);
}

fn find_colon_exec(d: &Vec<u8>) -> (r: Option<usize>)
    ensures
        match r {
            Some(i) => find_colon(d@) == Some(i as int),
            None => find_colon(d@) is None,
        },
{
    let mut i: usize = 0;
    while i < d.len()
        invariant
            i <= d.len(),
            find_colon(d@) == find_byte_from(d@, 58u8, i as int),
        decreases d.len() - i,
    {
        if d[i] == 58u8 {
            return Some(i);
        }
        i += 1;
    }
    None
}

fn byte_range(d: &Vec<u8>, from: usize, to: usize) -> (r: Vec<u8>)
    requires
        from <= to <= d.len(),
    ensures
        r@ == d@.subrange(from as int, to as int),
{
    let mut r: Vec<u8> = Vec::new();
    let mut i: usize = from;
    while i < to
        invariant
            from <= i <= to <= d.len(),
            r@ == d@.subrange(from as int, i as int),
        decreases to - i,
    {
        r.push(d[i]);
        i += 1;
    }
    r
}

/// `isValidBasicAuthorization`: whether an `Authorization` header carries
/// the configured password for user `pi` (see [`basic_auth_valid`]).
pub fn is_valid_basic_authorization(authorization: Option<&str>, password: Option<&str>) -> (r:
    bool)
    ensures
        r == basic_auth_valid(opt_str(authorization), opt_str(password)),
{
    if !is_web_password_enabled(password) {
        return false;
    }
    let auth = match authorization {
        Some(a) => a,
        None => return false,
    };
    let pw = match password {
        Some(p) => p,
        None => return false,
    };
    let a = chars_of(auth);
    let token = match basic_token_exec(&a) {
        Some(t) => t,
        None => return false,
    };
    let decoded = match base64_decode_chars(&token) {
        Some(d) => d,
        None => return false,
    };
    let encoded = base64_encode(decoded.as_slice());
    if !chars_eq(&encoded, &token) {
        return false;
    }
    if !is_valid_utf8(decoded.as_slice()) {
        return false;
    }
    let idx = match find_colon_exec(&decoded) {
        Some(i) => i,
        None => return false,
    };
    proof {
        lemma_find_colon_bound(decoded@);
    }
    credentials_match(&decoded, idx, pw)
}

fn credentials_match(decoded: &Vec<u8>, idx: usize, pw: &str) -> (r: bool)
    requires
        idx < decoded.len(),
    ensures
        r == (sha256_digest(decoded@.take(idx as int)) == sha256_digest(pi_user_bytes())
            && sha256_digest(decoded@.skip(idx + 1)) == sha256_digest(encode_utf8(pw@))),
{
    let user = byte_range(decoded, 0, idx);
    let supplied = byte_range(decoded, idx + 1, decoded.len());
    assert(user@ == decoded@.take(idx as int));
    assert(supplied@ == decoded@.skip(idx + 1));
    let pi_bytes: Vec<u8> = vec![112u8, 105u8];
    assert(pi_bytes@ == pi_user_bytes());
    let user_ok = digests_equal(user.as_slice(), pi_bytes.as_slice());
    let pw_ok = digests_equal(supplied.as_slice(), pw.as_bytes());
    user_ok && pw_ok
}


// ---------------------------------------------------------------------------
// Laws
// ---------------------------------------------------------------------------

proof fn lemma_b64_char(v: u8)
    requires
        v < 64,
    ensures
        b64_val(b64_char(v)) == Some(v),
        b64_char(v) != '=',
        !is_ws(b64_char(v)),
{
    if v < 26 {
        let c = ((65 + v) as u8) as char;
        assert(c as u32 == 65 + v);
    } else if v < 52 {
        let c = ((97 + v - 26) as u8) as char;
        assert(c as u32 == 97 + v - 26);
    } else if v < 62 {
        let c = ((48 + v - 52) as u8) as char;
        assert(c as u32 == 48 + v - 52);
    }
}

proof fn lemma_group_roundtrip(b0: u8, b1: u8, b2: u8)
    ensures
        decode_chunk(encode_group(b0, b1, b2)) == Some(seq![b0, b1, b2]),
        all_b64(encode_group(b0, b1, b2)),
        no_ws(encode_group(b0, b1, b2)),
{
    let x0 = b0 >> 2u8;
    let x1 = ((b0 & 3u8) << 4u8) | (b1 >> 4u8);
    let x2 = ((b1 & 15u8) << 2u8) | (b2 >> 6u8);
    let x3 = b2 & 63u8;
    assert(x0 < 64 && x1 < 64 && x2 < 64 && x3 < 64) by (bit_vector)
        requires
            x0 == b0 >> 2u8,
            x1 == ((b0 & 3u8) << 4u8) | (b1 >> 4u8),
            x2 == ((b1 & 15u8) << 2u8) | (b2 >> 6u8),
            x3 == b2 & 63u8,
    ;
    lemma_b64_char(x0);
    lemma_b64_char(x1);
    lemma_b64_char(x2);
    lemma_b64_char(x3);
    assert(((x0 << 2u8) | (x1 >> 4u8)) == b0 && ((x1 << 4u8) | (x2 >> 2u8)) == b1 && ((x2 << 6u8)
        | x3) == b2) by (bit_vector)
        requires
            x0 == b0 >> 2u8,
            x1 == ((b0 & 3u8) << 4u8) | (b1 >> 4u8),
            x2 == ((b1 & 15u8) << 2u8) | (b2 >> 6u8),
            x3 == b2 & 63u8,
    ;
    let g = encode_group(b0, b1, b2);
    assert(pad_count(g) == 0);
    assert forall|i: int| 0 <= i < g.len() implies b64_or_pad(#[trigger] g[i]) by {}
    assert forall|i: int| 0 <= i < g.len() implies !is_ws(#[trigger] g[i]) by {}
}

proof fn lemma_tail_roundtrip(t: Seq<u8>)
    requires
        1 <= t.len() <= 2,
    ensures
        decode_chunk(encode_tail(t)) == Some(t),
        all_b64(encode_tail(t)),
        no_ws(encode_tail(t)),
        encode_tail(t).len() == 4,
{
    let b0 = t[0];
    let g = encode_tail(t);
    if t.len() == 1 {
        let x0 = b0 >> 2u8;
        let x1 = (b0 & 3u8) << 4u8;
        assert(x0 < 64 && x1 < 64 && ((x0 << 2u8) | (x1 >> 4u8)) == b0) by (bit_vector)
            requires
                x0 == b0 >> 2u8,
                x1 == (b0 & 3u8) << 4u8,
        ;
        lemma_b64_char(x0);
        lemma_b64_char(x1);
        assert(pad_count(g) == 2);
        assert(t =~= seq![b0]);
    } else {
        let b1 = t[1];
        let x0 = b0 >> 2u8;
        let x1 = ((b0 & 3u8) << 4u8) | (b1 >> 4u8);
        let x2 = (b1 & 15u8) << 2u8;
        assert(x0 < 64 && x1 < 64 && x2 < 64 && ((x0 << 2u8) | (x1 >> 4u8)) == b0 && ((x1 << 4u8)
            | (x2 >> 2u8)) == b1) by (bit_vector)
            requires
                x0 == b0 >> 2u8,
                x1 == ((b0 & 3u8) << 4u8) | (b1 >> 4u8),
                x2 == (b1 & 15u8) << 2u8,
        ;
        lemma_b64_char(x0);
        lemma_b64_char(x1);
        lemma_b64_char(x2);
        assert(pad_count(g) == 1);
        assert(t =~= seq![b0, b1]);
    }
    assert forall|i: int| 0 <= i < g.len() implies b64_or_pad(#[trigger] g[i]) by {}
    assert forall|i: int| 0 <= i < g.len() implies !is_ws(#[trigger] g[i]) by {}
}

proof fn lemma_encode_groups(b: Seq<u8>, k: int)
    requires
        0 <= k <= b.len() / 3,
    ensures
        encode_groups(b, k).len() == 4 * k,
        all_b64(encode_groups(b, k)),
        no_ws(encode_groups(b, k)),
        forall|s: Seq<char>|
            s.len() >= 4 * k && #[trigger] s.take(4 * k) == encode_groups(b, k) ==> decode_upto(s, k)
                == Some(b.take(3 * k)),
    decreases k,
{
    if k > 0 {
        lemma_encode_groups(b, k - 1);
        let pre = encode_groups(b, k - 1);
        let g = encode_group(b[3 * k - 3], b[3 * k - 2], b[3 * k - 1]);
        lemma_group_roundtrip(b[3 * k - 3], b[3 * k - 2], b[3 * k - 1]);
        let e = encode_groups(b, k);
        assert(e == pre + g);
        assert forall|i: int| 0 <= i < e.len() implies b64_or_pad(#[trigger] e[i]) by {
            if i < pre.len() {
                assert(e[i] == pre[i]);
            } else {
                assert(e[i] == g[i - pre.len()]);
            }
        }
        assert forall|i: int| 0 <= i < e.len() implies !is_ws(#[trigger] e[i]) by {
            if i < pre.len() {
                assert(e[i] == pre[i]);
            } else {
                assert(e[i] == g[i - pre.len()]);
            }
        }
        assert forall|s: Seq<char>|
            s.len() >= 4 * k && #[trigger] s.take(4 * k) == encode_groups(b, k) implies decode_upto(
                s,
                k,
            ) == Some(b.take(3 * k)) by {
            assert(s.take(4 * (k - 1)) =~= pre);
            assert(decode_upto(s, k - 1) == Some(b.take(3 * (k - 1))));
            let sub = s.subrange(4 * (k - 1), 4 * k);
            assert forall|i: int| 0 <= i < 4 implies #[trigger] sub[i] == g[i] by {
                assert(sub[i] == s[4 * (k - 1) + i]);
                assert(s.take(4 * k)[4 * (k - 1) + i] == s[4 * (k - 1) + i]);
                assert((pre + g)[4 * (k - 1) + i] == g[i]);
            }
            assert(sub.len() == 4 && g.len() == 4);
            assert(s.subrange(4 * (k - 1), 4 * k) =~= g);
            assert(b.take(3 * (k - 1)) + seq![b[3 * k - 3], b[3 * k - 2], b[3 * k - 1]] =~= b.take(
                3 * k,
            ));
        }
    }
}

/// Decoding inverts encoding: canonical base64 of any non-empty byte string
/// decodes back to that byte string.  (The empty string encodes to the empty
/// string, which the strict decoder rejects.)
#[verifier::rlimit(50)]
#[verifier::spinoff_prover]
pub proof fn law_base64_roundtrip(b: Seq<u8>)
    requires
        b.len() > 0,
    ensures
        base64_decode_spec(base64_encode_spec(b)) == Some(b),
        no_ws(base64_encode_spec(b)),
{
    let k: int = b.len() as int / 3;
    lemma_encode_groups(b, k);
    let pre = encode_groups(b, k);
    let t = b.skip(3 * k);
    let tail = encode_tail(t);
    let e = base64_encode_spec(b);
    assert(e == pre + tail);
    assert(e.take(4 * k) =~= pre);
    assert(decode_upto(e, k) == Some(b.take(3 * k)));
    if t.len() > 0 {
        lemma_tail_roundtrip(t);
    } else {
        assert(tail =~= Seq::<char>::empty());
    }
    assert forall|i: int| 0 <= i < e.len() implies b64_or_pad(#[trigger] e[i]) && !is_ws(e[i]) by {
        if i < pre.len() {
            assert(e[i] == pre[i]);
        } else {
            assert(e[i] == tail[i - pre.len()]);
        }
    }
    assert(e.len() > 0 && e.len() % 4 == 0);
    assert(trim_start(e) == e);
    assert(trim(e) == e);
    if t.len() > 0 {
        assert(e.len() / 4 == k + 1);
        assert(e.subrange(4 * k, 4 * (k + 1)) =~= tail);
        assert(b.take(3 * k) + t =~= b);
    } else {
        assert(e.len() / 4 == k);
        assert(b.take(3 * k) =~= b);
    }
}

proof fn lemma_ascii_scalar(v: u32)
    requires
        v <= 0x7f,
    ensures
        vstd::utf8::encode_scalar(v) == seq![v as u8],
{
    assert((v & 0x7F) == v) by (bit_vector)
        requires
            v <= 0x7f,
    ;
}

/// The `Authorization` header a browser sends for user `pi` and password `p`.
pub open spec fn basic_header(p: Seq<char>) -> Seq<char> {
    seq!['B', 'a', 's', 'i', 'c', ' '] + base64_encode_spec(encode_utf8(seq!['p', 'i', ':'] + p))
}

/// A header built from the configured (non-empty) password for user `pi`
/// is accepted.
pub proof fn law_basic_auth_accepts_own_header(p: Seq<char>)
    requires
        p.len() > 0,
    ensures
        basic_auth_valid(Some(basic_header(p)), Some(p)),
{
    let cred = seq!['p', 'i', ':'] + p;
    let d = encode_utf8(cred);
    assert(cred.drop_first() =~= seq!['i', ':'] + p);
    assert((seq!['i', ':'] + p).drop_first() =~= seq![':'] + p);
    assert((seq![':'] + p).drop_first() =~= p);
    lemma_ascii_scalar(112u32);
    lemma_ascii_scalar(105u32);
    lemma_ascii_scalar(58u32);
    assert('p' as u32 == 112u32 && 'i' as u32 == 105u32 && ':' as u32 == 58u32);
    assert(encode_utf8(seq![':'] + p) =~= seq![58u8] + encode_utf8(p));
    assert(encode_utf8(seq!['i', ':'] + p) =~= seq![105u8, 58u8] + encode_utf8(p));
    assert(d =~= seq![112u8, 105u8, 58u8] + encode_utf8(p));
    encode_utf8_valid_utf8(cred);
    law_base64_roundtrip(d);
    let e = base64_encode_spec(d);
    let h = basic_header(p);
    assert(h.take(5) =~= seq!['B', 'a', 's', 'i', 'c']);
    let rest = h.skip(5);
    assert(rest.drop_first() =~= e);
    assert(trim_start(e) == e) by {
        if e.len() > 0 {
            assert(!is_ws(e[0]));
        }
    }
    assert(trim_start(rest) == e);
    assert(basic_token(h) == Some(e));
    assert(find_byte_from(d, 58u8, 0) == find_byte_from(d, 58u8, 1));
    assert(find_byte_from(d, 58u8, 1) == find_byte_from(d, 58u8, 2));
    assert(find_colon(d) == Some(2int));
    assert(d.take(2) =~= pi_user_bytes());
    assert(d.skip(3) =~= encode_utf8(p));
}

} // verus!
