//! Names for atomic file writes: a random-looking version-4 UUID and the
//! temporary file name built from it.

use vstd::prelude::*;
use crate::text::{append_chars, chars_of, string_of};

verus! {

broadcast use vstd::string::group_string_axioms;

/// Multiplier of the generator.
pub const LCG_MULTIPLIER: u64 = 6364136223846793005;

/// Increment of the generator.
pub const LCG_INCREMENT: u64 = 1442695040888963407;

/// One step of the 64-bit linear congruential generator.
pub open spec fn lcg_next(s: u64) -> u64 {
    vstd::wrapping::u64_specs::wrapping_add(
        vstd::wrapping::u64_specs::wrapping_mul(s, LCG_MULTIPLIER),
        LCG_INCREMENT,
    )
}

/// Generator state `k + 1` steps after `seed`.
pub open spec fn lcg_state(seed: u64, k: nat) -> u64
    decreases k,
{
    if k == 0 {
        lcg_next(seed)
    } else {
        lcg_next(lcg_state(seed, (k - 1) as nat))
    }
}

/// Byte `j` (0 to 15) of the UUID before the version and variant bits are
/// set: the top two bytes of successive generator states.
pub open spec fn raw_uuid_byte(seed: u64, j: int) -> u8 {
    let s = lcg_state(seed, (j / 2 + 1) as nat);
    if j % 2 == 0 {
        (s >> 56u64) as u8
    } else {
        (s >> 48u64) as u8
    }
}

/// Byte `j` of the UUID: version 4 in byte 6, variant `10` in byte 8.
pub open spec fn uuid_byte(seed: u64, j: int) -> u8 {
    if j == 6 {
        (raw_uuid_byte(seed, j) & 0x0f) | 0x40
    } else if j == 8 {
        (raw_uuid_byte(seed, j) & 0x3f) | 0x80
    } else {
        raw_uuid_byte(seed, j)
    }
}

/// Lowercase hexadecimal digit for `d < 16`.
pub open spec fn lower_hex(d: int) -> char {
    seq!['0', '1', '2', '3', '4', '5', '6', '7', '8', '9', 'a', 'b', 'c', 'd', 'e', 'f'][d]
}

/// The two lowercase hex digits of bytes `from..to` of the UUID.
pub open spec fn hex_bytes(seed: u64, from: int, to: int) -> Seq<char>
    decreases to - from,
{
    if to <= from {
        seq![]
    } else {
        hex_bytes(seed, from, to - 1) + seq![
            lower_hex(uuid_byte(seed, to - 1) as int / 16),
            lower_hex(uuid_byte(seed, to - 1) as int % 16),
        ]
    }
}

/// The UUID text `xxxxxxxx-xxxx-4xxx-yxxx-xxxxxxxxxxxx` for a seed.
pub open spec fn uuid_text(seed: u64) -> Seq<char> {
    hex_bytes(seed, 0, 4) + seq!['-'] + hex_bytes(seed, 4, 6) + seq!['-'] + hex_bytes(seed, 6, 8)
        + seq!['-'] + hex_bytes(seed, 8, 10) + seq!['-'] + hex_bytes(seed, 10, 16)
}

/// The current time since the Unix epoch in nanoseconds, from
/// `SystemTime::now` (0 when the clock reads earlier than the epoch).
/// Nothing is stated of the value: it is whatever the clock says.
#[verifier::external_body]
fn unix_time_nanos() -> u128 {
    std::time::SystemTime::now().duration_since(std::time::UNIX_EPOCH).map_or(0, |d| d.as_nanos())
}

fn lower_hex_exec(d: u8) -> (c: char)
    requires
        d < 16,
    ensures
        c == lower_hex(d as int),
{
    let digits = ['0', '1', '2', '3', '4', '5', '6', '7', '8', '9', 'a', 'b', 'c', 'd', 'e', 'f'];
    assert(digits@ == seq!['0', '1', '2', '3', '4', '5', '6', '7', '8', '9', 'a', 'b', 'c', 'd', 'e', 'f']);
    digits[d as usize]
}

/// The sixteen UUID bytes for a seed.
fn uuid_bytes(seed: u64) -> (b: Vec<u8>)
    ensures
        b@.len() == 16,
        forall|j: int| 0 <= j < 16 ==> b@[j] == uuid_byte(seed, j),
{
    let mut state = seed.wrapping_mul(6364136223846793005).wrapping_add(1442695040888963407);
    let mut bytes: Vec<u8> = Vec::new();
    let mut i: usize = 0;
    while i < 8
        invariant
            i <= 8,
            state == lcg_state(seed, i as nat),
            bytes@.len() == 2 * i,
            forall|j: int| 0 <= j < 2 * i ==> bytes@[j] == raw_uuid_byte(seed, j),
        decreases 8 - i,
    {
        state = state.wrapping_mul(6364136223846793005).wrapping_add(1442695040888963407);
        assert(state == lcg_state(seed, (i + 1) as nat));
        bytes.push((state >> 56) as u8);
        bytes.push((state >> 48) as u8);
        assert(raw_uuid_byte(seed, 2 * i as int) == (state >> 56u64) as u8);
        assert(raw_uuid_byte(seed, 2 * i + 1) == (state >> 48u64) as u8);
        i += 1;
    }
    let b6 = (bytes[6] & 0x0f) | 0x40;
    bytes.set(6, b6);
    let b8 = (bytes[8] & 0x3f) | 0x80;
    bytes.set(8, b8);
    bytes
}

/// Appends the hex digits of bytes `from..to`.
fn push_hex(out: &mut Vec<char>, bytes: &Vec<u8>, seed: Ghost<u64>, from: usize, to: usize)
    requires
        from <= to <= 16,
        bytes@.len() == 16,
        forall|k: int| 0 <= k < 16 ==> bytes@[k] == uuid_byte(seed@, k),
    ensures
        final(out)@ == old(out)@ + hex_bytes(seed@, from as int, to as int),
{
    let ghost o0 = out@;
    let mut j: usize = from;
    assert(o0 + hex_bytes(seed@, from as int, from as int) =~= o0);
    while j < to
        invariant
            from <= j <= to <= 16,
            bytes@.len() == 16,
            forall|k: int| 0 <= k < 16 ==> bytes@[k] == uuid_byte(seed@, k),
            out@ == o0 + hex_bytes(seed@, from as int, j as int),
        decreases to - j,
    {
        let b = bytes[j];
        out.push(lower_hex_exec(b / 16));
        out.push(lower_hex_exec(b % 16));
        j += 1;
        assert(out@ =~= o0 + hex_bytes(seed@, from as int, j as int));
    }
}

/// The UUID text for a seed.
pub fn uuid_from_seed(seed: u64) -> (r: String)
    ensures
        r@ == uuid_text(seed),
{
    let bytes = uuid_bytes(seed);
    let g = Ghost(seed);
    let mut out: Vec<char> = Vec::new();
    push_hex(&mut out, &bytes, g, 0, 4);
    out.push('-');
    push_hex(&mut out, &bytes, g, 4, 6);
    out.push('-');
    push_hex(&mut out, &bytes, g, 6, 8);
    out.push('-');
    push_hex(&mut out, &bytes, g, 8, 10);
    out.push('-');
    push_hex(&mut out, &bytes, g, 10, 16);
    assert(out@ =~= uuid_text(seed));
    string_of(out.as_slice())
}

/// A fresh version-4 UUID text, seeded from the clock.
pub fn uuid_v4_simple() -> (r: String)
    ensures
        exists|seed: u64| r@ == uuid_text(seed),
{
    let nanos = unix_time_nanos();
    let seed = nanos as u64;
    uuid_from_seed(seed)
}

proof fn lemma_hex_bytes_len(seed: u64, from: int, to: int)
    requires
        from <= to,
    ensures
        hex_bytes(seed, from, to).len() == 2 * (to - from),
    decreases to - from,
{
    if from < to {
        lemma_hex_bytes_len(seed, from, to - 1);
    }
}

/// Every generated UUID has the version-4 shape: 36 characters, dashes at
/// 8, 13, 18 and 23, the version digit `4` at 14 and a variant digit
/// `8`, `9`, `a` or `b` at 19.
pub proof fn law_uuid_shape(seed: u64)
    ensures
        uuid_text(seed).len() == 36,
        uuid_text(seed)[8] == '-' && uuid_text(seed)[13] == '-' && uuid_text(seed)[18] == '-'
            && uuid_text(seed)[23] == '-',
        uuid_text(seed)[14] == '4',
        uuid_text(seed)[19] == '8' || uuid_text(seed)[19] == '9' || uuid_text(seed)[19] == 'a'
            || uuid_text(seed)[19] == 'b',
{
    lemma_hex_bytes_len(seed, 0, 4);
    lemma_hex_bytes_len(seed, 4, 6);
    lemma_hex_bytes_len(seed, 6, 8);
    lemma_hex_bytes_len(seed, 8, 10);
    lemma_hex_bytes_len(seed, 10, 16);
    lemma_hex_bytes_len(seed, 6, 7);
    lemma_hex_bytes_len(seed, 8, 9);
    let r6 = raw_uuid_byte(seed, 6);
    let r8 = raw_uuid_byte(seed, 8);
    assert(((r6 & 0x0f) | 0x40) / 16 == 4) by (bit_vector);
    assert(8 <= ((r8 & 0x3f) | 0x80) / 16 <= 11) by (bit_vector);
    let t = uuid_text(seed);
    let h6 = hex_bytes(seed, 6, 8);
    assert(hex_bytes(seed, 6, 7) == seq![
        lower_hex(uuid_byte(seed, 6) as int / 16),
        lower_hex(uuid_byte(seed, 6) as int % 16),
    ]);
    assert(h6[0] == hex_bytes(seed, 6, 7)[0]);
    assert(hex_bytes(seed, 8, 9) == seq![
        lower_hex(uuid_byte(seed, 8) as int / 16),
        lower_hex(uuid_byte(seed, 8) as int % 16),
    ]);
    assert(hex_bytes(seed, 8, 10)[0] == hex_bytes(seed, 8, 9)[0]);
    assert(t[14] == h6[0]);
    assert(t[19] == hex_bytes(seed, 8, 10)[0]);
}

/// The temporary file used while writing `basename` atomically:
/// `.<basename>-<id>.tmp`.
pub open spec fn temp_name(basename: Seq<char>, id: Seq<char>) -> Seq<char> {
    seq!['.'] + basename + seq!['-'] + id + ".tmp"@
}

/// The temporary file name for an atomic write of `basename`.
pub fn temp_file_name(basename: &str, id: &str) -> (r: String)
    ensures
        r@ == temp_name(basename@, id@),
{
    let mut v: Vec<char> = Vec::new();
    v.push('.');
    append_chars(&mut v, &chars_of(basename));
    v.push('-');
    append_chars(&mut v, &chars_of(id));
    append_chars(&mut v, &chars_of(".tmp"));
    string_of(v.as_slice())
}

} // verus!
