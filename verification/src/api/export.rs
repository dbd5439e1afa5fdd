//! The session export page: JavaScript-style placeholder replacement,
//! the patches that make the exported tree code iterative, and the
//! download headers.

use vstd::prelude::*;
use base64::Engine;
use crate::auth::base64_encode_spec;
use crate::git::changes::{lines_exec, lines_of};
use crate::json::{json_get, lemma_array_view, lemma_object_view, items_view, Json, JsonValue};
use crate::text::{
    append_chars, chars_eq, chars_of, decimal, decimal_exec, find_sub, find_sub_exec,
    find_sub_from, lemma_find_sub_from, string_of, sub_vec, trim, trim_end_char,
    trim_end_char_exec, trim_exec,
};

verus! {

broadcast use vstd::string::group_string_axioms;

/// The replacement text of a JavaScript `String.prototype.replace` with a
/// string pattern: `$$` gives `$`, `$&` the matched text, `` $` `` the text
/// before the match, `$'` the text after it; any other `$` stays.
pub open spec fn expand_replacement(
    rep: Seq<char>,
    matched: Seq<char>,
    before: Seq<char>,
    after: Seq<char>,
) -> Seq<char>
    decreases rep.len(),
{
    if rep.len() == 0 {
        seq![]
    } else if rep[0] != '$' || rep.len() == 1 {
        seq![rep[0]] + expand_replacement(rep.drop_first(), matched, before, after)
    } else if rep[1] == '$' {
        seq!['$'] + expand_replacement(rep.skip(2), matched, before, after)
    } else if rep[1] == '&' {
        matched + expand_replacement(rep.skip(2), matched, before, after)
    } else if rep[1] == '`' {
        before + expand_replacement(rep.skip(2), matched, before, after)
    } else if rep[1] == '\'' {
        after + expand_replacement(rep.skip(2), matched, before, after)
    } else {
        seq!['$'] + expand_replacement(rep.drop_first(), matched, before, after)
    }
}

/// JavaScript `haystack.replace(search, replacement)` with a string
/// pattern: the first occurrence is replaced, the replacement's `$`
/// patterns expanded; without an occurrence the haystack is unchanged.
pub open spec fn js_replace_spec(haystack: Seq<char>, search: Seq<char>, replacement: Seq<char>) -> Seq<
    char,
> {
    match find_sub(haystack, search) {
        None => haystack,
        Some(k) => {
            let before = haystack.take(k);
            let after = haystack.skip(k + search.len());
            before + expand_replacement(replacement, search, before, after) + after
        },
    }
}

/// JavaScript `String.prototype.replace` with a string pattern.
pub fn js_replace(haystack: &str, search: &str, replacement: &str) -> (r: String)
    ensures
        r@ == js_replace_spec(haystack@, search@, replacement@),
{
    let h = chars_of(haystack);
    let s = chars_of(search);
    let hl = h.len();
    proof {
        lemma_find_sub_from(h@, s@, 0);
    }
    let pos = match find_sub_exec(&h, &s, 0) {
        None => return string_of(h.as_slice()),
        Some(p) => p,
    };
    assert(pos + s@.len() <= h@.len());
    let before = sub_vec(&h, 0, pos);
    let after = sub_vec(&h, pos + s.len(), h.len());
    assert(before@ =~= h@.take(pos as int));
    assert(after@ =~= h@.skip(pos + s@.len()));
    let rep = chars_of(replacement);
    let ghost full = expand_replacement(rep@, s@, before@, after@);
    let mut out = sub_vec(&before, 0, before.len());
    assert(out@ =~= before@);
    let mut i: usize = 0;
    assert(rep@.skip(0) =~= rep@);
    while i < rep.len()
        invariant
            i <= rep.len(),
            out@ + expand_replacement(rep@.skip(i as int), s@, before@, after@) == before@ + full,
            full == expand_replacement(rep@, s@, before@, after@),
        decreases rep.len() - i,
    {
        let ghost r = rep@.skip(i as int);
        let ghost o = out@;
        assert(r[0] == rep@[i as int]);
        let c = rep[i];
        if c != '$' || i + 1 == rep.len() {
            out.push(c);
            assert(r.drop_first() =~= rep@.skip(i + 1));
            assert(out@ + expand_replacement(rep@.skip(i + 1), s@, before@, after@) =~= o + (seq![c]
                + expand_replacement(r.drop_first(), s@, before@, after@)));
            i += 1;
        } else {
            let n = rep[i + 1];
            assert(r[1] == n);
            assert(r.skip(2) =~= rep@.skip(i + 2));
            assert(r.drop_first() =~= rep@.skip(i + 1));
            if n == '$' {
                out.push('$');
                assert(out@ + expand_replacement(rep@.skip(i + 2), s@, before@, after@) =~= o + (
                seq!['$'] + expand_replacement(r.skip(2), s@, before@, after@)));
                i += 2;
            } else if n == '&' {
                append_chars(&mut out, &s);
                assert(out@ + expand_replacement(rep@.skip(i + 2), s@, before@, after@) =~= o + (s@
                    + expand_replacement(r.skip(2), s@, before@, after@)));
                i += 2;
            } else if n == '`' {
                append_chars(&mut out, &before);
                assert(out@ + expand_replacement(rep@.skip(i + 2), s@, before@, after@) =~= o + (
                before@ + expand_replacement(r.skip(2), s@, before@, after@)));
                i += 2;
            } else if n == '\'' {
                append_chars(&mut out, &after);
                assert(out@ + expand_replacement(rep@.skip(i + 2), s@, before@, after@) =~= o + (
                after@ + expand_replacement(r.skip(2), s@, before@, after@)));
                i += 2;
            } else {
                out.push('$');
                assert(out@ + expand_replacement(rep@.skip(i + 1), s@, before@, after@) =~= o + (
                seq!['$'] + expand_replacement(r.drop_first(), s@, before@, after@)));
                i += 1;
            }
        }
    }
    assert(rep@.skip(rep.len() as int) =~= Seq::<char>::empty());
    append_chars(&mut out, &after);
    string_of(out.as_slice())
}

/// Number of non-overlapping occurrences of `p` in `s` from position `i`
/// on, found left to right (an empty `p` occurs at every position).
pub open spec fn match_count_from(s: Seq<char>, p: Seq<char>, i: int) -> int
    decreases s.len() + 1 - i,
{
    if i < 0 || i > s.len() {
        0
    } else {
        match find_sub_from(s, p, i) {
            Some(k) => {
                proof {
                    lemma_find_sub_from(s, p, i);
                }
                1 + match_count_from(s, p, k + if p.len() == 0 { 1 } else { p.len() as int })
            },
            None => 0,
        }
    }
}

/// `str::matches(p).count()`.
pub open spec fn match_count(s: Seq<char>, p: Seq<char>) -> int {
    match_count_from(s, p, 0)
}

/// `str::replacen(search, replacement, 1)`: the first occurrence replaced
/// as it is.
pub open spec fn replace_first(s: Seq<char>, search: Seq<char>, replacement: Seq<char>) -> Seq<char> {
    match find_sub(s, search) {
        None => s,
        Some(k) => s.take(k) + replacement + s.skip(k + search.len()),
    }
}

/// The result of a required replacement: exactly one occurrence must be
/// found, else the patch fails with a message naming the function.
pub open spec fn required_replace(
    source: Seq<char>,
    name: Seq<char>,
    search: Seq<char>,
    replacement: Seq<char>,
) -> Result<Seq<char>, Seq<char>> {
    let n = match_count(source, search);
    if n != 1 {
        Err(
            "Failed to patch exported HTML: "@ + name + " expected 1 match, found "@ + decimal(
                n as nat,
            ),
        )
    } else {
        Ok(replace_first(source, search, replacement))
    }
}

proof fn lemma_match_count_bound(s: Seq<char>, p: Seq<char>, i: int)
    requires
        0 <= i <= s.len(),
    ensures
        0 <= match_count_from(s, p, i) <= s.len() + 1 - i,
        p.len() > 0 ==> match_count_from(s, p, i) <= s.len() - i,
    decreases s.len() + 1 - i,
{
    lemma_find_sub_from(s, p, i);
    match find_sub_from(s, p, i) {
        Some(k) => {
            let next = k + if p.len() == 0 { 1 } else { p.len() as int };
            assert(match_count_from(s, p, i) == 1 + match_count_from(s, p, next));
            if next <= s.len() {
                lemma_match_count_bound(s, p, next);
            } else {
                assert(match_count_from(s, p, next) == 0);
            }
        },
        None => {
            assert(match_count_from(s, p, i) == 0);
        },
    }
}

/// Replaces the one occurrence of `search` in `source`; fails when there
/// is none or more than one.
pub fn replace_required(source: String, name: &str, search: &str, replacement: &str) -> (r: Result<
    String,
    String,
>)
    requires
        search@.len() > 0 || source@.len() < usize::MAX,
    ensures
        match required_replace(source@, name@, search@, replacement@) {
            Ok(t) => r matches Ok(x) && x@ == t,
            Err(m) => r matches Err(x) && x@ == m,
        },
{
    let s = chars_of(source.as_str());
    let p = chars_of(search);
    let sl = s.len();
    let mut count: usize = 0;
    let mut from: usize = 0;
    let mut done = false;
    let ghost total = match_count(s@, p@);
    proof {
        lemma_match_count_bound(s@, p@, 0);
    }
    while !done
        invariant
            s@ == source@,
            p@ == search@,
            total == match_count(s@, p@),
            total <= usize::MAX,
            from <= s.len(),
            done ==> count == total,
            !done ==> count + match_count_from(s@, p@, from as int) == total,
            count <= total,
        decreases (s.len() + 1 - from) * 2 + if done { 0int } else { 1int },
    {
        proof {
            lemma_find_sub_from(s@, p@, from as int);
            lemma_match_count_bound(s@, p@, from as int);
        }
        match find_sub_exec(&s, &p, from) {
            Some(k) => {
                let step = if p.len() == 0 {
                    1
                } else {
                    p.len()
                };
                let ghost next = k + step;
                assert(match_count_from(s@, p@, from as int) == 1 + match_count_from(s@, p@, next));
                proof {
                    if next <= s@.len() {
                        lemma_match_count_bound(s@, p@, next);
                    }
                }
                count = count + 1;
                if s.len() - k < step {
                    assert(match_count_from(s@, p@, next) == 0);
                    done = true;
                } else {
                    from = k + step;
                }
            },
            None => {
                assert(match_count_from(s@, p@, from as int) == 0);
                done = true;
            },
        }
    }
    proof {
        lemma_find_sub_from(s@, p@, 0);
    }
    if count != 1 {
        let mut m = chars_of("Failed to patch exported HTML: ");
        append_chars(&mut m, &chars_of(name));
        append_chars(&mut m, &chars_of(" expected 1 match, found "));
        append_chars(&mut m, &decimal_exec(count));
        return Err(string_of(m.as_slice()));
    }
    let k = match find_sub_exec(&s, &p, 0) {
        Some(k) => k,
        None => {
            return Ok(source);
        },
    };
    let mut out = sub_vec(&s, 0, k);
    append_chars(&mut out, &chars_of(replacement));
    append_chars(&mut out, &sub_vec(&s, k + p.len(), s.len()));
    assert(out@ =~= s@.take(k as int) + replacement@ + s@.skip(k + p@.len()));
    Ok(string_of(out.as_slice()))
}

/// `\r\n` line endings turned into `\n`.
pub open spec fn crlf_to_lf(s: Seq<char>) -> Seq<char>
    decreases s.len(),
{
    if s.len() == 0 {
        seq![]
    } else if s.len() >= 2 && s[0] == '\r' && s[1] == '\n' {
        seq!['\n'] + crlf_to_lf(s.skip(2))
    } else {
        seq![s[0]] + crlf_to_lf(s.drop_first())
    }
}

fn crlf_to_lf_exec(s: &Vec<char>) -> (r: Vec<char>)
    ensures
        r@ == crlf_to_lf(s@),
{
    let mut out: Vec<char> = Vec::new();
    let mut i: usize = 0;
    assert(s@.skip(0) =~= s@);
    while i < s.len()
        invariant
            i <= s.len(),
            out@ + crlf_to_lf(s@.skip(i as int)) == crlf_to_lf(s@),
        decreases s.len() - i,
    {
        let ghost r = s@.skip(i as int);
        let ghost o = out@;
        assert(r[0] == s@[i as int]);
        if s.len() - i >= 2 && s[i] == '\r' && s[i + 1] == '\n' {
            assert(r[1] == s@[i + 1]);
            out.push('\n');
            assert(r.skip(2) =~= s@.skip(i + 2));
            assert(out@ + crlf_to_lf(s@.skip(i + 2)) =~= o + crlf_to_lf(r));
            i += 2;
        } else {
            if s.len() - i >= 2 {
                assert(r[1] == s@[i + 1]);
            }
            out.push(s[i]);
            assert(r.drop_first() =~= s@.skip(i + 1));
            assert(out@ + crlf_to_lf(s@.skip(i + 1)) =~= o + crlf_to_lf(r));
            i += 1;
        }
    }
    assert(s@.skip(s.len() as int) =~= Seq::<char>::empty());
    assert(out@ =~= crlf_to_lf(s@));
    out
}

/// The recursive `sortChildren` of the export page's script.
pub const SORT_CHILDREN_SEARCH: &'static str = "        function sortChildren(node) {\n          node.children.sort((a, b) =>\n            new Date(a.entry.timestamp).getTime() - new Date(b.entry.timestamp).getTime()\n          );\n          node.children.forEach(sortChildren);\n        }";

/// Its iterative replacement.
pub const SORT_CHILDREN_REPLACEMENT: &'static str = "        function sortChildren(root) {\n          const stack = [root];\n          while (stack.length) {\n            const node = stack.pop();\n            node.children.sort((a, b) =>\n              new Date(a.entry.timestamp).getTime() - new Date(b.entry.timestamp).getTime()\n            );\n            for (let i = node.children.length - 1; i >= 0; i--) {\n              stack.push(node.children[i]);\n            }\n          }\n        }";

/// The recursive `mapNodes` of the export page's script.
pub const MAP_NODES_SEARCH: &'static str = "          function mapNodes(node) {\n            treeNodeMap.set(node.entry.id, node);\n            node.children.forEach(mapNodes);\n          }\n          tree.forEach(mapNodes);";

/// Its iterative replacement.
pub const MAP_NODES_REPLACEMENT: &'static str = "          const stack = [...tree].reverse();\n          while (stack.length) {\n            const node = stack.pop();\n            treeNodeMap.set(node.entry.id, node);\n            for (let i = node.children.length - 1; i >= 0; i--) {\n              stack.push(node.children[i]);\n            }\n          }";

/// The recursive `markActive` of the export page's script.
pub const MARK_ACTIVE_SEARCH: &'static str = "        function markActive(node) {\n          let has = activePathIds.has(node.entry.id);\n          for (const child of node.children) {\n            if (markActive(child)) has = true;\n          }\n          containsActive.set(node, has);\n          return has;\n        }";

/// Its iterative replacement.
pub const MARK_ACTIVE_REPLACEMENT: &'static str = "        function markActive(root) {\n          // Post-order traversal using two stacks\n          const stack1 = [root];\n          const stack2 = [];\n          while (stack1.length) {\n            const node = stack1.pop();\n            stack2.push(node);\n            for (const child of node.children) {\n              stack1.push(child);\n            }\n          }\n          while (stack2.length) {\n            const node = stack2.pop();\n            let has = activePathIds.has(node.entry.id);\n            for (const child of node.children) {\n              if (containsActive.get(child)) has = true;\n            }\n            containsActive.set(node, has);\n          }\n        }";

/// The patched export page: line endings normalised, then each of the three
/// recursive tree functions replaced by its iterative version; the first
/// function that is not found exactly once makes the patch fail.
pub open spec fn patched_export(html: Seq<char>) -> Result<Seq<char>, Seq<char>> {
    let h0 = crlf_to_lf(html);
    match required_replace(h0, "sortChildren"@, SORT_CHILDREN_SEARCH@, SORT_CHILDREN_REPLACEMENT@) {
        Err(e) => Err(e),
        Ok(h1) => match required_replace(h1, "mapNodes"@, MAP_NODES_SEARCH@, MAP_NODES_REPLACEMENT@) {
            Err(e) => Err(e),
            Ok(h2) => required_replace(
                h2,
                "markActive"@,
                MARK_ACTIVE_SEARCH@,
                MARK_ACTIVE_REPLACEMENT@,
            ),
        },
    }
}

/// Makes the tree functions of an exported page iterative (deeply nested
/// sessions overflowed the browser's stack).
pub fn patch_export_html(html: &str) -> (r: Result<String, String>)
    ensures
        match patched_export(html@) {
            Ok(t) => r matches Ok(x) && x@ == t,
            Err(m) => r matches Err(x) && x@ == m,
        },
{
    proof {
        reveal_strlit("        function sortChildren(node) {\n          node.children.sort((a, b) =>\n            new Date(a.entry.timestamp).getTime() - new Date(b.entry.timestamp).getTime()\n          );\n          node.children.forEach(sortChildren);\n        }");
        reveal_strlit("          function mapNodes(node) {\n            treeNodeMap.set(node.entry.id, node);\n            node.children.forEach(mapNodes);\n          }\n          tree.forEach(mapNodes);");
        reveal_strlit("        function markActive(node) {\n          let has = activePathIds.has(node.entry.id);\n          for (const child of node.children) {\n            if (markActive(child)) has = true;\n          }\n          containsActive.set(node, has);\n          return has;\n        }");
    }
    let h0 = string_of(crlf_to_lf_exec(&chars_of(html)).as_slice());
    let h1 = match replace_required(h0, "sortChildren", SORT_CHILDREN_SEARCH, SORT_CHILDREN_REPLACEMENT) {
        Ok(h) => h,
        Err(e) => return Err(e),
    };
    let h2 = match replace_required(h1, "mapNodes", MAP_NODES_SEARCH, MAP_NODES_REPLACEMENT) {
        Ok(h) => h,
        Err(e) => return Err(e),
    };
    replace_required(h2, "markActive", MARK_ACTIVE_SEARCH, MARK_ACTIVE_REPLACEMENT)
}

/// Bytes kept as they are in an RFC 5987 `filename*` value.
pub open spec fn is_attr_byte(b: u8) -> bool {
    (65 <= b && b <= 90) || (97 <= b && b <= 122) || (48 <= b && b <= 57) || b == 45 || b == 95
        || b == 46 || b == 126
}

/// One byte of an RFC 5987 value: kept, or percent-encoded.
pub open spec fn header_encode_byte(b: u8) -> Seq<char> {
    if is_attr_byte(b) {
        seq![b as char]
    } else {
        seq!['%', crate::file::paths::hex_digit(b as int / 16), crate::file::paths::hex_digit(b as int % 16)]
    }
}

/// RFC 5987 percent-encoding of UTF-8 bytes (uppercase hex).
pub open spec fn header_encode_bytes(bs: Seq<u8>) -> Seq<char>
    decreases bs.len(),
{
    if bs.len() == 0 {
        seq![]
    } else {
        header_encode_bytes(bs.drop_last()) + header_encode_byte(bs.last())
    }
}

/// RFC 5987 encoding of a header value (its UTF-8 bytes).
pub fn encode_header_value(value: &str) -> (r: String)
    ensures
        r@ == header_encode_bytes(vstd::utf8::encode_utf8(value@)),
{
    let bytes = value.as_bytes();
    let ghost bs = bytes@;
    let mut out: Vec<char> = Vec::new();
    let mut i: usize = 0;
    assert(bs.take(0) =~= Seq::<u8>::empty());
    while i < bytes.len()
        invariant
            i <= bytes.len(),
            bs == bytes@,
            out@ == header_encode_bytes(bs.take(i as int)),
        decreases bytes.len() - i,
    {
        let b = bytes[i];
        assert(bs.take(i + 1).drop_last() =~= bs.take(i as int));
        let ghost o = out@;
        if (65 <= b && b <= 90) || (97 <= b && b <= 122) || (48 <= b && b <= 57) || b == 45 || b
            == 95 || b == 46 || b == 126 {
            out.push(b as char);
        } else {
            out.push('%');
            out.push(crate::file::paths::hex_digit_exec(b / 16));
            out.push(crate::file::paths::hex_digit_exec(b % 16));
        }
        assert(out@ =~= o + header_encode_byte(b));
        i += 1;
    }
    assert(bs.take(bytes.len() as int) =~= bs);
    string_of(out.as_slice())
}

/// Characters kept in the ASCII fallback file name.
pub open spec fn fallback_keeps(c: char) -> bool {
    ' ' <= c && c <= '~' && c != '"' && c != '\\' && c != ';'
}

/// The ASCII fallback file name: other characters become `_`.
pub open spec fn fallback_name(n: Seq<char>) -> Seq<char> {
    n.map_values(|c: char| if fallback_keeps(c) { c } else { '_' })
}

/// The `Content-Disposition` of an export: `inline` or `attachment`, an
/// ASCII fallback `filename` (`session.html` when empty) and the exact
/// name as RFC 5987 `filename*`.
pub open spec fn disposition_value(file_name: Seq<char>, inline: bool) -> Seq<char> {
    let fb = if fallback_name(file_name).len() == 0 {
        "session.html"@
    } else {
        fallback_name(file_name)
    };
    let d = if inline {
        "inline"@
    } else {
        "attachment"@
    };
    d + "; filename=\""@ + fb + "\"; filename*=UTF-8''"@ + header_encode_bytes(
        vstd::utf8::encode_utf8(file_name),
    )
}

/// The `Content-Disposition` header of an export.
pub fn content_disposition(file_name: &str, inline: bool) -> (r: String)
    ensures
        r@ == disposition_value(file_name@, inline),
{
    let n = chars_of(file_name);
    let mut fb: Vec<char> = Vec::new();
    let mut i: usize = 0;
    while i < n.len()
        invariant
            i <= n.len(),
            fb@ =~= fallback_name(n@.take(i as int)),
        decreases n.len() - i,
    {
        let c = n[i];
        let k = if ' ' <= c && c <= '~' && c != '"' && c != '\\' && c != ';' {
            c
        } else {
            '_'
        };
        fb.push(k);
        assert(fallback_name(n@.take(i + 1)) =~= fallback_name(n@.take(i as int)).push(k));
        i += 1;
    }
    assert(n@.take(n.len() as int) =~= n@);
    let fallback = if fb.len() == 0 {
        chars_of("session.html")
    } else {
        fb
    };
    let mut out = if inline {
        chars_of("inline")
    } else {
        chars_of("attachment")
    };
    append_chars(&mut out, &chars_of("; filename=\""));
    append_chars(&mut out, &fallback);
    append_chars(&mut out, &chars_of("\"; filename*=UTF-8''"));
    let enc = encode_header_value(file_name);
    append_chars(&mut out, &chars_of(enc.as_str()));
    string_of(out.as_slice())
}

/// The components of a path that can be its file name: the non-empty
/// segments other than `.`.
pub open spec fn name_components(p: Seq<char>) -> Seq<Seq<char>> {
    filter_components(crate::text::split_char(p, '/'))
}

/// Segments that are neither empty nor `.`.
pub open spec fn filter_components(segs: Seq<Seq<char>>) -> Seq<Seq<char>>
    decreases segs.len(),
{
    if segs.len() == 0 {
        seq![]
    } else {
        let rest = filter_components(segs.drop_last());
        let x = segs.last();
        if x.len() == 0 || x == seq!['.'] {
            rest
        } else {
            rest.push(x)
        }
    }
}

/// `Path::file_name`: the last component, unless there is none or it is `..`.
pub open spec fn path_file_name(p: Seq<char>) -> Option<Seq<char>> {
    let cs = name_components(p);
    if cs.len() == 0 || cs.last() == seq!['.', '.'] {
        None
    } else {
        Some(cs.last())
    }
}

/// The download name of an exported session: `pi-session-<name>.html`,
/// `<name>` being the session file's name without `.jsonl`.
pub open spec fn export_name(session_path: Seq<char>) -> Seq<char> {
    let base = match path_file_name(session_path) {
        Some(b) => b,
        None => "session"@,
    };
    let sfx = ".jsonl"@;
    let stem = if base.len() >= sfx.len() && base.skip(base.len() - sfx.len()) == sfx {
        base.take(base.len() - sfx.len())
    } else {
        base
    };
    "pi-session-"@ + stem + ".html"@
}

/// The download name of an exported session.
pub fn export_file_name(session_path: &str) -> (r: String)
    ensures
        r@ == export_name(session_path@),
{
    let segs = crate::text::split_char_exec(&chars_of(session_path), '/');
    let ghost sv = segs@.map_values(|v: Vec<char>| v@);
    let mut last: Option<usize> = None;
    let mut i: usize = 0;
    assert(sv.take(0) =~= Seq::<Seq<char>>::empty());
    while i < segs.len()
        invariant
            i <= segs.len(),
            sv == segs@.map_values(|v: Vec<char>| v@),
            sv == crate::text::split_char(session_path@, '/'),
            match last {
                Some(j) => j < i && filter_components(sv.take(i as int)).len() > 0 && filter_components(
                    sv.take(i as int),
                ).last() == sv[j as int],
                None => filter_components(sv.take(i as int)).len() == 0,
            },
        decreases segs.len() - i,
    {
        assert(sv.take(i + 1).drop_last() =~= sv.take(i as int));
        assert(sv[i as int] == segs@[i as int]@);
        let x = &segs[i];
        let dot = x.len() == 1 && x[0] == '.';
        assert(dot == (x@ == seq!['.'])) by {
            if dot {
                assert(x@ =~= seq!['.']);
            }
        }
        if x.len() > 0 && !dot {
            last = Some(i);
        }
        i += 1;
    }
    assert(sv.take(segs.len() as int) =~= sv);
    let ghost cs = name_components(session_path@);
    assert(cs == filter_components(sv));
    let ghost want_base = match path_file_name(session_path@) {
        Some(b) => b,
        None => "session"@,
    };
    let base = match last {
        Some(j) => {
            let x = &segs[j];
            let dotdot = x.len() == 2 && x[0] == '.' && x[1] == '.';
            assert(dotdot == (x@ == seq!['.', '.'])) by {
                if dotdot {
                    assert(x@ =~= seq!['.', '.']);
                }
            }
            if dotdot {
                chars_of("session")
            } else {
                sub_vec(x, 0, x.len())
            }
        },
        None => chars_of("session"),
    };
    assert(base@ == want_base);
    let sfx = chars_of(".jsonl");
    let stem = if base.len() >= sfx.len() && chars_eq(
        &sub_vec(&base, base.len() - sfx.len(), base.len()),
        &sfx,
    ) {
        sub_vec(&base, 0, base.len() - sfx.len())
    } else {
        base
    };
    let mut out = chars_of("pi-session-");
    append_chars(&mut out, &stem);
    append_chars(&mut out, &chars_of(".html"));
    string_of(out.as_slice())
}

/// The record lines of a session file: its lines without trailing `\r`s,
/// leaving out the blank ones.
pub open spec fn jsonl_records(ls: Seq<Seq<char>>) -> Seq<Seq<char>>
    decreases ls.len(),
{
    if ls.len() == 0 {
        seq![]
    } else {
        let prev = jsonl_records(ls.drop_last());
        let l = trim_end_char(ls.last(), '\r');
        if trim(l).len() == 0 {
            prev
        } else {
            prev.push(l)
        }
    }
}

/// The lines of a session file (JSON Lines) that hold records, in order.
pub fn session_jsonl_records(content: &str) -> (r: Vec<String>)
    ensures
        r@.map_values(|s: String| s@) == jsonl_records(lines_of(content@)),
{
    let lines = lines_exec(&chars_of(content));
    let ghost ls = lines@.map_values(|v: Vec<char>| v@);
    let mut out: Vec<String> = Vec::new();
    assert(ls.take(0) =~= Seq::<Seq<char>>::empty());
    for i in 0..lines.len()
        invariant
            ls == lines@.map_values(|v: Vec<char>| v@),
            out@.map_values(|s: String| s@) == jsonl_records(ls.take(i as int)),
    {
        let ghost prev = out@.map_values(|s: String| s@);
        assert(ls.take(i + 1).drop_last() =~= ls.take(i as int));
        assert(ls[i as int] == lines@[i as int]@);
        let l = trim_end_char_exec(&lines[i], '\r');
        if trim_exec(&l).len() > 0 {
            out.push(string_of(l.as_slice()));
            assert(out@.map_values(|s: String| s@) =~= prev.push(l@));
        }
    }
    assert(ls.take(lines.len() as int) =~= ls);
    out
}

/// A record is the session header when its `type` is `"session"`.
pub open spec fn is_session_header(v: Json) -> bool {
    json_get(v, "type"@) == Some(Json::Str("session"@))
}

/// The header (the first session record) and the entries (every other
/// record, in order) of parsed records; a line that did not parse is left
/// out.
pub open spec fn header_and_entries(rs: Seq<Option<Json>>) -> (Option<Json>, Seq<Json>)
    decreases rs.len(),
{
    if rs.len() == 0 {
        (None, seq![])
    } else {
        let (h, es) = header_and_entries(rs.drop_last());
        match rs.last() {
            None => (h, es),
            Some(v) => if h is None && is_session_header(v) {
                (Some(v), es)
            } else {
                (h, es.push(v))
            },
        }
    }
}

/// The `id` of the last entry that has a string `id`.
pub open spec fn leaf_id(es: Seq<Json>) -> Option<Seq<char>>
    decreases es.len(),
{
    if es.len() == 0 {
        None
    } else {
        match json_get(es.last(), "id"@) {
            Some(Json::Str(id)) => Some(id),
            _ => leaf_id(es.drop_last()),
        }
    }
}

/// The session data of the export page: `{entries, header, leafId}`, with
/// `null` for a missing header or leaf.
pub open spec fn session_data_view(rs: Seq<Option<Json>>) -> Json {
    let (h, es) = header_and_entries(rs);
    Json::Object(
        seq![
            ("entries"@, Json::Array(es)),
            ("header"@, match h {
                Some(v) => v,
                None => Json::Null,
            }),
            ("leafId"@, match leaf_id(es) {
                Some(id) => Json::Str(id),
                None => Json::Null,
            }),
        ],
    )
}

fn is_session_header_exec(v: &JsonValue) -> (b: bool)
    ensures
        b == is_session_header(v@),
{
    match v.get("type") {
        Some(JsonValue::Str(t)) => chars_eq(&chars_of(t.as_str()), &chars_of("session")),
        _ => false,
    }
}

fn owned(lit: &str) -> (r: String)
    ensures
        r@ == lit@,
{
    string_of(chars_of(lit).as_slice())
}

pub(crate) fn last_entry_id(entries: &Vec<JsonValue>) -> (r: Option<String>)
    ensures
        match r {
            Some(id) => leaf_id(items_view(entries@)) == Some(id@),
            None => leaf_id(items_view(entries@)) is None,
        },
{
    let ghost ev = items_view(entries@);
    let mut k: usize = entries.len();
    assert(ev.take(k as int) =~= ev);
    while k > 0
        invariant
            k <= entries.len(),
            ev == items_view(entries@),
            leaf_id(ev) == leaf_id(ev.take(k as int)),
        decreases k,
    {
        assert(ev.take(k as int).drop_last() =~= ev.take(k - 1));
        assert(ev.take(k as int).last() == entries@[k - 1]@);
        match entries[k - 1].get("id") {
            Some(JsonValue::Str(id)) => {
                return Some(owned(id.as_str()));
            },
            _ => {},
        }
        k -= 1;
    }
    None
}

/// The session data of parsed record lines (`None` for a line that is not
/// JSON).
pub fn session_data(records: Vec<Option<JsonValue>>) -> (r: JsonValue)
    ensures
        r@ == session_data_view(
            records@.map_values(
                |o: Option<JsonValue>|
                    match o {
                        Some(v) => Some(v@),
                        None => None,
                    },
            ),
        ),
{
    let ghost f = |o: Option<JsonValue>|
        match o {
            Some(v) => Some(v@),
            None => None,
        };
    let ghost rv = records@.map_values(f);
    let ghost orig = records@;
    let mut rest = records;
    let mut header: Option<JsonValue> = None;
    let mut entries: Vec<JsonValue> = Vec::new();
    let mut n: usize = 0;
    assert(orig.len() == rest.len());
    assert(rv.take(0) =~= Seq::<Option<Json>>::empty());
    while rest.len() > 0
        invariant
            n <= orig.len() <= usize::MAX,
            rest@ == orig.skip(n as int),
            rv == orig.map_values(f),
            f == (|o: Option<JsonValue>|
                match o {
                    Some(v) => Some(v@),
                    None => None,
                }),
            header_and_entries(rv.take(n as int)) == (
                match header {
                    Some(v) => Some(v@),
                    None => None,
                },
                items_view(entries@),
            ),
        decreases rest.len(),
    {
        let rec = rest.remove(0);
        assert(rec == orig[n as int]);
        assert(rv.take(n + 1).drop_last() =~= rv.take(n as int));
        assert(rv.take(n + 1).last() == f(orig[n as int]));
        let ghost before = items_view(entries@);
        match rec {
            None => {},
            Some(v) => {
                if header.is_none() && is_session_header_exec(&v) {
                    header = Some(v);
                } else {
                    entries.push(v);
                    assert(items_view(entries@) =~= before.push(v@));
                }
            },
        }
        n += 1;
        assert(rest@ =~= orig.skip(n as int));
    }
    assert(rv.take(n as int) =~= rv);
    let ghost ev = items_view(entries@);
    let ghost hv = match &header {
        Some(v) => Some(v@),
        None => None,
    };
    assert(header_and_entries(rv) == (hv, ev));
    let leaf = last_entry_id(&entries);
    let leaf_value = match leaf {
        Some(id) => JsonValue::Str(id),
        None => JsonValue::Null,
    };
    let header_value = match header {
        Some(v) => v,
        None => JsonValue::Null,
    };
    proof {
        lemma_array_view(entries);
    }
    let out = vec![
        (owned("entries"), JsonValue::Array(entries)),
        (owned("header"), header_value),
        (owned("leafId"), leaf_value),
    ];
    proof {
        lemma_object_view(out);
    }
    assert(header_value@ == match hv {
        Some(v) => v,
        None => Json::Null,
    });
    assert(leaf_value@ == match leaf_id(ev) {
        Some(id) => Json::Str(id),
        None => Json::Null,
    });
    let ghost expected = seq![
        ("entries"@, Json::Array(ev)),
        ("header"@, match hv {
            Some(v) => v,
            None => Json::Null,
        }),
        ("leafId"@, match leaf_id(ev) {
            Some(id) => Json::Str(id),
            None => Json::Null,
        }),
    ];
    assert(crate::json::members_view(out@) =~= expected);
    assert(session_data_view(rv) == Json::Object(expected));
    assert(JsonValue::Object(out)@ == session_data_view(rv));
    JsonValue::Object(out)
}


/// Number of colours of the default theme.
pub const THEME_COLOR_COUNT: usize = 53;

/// Background of the export page.
pub const EXPORT_PAGE_BG: &'static str = "#18181e";

/// Background of the export page's cards.
pub const EXPORT_CARD_BG: &'static str = "#1e1e24";

/// Background of the export page's info boxes.
pub const EXPORT_INFO_BG: &'static str = "#3c3728";

/// The colours of the default (dark) theme, by CSS variable name.
pub open spec fn theme_table() -> Seq<(Seq<char>, Seq<char>)> {
    seq![
        ("accent"@, "#8abeb7"@),
        ("border"@, "#5f87ff"@),
        ("borderAccent"@, "#00d7ff"@),
        ("borderMuted"@, "#505050"@),
        ("success"@, "#b5bd68"@),
        ("error"@, "#cc6666"@),
        ("warning"@, "#ffff00"@),
        ("muted"@, "#808080"@),
        ("dim"@, "#666666"@),
        ("text"@, "#d4d4d4"@),
        ("thinkingText"@, "#808080"@),
        ("selectedBg"@, "#3a3a4a"@),
        ("scrollbarThumb"@, "#3a3a4a"@),
        ("userMessageBg"@, "#343541"@),
        ("userMessageText"@, "#d4d4d4"@),
        ("customMessageBg"@, "#2d2838"@),
        ("customMessageText"@, "#d4d4d4"@),
        ("customMessageLabel"@, "#9575cd"@),
        ("toolPendingBg"@, "#282832"@),
        ("toolSuccessBg"@, "#283228"@),
        ("toolErrorBg"@, "#3c2828"@),
        ("toolTitle"@, "#d4d4d4"@),
        ("toolOutput"@, "#808080"@),
        ("mdHeading"@, "#f0c674"@),
        ("mdLink"@, "#81a2be"@),
        ("mdLinkUrl"@, "#666666"@),
        ("mdCode"@, "#8abeb7"@),
        ("mdCodeBlock"@, "#b5bd68"@),
        ("mdCodeBlockBorder"@, "#808080"@),
        ("mdQuote"@, "#808080"@),
        ("mdQuoteBorder"@, "#808080"@),
        ("mdHr"@, "#808080"@),
        ("mdListBullet"@, "#8abeb7"@),
        ("toolDiffAdded"@, "#b5bd68"@),
        ("toolDiffRemoved"@, "#cc6666"@),
        ("toolDiffContext"@, "#808080"@),
        ("syntaxComment"@, "#6A9955"@),
        ("syntaxKeyword"@, "#569CD6"@),
        ("syntaxFunction"@, "#DCDCAA"@),
        ("syntaxVariable"@, "#9CDCFE"@),
        ("syntaxString"@, "#CE9178"@),
        ("syntaxNumber"@, "#B5CEA8"@),
        ("syntaxType"@, "#4EC9B0"@),
        ("syntaxOperator"@, "#D4D4D4"@),
        ("syntaxPunctuation"@, "#D4D4D4"@),
        ("thinkingOff"@, "#505050"@),
        ("thinkingMinimal"@, "#6e6e6e"@),
        ("thinkingLow"@, "#5f87af"@),
        ("thinkingMedium"@, "#81a2be"@),
        ("thinkingHigh"@, "#b294bb"@),
        ("thinkingXhigh"@, "#d183e8"@),
        ("thinkingMax"@, "#ff5fff"@),
        ("bashMode"@, "#b5bd68"@),
    ]
}

/// Colour `i` of the default theme.
fn theme_entry(i: usize) -> (r: (&'static str, &'static str))
    requires
        i < THEME_COLOR_COUNT,
    ensures
        (r.0@, r.1@) == theme_table()[i as int],
{
    if i == 0 {
        ("accent", "#8abeb7")
    } else if i == 1 {
        ("border", "#5f87ff")
    } else if i == 2 {
        ("borderAccent", "#00d7ff")
    } else if i == 3 {
        ("borderMuted", "#505050")
    } else if i == 4 {
        ("success", "#b5bd68")
    } else if i == 5 {
        ("error", "#cc6666")
    } else if i == 6 {
        ("warning", "#ffff00")
    } else if i == 7 {
        ("muted", "#808080")
    } else if i == 8 {
        ("dim", "#666666")
    } else if i == 9 {
        ("text", "#d4d4d4")
    } else if i == 10 {
        ("thinkingText", "#808080")
    } else if i == 11 {
        ("selectedBg", "#3a3a4a")
    } else if i == 12 {
        ("scrollbarThumb", "#3a3a4a")
    } else if i == 13 {
        ("userMessageBg", "#343541")
    } else if i == 14 {
        ("userMessageText", "#d4d4d4")
    } else if i == 15 {
        ("customMessageBg", "#2d2838")
    } else if i == 16 {
        ("customMessageText", "#d4d4d4")
    } else if i == 17 {
        ("customMessageLabel", "#9575cd")
    } else if i == 18 {
        ("toolPendingBg", "#282832")
    } else if i == 19 {
        ("toolSuccessBg", "#283228")
    } else if i == 20 {
        ("toolErrorBg", "#3c2828")
    } else if i == 21 {
        ("toolTitle", "#d4d4d4")
    } else if i == 22 {
        ("toolOutput", "#808080")
    } else if i == 23 {
        ("mdHeading", "#f0c674")
    } else if i == 24 {
        ("mdLink", "#81a2be")
    } else if i == 25 {
        ("mdLinkUrl", "#666666")
    } else if i == 26 {
        ("mdCode", "#8abeb7")
    } else if i == 27 {
        ("mdCodeBlock", "#b5bd68")
    } else if i == 28 {
        ("mdCodeBlockBorder", "#808080")
    } else if i == 29 {
        ("mdQuote", "#808080")
    } else if i == 30 {
        ("mdQuoteBorder", "#808080")
    } else if i == 31 {
        ("mdHr", "#808080")
    } else if i == 32 {
        ("mdListBullet", "#8abeb7")
    } else if i == 33 {
        ("toolDiffAdded", "#b5bd68")
    } else if i == 34 {
        ("toolDiffRemoved", "#cc6666")
    } else if i == 35 {
        ("toolDiffContext", "#808080")
    } else if i == 36 {
        ("syntaxComment", "#6A9955")
    } else if i == 37 {
        ("syntaxKeyword", "#569CD6")
    } else if i == 38 {
        ("syntaxFunction", "#DCDCAA")
    } else if i == 39 {
        ("syntaxVariable", "#9CDCFE")
    } else if i == 40 {
        ("syntaxString", "#CE9178")
    } else if i == 41 {
        ("syntaxNumber", "#B5CEA8")
    } else if i == 42 {
        ("syntaxType", "#4EC9B0")
    } else if i == 43 {
        ("syntaxOperator", "#D4D4D4")
    } else if i == 44 {
        ("syntaxPunctuation", "#D4D4D4")
    } else if i == 45 {
        ("thinkingOff", "#505050")
    } else if i == 46 {
        ("thinkingMinimal", "#6e6e6e")
    } else if i == 47 {
        ("thinkingLow", "#5f87af")
    } else if i == 48 {
        ("thinkingMedium", "#81a2be")
    } else if i == 49 {
        ("thinkingHigh", "#b294bb")
    } else if i == 50 {
        ("thinkingXhigh", "#d183e8")
    } else if i == 51 {
        ("thinkingMax", "#ff5fff")
    } else {
        ("bashMode", "#b5bd68")
    }
}

/// A CSS custom property declaration `--name: value;`.
pub open spec fn theme_line(name: Seq<char>, value: Seq<char>) -> Seq<char> {
    "--"@ + name + ": "@ + value + ";"@
}

/// The theme's declarations, then the three export backgrounds.
pub open spec fn theme_lines() -> Seq<Seq<char>> {
    theme_table().map_values(|e: (Seq<char>, Seq<char>)| theme_line(e.0, e.1)) + seq![
        theme_line("exportPageBg"@, EXPORT_PAGE_BG@),
        theme_line("exportCardBg"@, EXPORT_CARD_BG@),
        theme_line("exportInfoBg"@, EXPORT_INFO_BG@),
    ]
}

/// Lines joined with a separator.
pub open spec fn join_str(ls: Seq<Seq<char>>, sep: Seq<char>) -> Seq<char>
    decreases ls.len(),
{
    if ls.len() == 0 {
        seq![]
    } else if ls.len() == 1 {
        ls[0]
    } else {
        join_str(ls.drop_last(), sep) + sep + ls.last()
    }
}

/// The theme variables of the export page's style sheet.
pub open spec fn theme_vars_spec() -> Seq<char> {
    join_str(theme_lines(), "\n      "@)
}

fn theme_line_exec(name: &str, value: &str) -> (r: Vec<char>)
    ensures
        r@ == theme_line(name@, value@),
{
    let mut out = chars_of("--");
    append_chars(&mut out, &chars_of(name));
    append_chars(&mut out, &chars_of(": "));
    append_chars(&mut out, &chars_of(value));
    append_chars(&mut out, &chars_of(";"));
    out
}

fn join_exec(ls: &Vec<Vec<char>>, sep: &Vec<char>) -> (r: Vec<char>)
    ensures
        r@ == join_str(ls@.map_values(|v: Vec<char>| v@), sep@),
{
    let ghost lv = ls@.map_values(|v: Vec<char>| v@);
    let mut out: Vec<char> = Vec::new();
    assert(lv.take(0) =~= Seq::<Seq<char>>::empty());
    for i in 0..ls.len()
        invariant
            lv == ls@.map_values(|v: Vec<char>| v@),
            out@ == join_str(lv.take(i as int), sep@),
    {
        let ghost prev = out@;
        if i > 0 {
            append_chars(&mut out, sep);
        }
        append_chars(&mut out, &ls[i]);
        assert(lv[i as int] == ls@[i as int]@);
        assert(lv.take(i + 1).drop_last() =~= lv.take(i as int));
        if i == 0 {
            assert(lv.take(1) =~= seq![lv[0]]);
            assert(out@ =~= lv[0]);
        } else {
            assert(out@ =~= prev + sep@ + lv[i as int]);
        }
    }
    assert(lv.take(ls.len() as int) =~= lv);
    out
}

/// The theme variables of the export page's style sheet.
pub fn theme_vars() -> (r: String)
    ensures
        r@ == theme_vars_spec(),
{
    let mut lines: Vec<Vec<char>> = Vec::new();
    let ghost f = |e: (Seq<char>, Seq<char>)| theme_line(e.0, e.1);
    for i in 0..THEME_COLOR_COUNT
        invariant
            f == (|e: (Seq<char>, Seq<char>)| theme_line(e.0, e.1)),
            lines@.map_values(|v: Vec<char>| v@) == theme_table().take(i as int).map_values(f),
    {
        let ghost prev = lines@.map_values(|v: Vec<char>| v@);
        let (name, value) = theme_entry(i);
        lines.push(theme_line_exec(name, value));
        assert(lines@.map_values(|v: Vec<char>| v@) =~= prev.push(f(theme_table()[i as int])));
        assert(theme_table().take(i + 1).map_values(f) =~= theme_table().take(i as int).map_values(
            f,
        ).push(f(theme_table()[i as int])));
    }
    lines.push(theme_line_exec("exportPageBg", EXPORT_PAGE_BG));
    lines.push(theme_line_exec("exportCardBg", EXPORT_CARD_BG));
    lines.push(theme_line_exec("exportInfoBg", EXPORT_INFO_BG));
    assert(theme_table().take(THEME_COLOR_COUNT as int) =~= theme_table());
    assert(lines@.map_values(|v: Vec<char>| v@) =~= theme_lines());
    string_of(join_exec(&lines, &chars_of("\n      ")).as_slice())
}


/// The files of the export page: its HTML, style sheet and script
/// templates, and the Markdown and highlighting libraries it embeds.
#[derive(Debug, Clone)]
pub struct ExportAssets {
    pub template_html: String,
    pub template_css: String,
    pub template_js: String,
    pub marked_js: String,
    pub highlight_js: String,
}

/// `base64::engine::general_purpose::STANDARD.encode`: standard alphabet
/// with padding (RFC 4648), which the contract states as
/// `base64_encode_spec`; it panics when the encoded length does not fit in
/// `usize`, which `requires` rules out.
#[verifier::external_body]
fn base64_standard_encode(bytes: &[u8]) -> (r: String)
    requires
        (bytes@.len() + 2) / 3 * 4 <= usize::MAX,
    ensures
        r@ == base64_encode_spec(bytes@),
{
    base64::engine::general_purpose::STANDARD.encode(bytes)
}

/// The style sheet of the export page: the template with the theme
/// variables and the three backgrounds filled in.
pub open spec fn export_css(css: Seq<char>) -> Seq<char> {
    js_replace_spec(
        js_replace_spec(
            js_replace_spec(
                js_replace_spec(css, "{{THEME_VARS}}"@, theme_vars_spec()),
                "{{BODY_BG}}"@,
                EXPORT_PAGE_BG@,
            ),
            "{{CONTAINER_BG}}"@,
            EXPORT_CARD_BG@,
        ),
        "{{INFO_BG}}"@,
        EXPORT_INFO_BG@,
    )
}

/// The export page of a session: the HTML template with the style sheet,
/// the script, the session data (its JSON text, base64-encoded as UTF-8)
/// and the two libraries filled in, in that order.
pub open spec fn export_html(
    session_json: Seq<char>,
    html: Seq<char>,
    css: Seq<char>,
    js: Seq<char>,
    marked: Seq<char>,
    highlight: Seq<char>,
) -> Seq<char> {
    js_replace_spec(
        js_replace_spec(
            js_replace_spec(
                js_replace_spec(
                    js_replace_spec(html, "{{CSS}}"@, export_css(css)),
                    "{{JS}}"@,
                    js,
                ),
                "{{SESSION_DATA}}"@,
                base64_encode_spec(vstd::utf8::encode_utf8(session_json)),
            ),
            "{{MARKED_JS}}"@,
            marked,
        ),
        "{{HIGHLIGHT_JS}}"@,
        highlight,
    )
}

/// Builds the export page of a session from its JSON text.
pub fn generate_export_html(session_json: &str, assets: &ExportAssets) -> (r: String)
    requires
        (vstd::utf8::encode_utf8(session_json@).len() + 2) / 3 * 4 <= usize::MAX,
    ensures
        r@ == export_html(
            session_json@,
            assets.template_html@,
            assets.template_css@,
            assets.template_js@,
            assets.marked_js@,
            assets.highlight_js@,
        ),
{
    let theme = theme_vars();
    let css = js_replace(assets.template_css.as_str(), "{{THEME_VARS}}", theme.as_str());
    let css = js_replace(css.as_str(), "{{BODY_BG}}", EXPORT_PAGE_BG);
    let css = js_replace(css.as_str(), "{{CONTAINER_BG}}", EXPORT_CARD_BG);
    let css = js_replace(css.as_str(), "{{INFO_BG}}", EXPORT_INFO_BG);
    let data = base64_standard_encode(session_json.as_bytes());
    let page = js_replace(assets.template_html.as_str(), "{{CSS}}", css.as_str());
    let page = js_replace(page.as_str(), "{{JS}}", assets.template_js.as_str());
    let page = js_replace(page.as_str(), "{{SESSION_DATA}}", data.as_str());
    let page = js_replace(page.as_str(), "{{MARKED_JS}}", assets.marked_js.as_str());
    js_replace(page.as_str(), "{{HIGHLIGHT_JS}}", assets.highlight_js.as_str())
}

/// The patched export page of a session, from its JSON text (see
/// `generate_export_html` and `patch_export_html`).
pub fn export_session_html(session_json: &str, assets: &ExportAssets) -> (r: Result<String, String>)
    requires
        (vstd::utf8::encode_utf8(session_json@).len() + 2) / 3 * 4 <= usize::MAX,
    ensures
        match patched_export(
            export_html(
                session_json@,
                assets.template_html@,
                assets.template_css@,
                assets.template_js@,
                assets.marked_js@,
                assets.highlight_js@,
            ),
        ) {
            Ok(p) => r matches Ok(s) && s@ == p,
            Err(m) => r matches Err(e) && e@ == m,
        },
{
    let page = generate_export_html(session_json, assets);
    patch_export_html(page.as_str())
}


/// The headers of the export page's response: HTML, shown or downloaded
/// under `file_name`, never cached, and never framed or sniffed.
pub open spec fn export_headers(file_name: Seq<char>, inline: bool) -> Seq<(Seq<char>, Seq<char>)> {
    seq![
        ("Content-Type"@, "text/html; charset=utf-8"@),
        ("Content-Disposition"@, disposition_value(file_name, inline)),
        ("Cache-Control"@, "no-cache"@),
        ("Content-Security-Policy"@, "frame-ancestors 'none'"@),
        ("X-Content-Type-Options"@, "nosniff"@),
        ("X-Frame-Options"@, "DENY"@),
    ]
}

/// The headers of the export page's response.
pub fn export_response_headers(file_name: &str, inline: bool) -> (r: Vec<(String, String)>)
    ensures
        r@.map_values(|h: (String, String)| (h.0@, h.1@)) == export_headers(file_name@, inline),
{
    let r = vec![
        (owned("Content-Type"), owned("text/html; charset=utf-8")),
        (owned("Content-Disposition"), content_disposition(file_name, inline)),
        (owned("Cache-Control"), owned("no-cache")),
        (owned("Content-Security-Policy"), owned("frame-ancestors 'none'")),
        (owned("X-Content-Type-Options"), owned("nosniff")),
        (owned("X-Frame-Options"), owned("DENY")),
    ];
    assert(r@.map_values(|h: (String, String)| (h.0@, h.1@)) =~= export_headers(file_name@, inline));
    r
}

} // verus!
