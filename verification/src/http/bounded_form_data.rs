//! Request body size limits.
//!
//! A declared `Content-Length` above the limit is refused at once;
//! otherwise the body is read chunk by chunk and refused as soon as the
//! bytes read would exceed the limit.

use vstd::prelude::*;
use crate::text::{chars_of, digits_value, is_safe_digits, safe_digits_value};

verus! {

broadcast use vstd::string::group_string_axioms;

/// The request body exceeds the allowed size.
#[derive(Debug, Clone, Copy, PartialEq, Eq, Structural)]
pub struct RequestBodyTooLarge;

impl RequestBodyTooLarge {
    /// The error's message.
    pub fn message(&self) -> (m: &'static str)
        ensures
            m@ == "Request body exceeds the allowed size"@,
    {
        "Request body exceeds the allowed size"
    }
}

/// Error of a streamed body read: too large, or the underlying read failed.
#[derive(Debug)]
pub enum BodyLimitError<E> {
    TooLarge(RequestBodyTooLarge),
    Read(E),
}

/// The declared body length: a `Content-Length` made only of ASCII digits
/// whose value is a safe integer.
pub open spec fn declared_length(value: Option<Seq<char>>) -> Option<int> {
    match value {
        Some(s) => if is_safe_digits(s) {
            Some(digits_value(s))
        } else {
            None
        },
        None => None,
    }
}

/// The view of an optional string slice.
pub open spec fn opt_str_view(o: Option<&str>) -> Option<Seq<char>> {
    match o {
        Some(s) => Some(s@),
        None => None,
    }
}

/// Parses a `Content-Length` header value: only plain digits, and only safe
/// integers, are accepted.
pub fn declared_content_length(value: Option<&str>) -> (r: Option<u64>)
    ensures
        match declared_length(opt_str_view(value)) {
            Some(n) => r matches Some(x) && x == n,
            None => r is None,
        },
{
    match value {
        Some(s) => {
            let v = chars_of(s);
            safe_digits_value(&v)
        },
        None => None,
    }
}

/// A declared length above the limit.
pub open spec fn declared_too_large(content_length: Option<Seq<char>>, max_bytes: int) -> bool {
    match declared_length(content_length) {
        Some(d) => d > max_bytes,
        None => false,
    }
}

/// Refuses a request whose declared length exceeds `max_bytes`; a missing
/// or invalid declaration is left to the streamed check.
pub fn check_declared_content_length(content_length: Option<&str>, max_bytes: u64) -> (r: Result<
    (),
    RequestBodyTooLarge,
>)
    ensures
        r is Err <==> declared_too_large(opt_str_view(content_length), max_bytes as int),
{
    match declared_content_length(content_length) {
        Some(declared) => {
            if declared > max_bytes {
                Err(RequestBodyTooLarge)
            } else {
                Ok(())
            }
        },
        None => Ok(()),
    }
}

/// The chunks of a body, one after another.
pub open spec fn flatten(chunks: Seq<Seq<u8>>) -> Seq<u8>
    decreases chunks.len(),
{
    if chunks.len() == 0 {
        seq![]
    } else {
        flatten(chunks.drop_last()) + chunks.last()
    }
}

/// The byte views of a list of chunks.
pub open spec fn chunks_view(v: Seq<Vec<u8>>) -> Seq<Seq<u8>> {
    v.map_values(|c: Vec<u8>| c@)
}

/// Accumulates a request body under a byte budget.
pub struct BodyCollector {
    max_bytes: u64,
    body: Vec<u8>,
}

impl BodyCollector {
    /// The limit, as the platform's size type sees it.
    pub closed spec fn limit(&self) -> int {
        (self.max_bytes as usize) as int
    }

    /// The bytes accepted so far.
    pub closed spec fn bytes(&self) -> Seq<u8> {
        self.body@
    }

    /// The accepted bytes never exceed the limit.
    pub closed spec fn wf(&self) -> bool {
        self.body@.len() <= self.limit()
    }

    /// Starts reading a body: refused when the declared length is too large.
    pub fn start(content_length: Option<&str>, max_bytes: u64) -> (r: Result<
        BodyCollector,
        RequestBodyTooLarge,
    >)
        ensures
            r is Err <==> declared_too_large(opt_str_view(content_length), max_bytes as int),
            r matches Ok(c) ==> c.wf() && c.bytes() == Seq::<u8>::empty() && c.limit() == (
            max_bytes as usize) as int,
    {
        match check_declared_content_length(content_length, max_bytes) {
            Err(e) => Err(e),
            Ok(()) => Ok(BodyCollector { max_bytes, body: Vec::new() }),
        }
    }

    /// Adds a chunk; refused (and nothing added) when the body would then
    /// exceed the limit.
    pub fn push_chunk(&mut self, chunk: &[u8]) -> (r: Result<(), RequestBodyTooLarge>)
        requires
            old(self).wf(),
        ensures
            final(self).wf(),
            final(self).limit() == old(self).limit(),
            r is Err <==> old(self).bytes().len() + chunk@.len() > old(self).limit(),
            r is Err ==> final(self).bytes() == old(self).bytes(),
            r is Ok ==> final(self).bytes() == old(self).bytes() + chunk@,
    {
        let limit = self.max_bytes as usize;
        if (self.body.len() as u128) + (chunk.len() as u128) > (limit as u128) {
            return Err(RequestBodyTooLarge);
        }
        let ghost b0 = self.body@;
        let mut i: usize = 0;
        while i < chunk.len()
            invariant
                i <= chunk.len(),
                self.body@ == b0 + chunk@.take(i as int),
                self.max_bytes as usize == limit,
            decreases chunk.len() - i,
        {
            self.body.push(chunk[i]);
            assert(b0 + chunk@.take(i + 1) =~= (b0 + chunk@.take(i as int)).push(chunk@[i as int]));
            i += 1;
        }
        assert(chunk@.take(chunk.len() as int) =~= chunk@);
        Ok(())
    }

    /// The collected body.
    pub fn finish(self) -> (b: Vec<u8>)
        ensures
            b@ == self.bytes(),
    {
        self.body
    }
}

proof fn lemma_flatten_len_monotone(chunks: Seq<Seq<u8>>, k: int)
    requires
        0 <= k <= chunks.len(),
    ensures
        flatten(chunks.take(k)).len() <= flatten(chunks).len(),
    decreases chunks.len() - k,
{
    if k < chunks.len() {
        lemma_flatten_len_monotone(chunks, k + 1);
        assert(chunks.take(k + 1).drop_last() =~= chunks.take(k));
    } else {
        assert(chunks.take(k) =~= chunks);
    }
}

/// Collects a body from its chunks; refused when the chunks together exceed
/// `max_bytes`.
pub fn collect_body_within_limit(chunks: Vec<Vec<u8>>, max_bytes: u64) -> (r: Result<
    Vec<u8>,
    RequestBodyTooLarge,
>)
    ensures
        r is Err <==> flatten(chunks_view(chunks@)).len() > (max_bytes as usize) as int,
        r matches Ok(b) ==> b@ == flatten(chunks_view(chunks@)),
{
    let ghost cs = chunks_view(chunks@);
    let mut collector = BodyCollector { max_bytes, body: Vec::new() };
    let mut i: usize = 0;
    assert(cs.take(0) =~= Seq::<Seq<u8>>::empty());
    while i < chunks.len()
        invariant
            i <= chunks.len(),
            cs == chunks_view(chunks@),
            collector.wf(),
            collector.limit() == (max_bytes as usize) as int,
            collector.bytes() == flatten(cs.take(i as int)),
        decreases chunks.len() - i,
    {
        assert(cs.take(i + 1).drop_last() =~= cs.take(i as int));
        assert(cs[i as int] == chunks@[i as int]@);
        match collector.push_chunk(chunks[i].as_slice()) {
            Err(e) => {
                proof {
                    lemma_flatten_len_monotone(cs, i + 1);
                }
                return Err(e);
            },
            Ok(()) => {},
        }
        i += 1;
    }
    assert(cs.take(chunks.len() as int) =~= cs);
    Ok(collector.finish())
}

} // verus!
