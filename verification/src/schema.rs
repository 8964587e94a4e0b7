//! The fixed-layout record exchanged between the call tracker and the drain.
//!
//! A record is `QUERY_TEXT_LEN` bytes of query text followed by the duration
//! as eight little-endian bytes: `RECORD_LEN` bytes in all, with no padding.

use vstd::prelude::*;
use vstd::bytes::{
    lemma_auto_spec_u64_to_from_le_bytes, spec_u64_from_le_bytes, spec_u64_to_le_bytes,
    u64_from_le_bytes, u64_to_le_bytes,
};
use vstd::array::array_as_slice;
use vstd::slice::slice_subrange;

verus! {

/// Number of query-text bytes a record carries.
pub const QUERY_TEXT_LEN: usize = 128;

/// Number of bytes of an encoded record.
pub const RECORD_LEN: usize = 136;

pub type QueryByteArray = [u8; QUERY_TEXT_LEN];

/// One completed call: the start of its query text and how long it ran,
/// in microseconds.
#[derive(Clone, Copy, Debug, PartialEq, Eq)]
pub struct QueryEvent {
    pub query: [u8; QUERY_TEXT_LEN],
    pub duration_micro: u64,
}

/// Length of the text at the start of `s`: the index of its first zero
/// byte, or the length of `s` where it holds none.
pub open spec fn text_len(s: Seq<u8>) -> nat
    decreases s.len(),
{
    if s.len() == 0 || s[0] == 0u8 {
        0
    } else {
        1 + text_len(s.drop_first())
    }
}

/// `n` bounds the text of `s`: no zero byte before it, and a zero byte or
/// the end of `s` at it.
pub open spec fn is_text_end(s: Seq<u8>, n: int) -> bool {
    &&& 0 <= n <= s.len()
    &&& forall|i: int| 0 <= i < n ==> s[i] != 0u8
    &&& n < s.len() ==> s[n] == 0u8
}

/// `text_len` is the one index that bounds the text.
pub proof fn lemma_text_len(s: Seq<u8>)
    ensures
        is_text_end(s, text_len(s) as int),
        forall|n: int| is_text_end(s, n) ==> n == text_len(s),
    decreases s.len(),
{
    if s.len() == 0 || s[0] == 0u8 {
        assert forall|n: int| is_text_end(s, n) implies n == 0 by {
            if n > 0 {
                assert(s[0] != 0u8);
            }
        }
    } else {
        let t = s.drop_first();
        lemma_text_len(t);
        let m = text_len(t) as int;
        assert forall|i: int| 0 <= i < m + 1 implies s[i] != 0u8 by {
            if i > 0 {
                assert(t[i - 1] != 0u8);
            }
        }
        assert(m + 1 < s.len() ==> s[m + 1] == t[m]);
        assert forall|n: int| is_text_end(s, n) implies n == m + 1 by {
            assert(n > 0);
            assert forall|i: int| 0 <= i < n - 1 implies t[i] != 0u8 by {
                assert(s[i + 1] != 0u8);
            }
            assert(n - 1 < t.len() ==> t[n - 1] == s[n]);
            assert(is_text_end(t, n - 1));
        }
    }
}

/// What a capture of `text` leaves in the fixed buffer: the text up to its
/// first zero byte, cut at `QUERY_TEXT_LEN` bytes, then zeros.
pub open spec fn captured_text(text: Seq<u8>) -> Seq<u8> {
    Seq::new(
        QUERY_TEXT_LEN as nat,
        |i: int|
            if i < text_len(text) {
                text[i]
            } else {
                0u8
            },
    )
}

/// The bytes of a record on the wire.
pub open spec fn wire_bytes(query: Seq<u8>, duration_micro: u64) -> Seq<u8> {
    query + spec_u64_to_le_bytes(duration_micro)
}

/// The query text that an encoded record holds.
pub open spec fn wire_query(bytes: Seq<u8>) -> Seq<u8> {
    bytes.subrange(0, QUERY_TEXT_LEN as int)
}

/// The duration that an encoded record holds.
pub open spec fn wire_duration(bytes: Seq<u8>) -> u64 {
    spec_u64_from_le_bytes(bytes.subrange(QUERY_TEXT_LEN as int, RECORD_LEN as int))
}

/// Index of the end of the text in `text`.
pub fn text_end(text: &[u8]) -> (n: usize)
    ensures
        n == text_len(text@),
        n <= text.len(),
{
    let mut i: usize = 0;
    while i < text.len() && text[i] != 0
        invariant
            i <= text.len(),
            forall|j: int| 0 <= j < i ==> text@[j] != 0u8,
        decreases text.len() - i,
    {
        i += 1;
    }
    proof {
        lemma_text_len(text@);
        assert(is_text_end(text@, i as int));
    }
    i
}

/// Copies the text of `text` into a fresh fixed buffer, cutting it at
/// `QUERY_TEXT_LEN` bytes.
pub fn capture_query(text: &[u8]) -> (buf: QueryByteArray)
    ensures
        buf@ == captured_text(text@),
{
    let end = text_end(text);
    let n: usize = if end < QUERY_TEXT_LEN { end } else { QUERY_TEXT_LEN };
    let mut buf: QueryByteArray = [0u8; QUERY_TEXT_LEN];
    let mut i: usize = 0;
    while i < n
        invariant
            i <= n,
            n <= QUERY_TEXT_LEN,
            n <= end,
            end == text_len(text@),
            end <= text.len(),
            buf@.len() == QUERY_TEXT_LEN,
            forall|j: int| 0 <= j < i ==> buf@[j] == text@[j],
            forall|j: int| i <= j < QUERY_TEXT_LEN ==> buf@[j] == 0u8,
        decreases n - i,
    {
        buf[i] = text[i];
        i += 1;
    }
    assert(buf@ =~= captured_text(text@));
    buf
}

impl QueryEvent {
    /// The record of a call whose query text is `text`.
    pub fn new(text: &[u8], duration_micro: u64) -> (ev: QueryEvent)
        ensures
            ev.query@ == captured_text(text@),
            ev.duration_micro == duration_micro,
    {
        QueryEvent { query: capture_query(text), duration_micro }
    }

    /// The record's bytes on the wire.
    pub open spec fn wire(self) -> Seq<u8> {
        wire_bytes(self.query@, self.duration_micro)
    }

    /// The text held by the record, without the zero bytes that fill the
    /// buffer behind it.
    pub fn text(&self) -> (t: Vec<u8>)
        ensures
            t@ == self.query@.take(text_len(self.query@) as int),
    {
        let n = text_end(array_as_slice(&self.query));
        let mut t: Vec<u8> = Vec::new();
        let mut i: usize = 0;
        while i < n
            invariant
                i <= n,
                n <= QUERY_TEXT_LEN,
                self.query@.len() == QUERY_TEXT_LEN,
                t@ == self.query@.take(i as int),
            decreases n - i,
        {
            t.push(self.query[i]);
            assert(self.query@.take(i + 1) =~= self.query@.take(i as int).push(self.query@[i as int]));
            i += 1;
        }
        t
    }

    /// Encodes the record: the query buffer, then the duration as eight
    /// little-endian bytes.
    pub fn encode(&self) -> (out: Vec<u8>)
        ensures
            out@ == self.wire(),
            out@.len() == RECORD_LEN,
    {
        let mut out: Vec<u8> = Vec::new();
        let mut i: usize = 0;
        while i < QUERY_TEXT_LEN
            invariant
                i <= QUERY_TEXT_LEN,
                self.query@.len() == QUERY_TEXT_LEN,
                out@ == self.query@.take(i as int),
            decreases QUERY_TEXT_LEN - i,
        {
            out.push(self.query[i]);
            assert(self.query@.take(i + 1) =~= self.query@.take(i as int).push(self.query@[i as int]));
            i += 1;
        }
        assert(self.query@.take(QUERY_TEXT_LEN as int) =~= self.query@);
        let mut tail = u64_to_le_bytes(self.duration_micro);
        out.append(&mut tail);
        out
    }

    /// Decodes a record from the start of `bytes`. Bytes behind the record
    /// are ignored; fewer than `RECORD_LEN` bytes hold no record.
    pub fn decode(bytes: &[u8]) -> (r: Option<QueryEvent>)
        ensures
            r.is_some() <==> bytes@.len() >= RECORD_LEN,
            r matches Some(ev) ==> ev.query@ == wire_query(bytes@) && ev.duration_micro
                == wire_duration(bytes@),
    {
        if bytes.len() < RECORD_LEN {
            return None;
        }
        let mut query: QueryByteArray = [0u8; QUERY_TEXT_LEN];
        let mut i: usize = 0;
        while i < QUERY_TEXT_LEN
            invariant
                i <= QUERY_TEXT_LEN,
                bytes@.len() >= RECORD_LEN,
                query@.len() == QUERY_TEXT_LEN,
                forall|j: int| 0 <= j < i ==> query@[j] == bytes@[j],
            decreases QUERY_TEXT_LEN - i,
        {
            query[i] = bytes[i];
            i += 1;
        }
        assert(query@ =~= wire_query(bytes@));
        let duration_micro = u64_from_le_bytes(slice_subrange(bytes, QUERY_TEXT_LEN, RECORD_LEN));
        Some(QueryEvent { query, duration_micro })
    }
}

/// Decoding what `encode` wrote gives the record back, byte for byte.
pub proof fn lemma_wire_round_trip(ev: QueryEvent)
    ensures
        ev.wire().len() == RECORD_LEN,
        wire_query(ev.wire()) == ev.query@,
        wire_duration(ev.wire()) == ev.duration_micro,
{
    lemma_auto_spec_u64_to_from_le_bytes();
    let tail = spec_u64_to_le_bytes(ev.duration_micro);
    assert(ev.query@.len() == QUERY_TEXT_LEN);
    assert(wire_query(ev.wire()) =~= ev.query@);
    assert(ev.wire().subrange(QUERY_TEXT_LEN as int, RECORD_LEN as int) =~= tail);
}

/// A text of at least `QUERY_TEXT_LEN` bytes with no zero byte among its
/// first `QUERY_TEXT_LEN` is cut exactly there: the record that crosses the
/// wire holds those bytes and nothing else of the text.
pub proof fn lemma_long_text_truncates(text: Seq<u8>, ev: QueryEvent)
    requires
        text.len() >= QUERY_TEXT_LEN,
        forall|i: int| 0 <= i < QUERY_TEXT_LEN ==> text[i] != 0u8,
        ev.query@ == captured_text(text),
    ensures
        wire_query(ev.wire()) == text.subrange(0, QUERY_TEXT_LEN as int),
{
    lemma_wire_round_trip(ev);
    lemma_text_len(text);
    let n = text_len(text) as int;
    if n < QUERY_TEXT_LEN {
        assert(text[n] == 0u8);
    }
    assert(captured_text(text) =~= text.subrange(0, QUERY_TEXT_LEN as int));
}

/// A text shorter than the buffer is kept whole, up to its first zero byte.
pub proof fn lemma_short_text_kept(text: Seq<u8>)
    requires
        text_len(text) <= QUERY_TEXT_LEN,
    ensures
        captured_text(text).take(text_len(text) as int) == text.take(text_len(text) as int),
        text_len(text) < QUERY_TEXT_LEN ==> text_len(captured_text(text)) == text_len(text),
{
    lemma_text_len(text);
    lemma_text_len(captured_text(text));
    let n = text_len(text) as int;
    assert(captured_text(text).take(n) =~= text.take(n));
    if n < QUERY_TEXT_LEN {
        assert(is_text_end(captured_text(text), n));
    }
}

} // verus!
