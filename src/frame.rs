//! Wire framing: each record is a five-digit ASCII decimal header giving the
//! payload's length in bytes, the JSON payload, and a newline. A frame is
//! complete once header, payload and delimiter have all arrived; until then its
//! bytes wait for the next chunk, even past a newline inside the payload.
use crate::json::{json_document, parse_json};
use serde_json::Value;
use vstd::prelude::*;

verus! {

/// Width of the decimal length header.
pub const HEADER_DIGITS: usize = 5;

/// The delimiter that ends every frame.
pub const NEWLINE: u8 = 10;

pub open spec fn is_digit(b: u8) -> bool {
    48 <= b && b <= 57
}

pub open spec fn digit_value(b: u8) -> nat {
    (b - 48) as nat
}

/// The length that a header declares, when the first five bytes are digits.
pub open spec fn declared_len(line: Seq<u8>) -> Option<nat> {
    if line.len() >= 5 && is_digit(line[0]) && is_digit(line[1]) && is_digit(line[2])
        && is_digit(line[3]) && is_digit(line[4]) {
        Some(
            digit_value(line[0]) * 10000 + digit_value(line[1]) * 1000 + digit_value(line[2]) * 100
                + digit_value(line[3]) * 10 + digit_value(line[4]),
        )
    } else {
        None
    }
}

/// The payload of a frame whose bytes before its delimiter are `line`: what
/// follows a valid header, provided it holds at least the declared number of
/// bytes. A frame without a valid header, or a truncated one, carries nothing.
pub open spec fn line_payload(line: Seq<u8>) -> Option<Seq<u8>> {
    match declared_len(line) {
        Some(n) => if line.len() >= 5 + n {
            Some(line.subrange(5, line.len() as int))
        } else {
            None
        },
        None => None,
    }
}

/// Index of the first newline of `s`, or -1 when it holds none.
pub open spec fn newline_index(s: Seq<u8>) -> int
    decreases s.len(),
{
    if s.len() == 0 {
        -1
    } else if s[0] == NEWLINE {
        0
    } else {
        let r = newline_index(s.drop_first());
        if r < 0 {
            -1
        } else {
            r + 1
        }
    }
}

pub open spec fn has_newline(s: Seq<u8>) -> bool {
    exists|k: int| 0 <= k < s.len() && s[k] == NEWLINE
}

/// Index of the delimiter that ends the first frame of `s`, or -1 while that
/// frame is incomplete. With a valid header declaring `n`, the frame is
/// complete once `5 + n + 1` bytes are there, and its delimiter is byte `5 + n`.
/// When that byte is not a newline the header is wrong about the length, and
/// the frame runs to the first newline instead. Without a valid header the
/// bytes up to the first newline are noise.
pub open spec fn frame_end(s: Seq<u8>) -> int {
    match declared_len(s) {
        Some(n) => if s.len() <= 5 + n {
            -1
        } else if s[5 + n as int] == NEWLINE {
            5 + n as int
        } else {
            newline_index(s)
        },
        None => newline_index(s),
    }
}

/// The payloads of all complete frames in `s`, in order.
pub open spec fn payloads(s: Seq<u8>) -> Seq<Seq<u8>>
    decreases s.len(),
{
    let i = frame_end(s);
    if 0 <= i && i < s.len() {
        let head = match line_payload(s.subrange(0, i)) {
            Some(p) => seq![p],
            None => Seq::<Seq<u8>>::empty(),
        };
        head + payloads(s.subrange(i + 1, s.len() as int))
    } else {
        Seq::empty()
    }
}

/// The bytes of `s` after its last complete frame: an incomplete frame.
pub open spec fn pending(s: Seq<u8>) -> Seq<u8>
    decreases s.len(),
{
    let i = frame_end(s);
    if 0 <= i && i < s.len() {
        pending(s.subrange(i + 1, s.len() as int))
    } else {
        s
    }
}

/// The concatenation of a sequence of chunks, front to back.
pub open spec fn joined(chunks: Seq<Seq<u8>>) -> Seq<u8>
    decreases chunks.len(),
{
    if chunks.len() == 0 {
        Seq::empty()
    } else {
        chunks[0] + joined(chunks.drop_first())
    }
}

/// The payloads produced by feeding `chunks` one at a time to a decoder whose
/// buffer holds `buf`.
pub open spec fn payloads_fed(buf: Seq<u8>, chunks: Seq<Seq<u8>>) -> Seq<Seq<u8>>
    decreases chunks.len(),
{
    if chunks.len() == 0 {
        Seq::empty()
    } else {
        payloads(buf + chunks[0]) + payloads_fed(pending(buf + chunks[0]), chunks.drop_first())
    }
}

pub proof fn lemma_newline_index(s: Seq<u8>)
    ensures
        -1 <= newline_index(s) < s.len(),
        newline_index(s) >= 0 ==> s[newline_index(s)] == NEWLINE,
        forall|k: int| 0 <= k < newline_index(s) ==> s[k] != NEWLINE,
        newline_index(s) == -1 ==> !has_newline(s),
    decreases s.len(),
{
    if s.len() > 0 && s[0] != NEWLINE {
        let t = s.drop_first();
        lemma_newline_index(t);
        if newline_index(t) == -1 {
            assert forall|k: int| 0 <= k < s.len() implies s[k] != NEWLINE by {
                if k > 0 {
                    assert(s[k] == t[k - 1]);
                }
            }
        } else {
            assert forall|k: int| 0 <= k < newline_index(s) implies s[k] != NEWLINE by {
                if k > 0 {
                    assert(s[k] == t[k - 1]);
                }
            }
        }
    }
}

/// The first newline is the unique one with no newline before it.
pub proof fn lemma_newline_at(s: Seq<u8>, i: int)
    requires
        0 <= i < s.len(),
        s[i] == NEWLINE,
        forall|k: int| 0 <= k < i ==> s[k] != NEWLINE,
    ensures
        newline_index(s) == i,
{
    lemma_newline_index(s);
}

pub proof fn lemma_no_newline(s: Seq<u8>)
    requires
        forall|k: int| 0 <= k < s.len() ==> s[k] != NEWLINE,
    ensures
        newline_index(s) == -1,
        frame_end(s) == -1,
        payloads(s) == Seq::<Seq<u8>>::empty(),
        pending(s) == s,
{
    lemma_newline_index(s);
}

pub proof fn lemma_frame_end(s: Seq<u8>)
    ensures
        -1 <= frame_end(s) < s.len(),
        frame_end(s) >= 0 ==> s[frame_end(s)] == NEWLINE,
{
    lemma_newline_index(s);
}

/// Once the first frame of `a` is complete, bytes that arrive after it do not
/// change where it ends.
pub proof fn lemma_frame_end_append(a: Seq<u8>, b: Seq<u8>)
    requires
        frame_end(a) >= 0,
    ensures
        frame_end(a + b) == frame_end(a),
{
    lemma_newline_index(a);
    let ab = a + b;
    let i = newline_index(a);
    if i >= 0 {
        assert forall|k: int| 0 <= k < i implies ab[k] != NEWLINE by {
            assert(ab[k] == a[k]);
        }
        assert(ab[i] == a[i]);
        lemma_newline_at(ab, i);
    }
    if a.len() >= 5 {
        assert(ab[0] == a[0] && ab[1] == a[1] && ab[2] == a[2] && ab[3] == a[3] && ab[4] == a[4]);
        assert(declared_len(ab) == declared_len(a));
        if let Some(n) = declared_len(a) {
            if a.len() > 5 + n {
                assert(ab[5 + n as int] == a[5 + n as int]);
            }
        }
    } else {
        assert(ab[i] == NEWLINE);
        assert(!is_digit(ab[i]));
        assert(i == 0 || i == 1 || i == 2 || i == 3 || i == 4);
        assert(declared_len(ab) is None);
    }
}

/// Decoding `a` and then `pending(a) + b` gives what decoding `a + b` at once gives.
pub proof fn lemma_payloads_append(a: Seq<u8>, b: Seq<u8>)
    ensures
        payloads(a + b) == payloads(a) + payloads(pending(a) + b),
        pending(a + b) == pending(pending(a) + b),
    decreases a.len(),
{
    lemma_frame_end(a);
    let i = frame_end(a);
    if i >= 0 {
        let ab = a + b;
        lemma_frame_end_append(a, b);
        let rest = a.subrange(i + 1, a.len() as int);
        assert(ab.subrange(0, i) =~= a.subrange(0, i));
        assert(ab.subrange(i + 1, ab.len() as int) =~= rest + b);
        lemma_payloads_append(rest, b);
        let head = match line_payload(a.subrange(0, i)) {
            Some(p) => seq![p],
            None => Seq::<Seq<u8>>::empty(),
        };
        assert(payloads(ab) == head + payloads(rest + b));
        assert(payloads(a) == head + payloads(rest));
        assert(head + (payloads(rest) + payloads(pending(rest) + b)) =~= (head + payloads(rest))
            + payloads(pending(rest) + b));
    } else {
        assert(pending(a) == a);
        assert(payloads(a) == Seq::<Seq<u8>>::empty());
        assert(Seq::<Seq<u8>>::empty() + payloads(a + b) =~= payloads(a + b));
    }
}

/// Split invariance: feeding a stream to the decoder in any split into chunks
/// yields the same payloads as decoding the whole stream at once.
pub proof fn lemma_split_invariance(chunks: Seq<Seq<u8>>)
    ensures
        payloads_fed(Seq::empty(), chunks) == payloads(joined(chunks)),
{
    lemma_no_newline(Seq::empty());
    lemma_fed_from(Seq::empty(), chunks);
    assert(Seq::<u8>::empty() + joined(chunks) =~= joined(chunks));
}

/// The bytes a decoder keeps never hold a complete frame.
pub proof fn lemma_pending_incomplete(s: Seq<u8>)
    ensures
        frame_end(pending(s)) == -1,
    decreases s.len(),
{
    lemma_frame_end(s);
    let i = frame_end(s);
    if 0 <= i && i < s.len() {
        lemma_pending_incomplete(s.subrange(i + 1, s.len() as int));
    }
}

pub proof fn lemma_fed_from(buf: Seq<u8>, chunks: Seq<Seq<u8>>)
    requires
        frame_end(buf) == -1,
    ensures
        payloads_fed(buf, chunks) == payloads(buf + joined(chunks)),
    decreases chunks.len(),
{
    if chunks.len() == 0 {
        assert(buf + joined(chunks) =~= buf);
    } else {
        let c = chunks[0];
        let rest = chunks.drop_first();
        lemma_pending_incomplete(buf + c);
        lemma_fed_from(pending(buf + c), rest);
        lemma_payloads_append(buf + c, joined(rest));
        assert((buf + c) + joined(rest) =~= buf + joined(chunks));
    }
}

/// Reads the five-digit header of the line `bytes[start..end]`.
pub fn header_len(bytes: &Vec<u8>, start: usize, end: usize) -> (r: Option<usize>)
    requires
        start <= end <= bytes@.len(),
    ensures
        r matches Some(n) ==> declared_len(bytes@.subrange(start as int, end as int)) == Some(
            n as nat,
        ),
        r is None ==> declared_len(bytes@.subrange(start as int, end as int)) is None,
{
    let ghost line = bytes@.subrange(start as int, end as int);
    if end - start < HEADER_DIGITS {
        return None;
    }
    let d0 = bytes[start];
    let d1 = bytes[start + 1];
    let d2 = bytes[start + 2];
    let d3 = bytes[start + 3];
    let d4 = bytes[start + 4];
    assert(line[0] == d0 && line[1] == d1 && line[2] == d2 && line[3] == d3 && line[4] == d4);
    if 48 <= d0 && d0 <= 57 && 48 <= d1 && d1 <= 57 && 48 <= d2 && d2 <= 57 && 48 <= d3 && d3
        <= 57 && 48 <= d4 && d4 <= 57 {
        let n: usize = (d0 - 48) as usize * 10000 + (d1 - 48) as usize * 1000 + (d2 - 48) as usize
            * 100 + (d3 - 48) as usize * 10 + (d4 - 48) as usize;
        Some(n)
    } else {
        None
    }
}

/// The first newline of `bytes` at or after `from`, or the length when there is none.
fn next_newline(bytes: &Vec<u8>, from: usize) -> (r: usize)
    requires
        from <= bytes@.len(),
    ensures
        from <= r <= bytes@.len(),
        r < bytes@.len() ==> bytes@[r as int] == NEWLINE,
        forall|k: int| from <= k < r ==> bytes@[k] != NEWLINE,
{
    let mut j: usize = from;
    while j < bytes.len() && bytes[j] != NEWLINE
        invariant
            from <= j <= bytes@.len(),
            forall|k: int| from <= k < j ==> bytes@[k] != NEWLINE,
        decreases bytes@.len() - j,
    {
        j = j + 1;
    }
    j
}

/// Where the first frame of `bytes[start..]` ends: the index of its delimiter,
/// or `None` while it is incomplete.
pub fn frame_end_at(bytes: &Vec<u8>, start: usize) -> (r: Option<usize>)
    requires
        start <= bytes@.len(),
    ensures
        ({
            let s = bytes@.subrange(start as int, bytes@.len() as int);
            match r {
                Some(e) => start <= e < bytes@.len() && e - start == frame_end(s),
                None => frame_end(s) == -1,
            }
        }),
{
    let ghost s = bytes@.subrange(start as int, bytes@.len() as int);
    let len = bytes.len();
    proof {
        lemma_newline_index(s);
    }
    let j = next_newline(bytes, start);
    proof {
        assert forall|k: int| 0 <= k < j - start implies s[k] != NEWLINE by {
            assert(s[k] == bytes@[start + k]);
        }
        if j < len {
            lemma_newline_at(s, j - start);
        } else {
            lemma_no_newline(s);
        }
    }
    let at_newline = if j < len {
        Some(j)
    } else {
        None
    };
    match header_len(bytes, start, len) {
        Some(n) => {
            if len - start <= HEADER_DIGITS + n {
                None
            } else if bytes[start + HEADER_DIGITS + n] == NEWLINE {
                assert(s[5 + n] == bytes@[start + 5 + n]);
                Some(start + HEADER_DIGITS + n)
            } else {
                assert(s[5 + n] == bytes@[start + 5 + n]);
                at_newline
            }
        },
        None => at_newline,
    }
}

/// The payload of the complete frame `bytes[start..end]`, if it carries one.
pub fn frame_payload(bytes: &Vec<u8>, start: usize, end: usize) -> (r: Option<Vec<u8>>)
    requires
        start <= end <= bytes@.len(),
    ensures
        r matches Some(p) ==> line_payload(bytes@.subrange(start as int, end as int)) == Some(
            p@,
        ),
        r is None ==> line_payload(bytes@.subrange(start as int, end as int)) is None,
{
    match header_len(bytes, start, end) {
        Some(n) => {
            if end - start >= HEADER_DIGITS && end - start - HEADER_DIGITS >= n {
                let mut p: Vec<u8> = Vec::new();
                let mut k: usize = start + HEADER_DIGITS;
                while k < end
                    invariant
                        start + HEADER_DIGITS <= k <= end <= bytes@.len(),
                        p@ == bytes@.subrange(start + 5, k as int),
                    decreases end - k,
                {
                    p.push(bytes[k]);
                    k = k + 1;
                    assert(p@ =~= bytes@.subrange(start + 5, k as int));
                }
                assert(bytes@.subrange(start as int, end as int).subrange(5, (end - start) as int)
                    =~= bytes@.subrange(start + 5, end as int));
                Some(p)
            } else {
                None
            }
        },
        None => None,
    }
}

/// Incremental frame decoder. Its buffer holds the bytes of the frame that is
/// still incomplete; it never holds a complete frame.
pub struct FrameDecoder {
    buf: Vec<u8>,
}

impl FrameDecoder {
    pub closed spec fn view(&self) -> Seq<u8> {
        self.buf@
    }

    pub open spec fn wf(&self) -> bool {
        frame_end(self.view()) == -1
    }

    pub fn new() -> (r: FrameDecoder)
        ensures
            r.wf(),
            r.view() == Seq::<u8>::empty(),
    {
        FrameDecoder { buf: Vec::new() }
    }

    /// The bytes held back as an incomplete frame.
    pub fn buffered(&self) -> (r: &Vec<u8>)
        ensures
            r@ == self.view(),
    {
        &self.buf
    }

    /// Adds `chunk` to the buffer and returns the payloads of every frame it
    /// completes, in order; the bytes of an incomplete frame stay buffered.
    pub fn append_payloads(&mut self, chunk: &[u8]) -> (out: Vec<Vec<u8>>)
        requires
            old(self).wf(),
        ensures
            final(self).wf(),
            out@.map_values(|v: Vec<u8>| v@) == payloads(old(self).view() + chunk@),
            final(self).view() == pending(old(self).view() + chunk@),
    {
        let ghost w0 = self.buf@ + chunk@;
        let mut whole: Vec<u8> = Vec::new();
        std::mem::swap(&mut whole, &mut self.buf);
        let mut c: usize = 0;
        while c < chunk.len()
            invariant
                c <= chunk@.len(),
                whole@ == old(self).buf@ + chunk@.subrange(0, c as int),
            decreases chunk@.len() - c,
        {
            whole.push(chunk[c]);
            c = c + 1;
            assert(whole@ =~= old(self).buf@ + chunk@.subrange(0, c as int));
        }
        assert(whole@ =~= w0);
        let len = whole.len();
        let mut out: Vec<Vec<u8>> = Vec::new();
        let mut pos: usize = 0;
        assert(whole@.subrange(0, len as int) =~= whole@);
        loop
            invariant
                whole@ == w0,
                len == whole@.len(),
                pos <= len,
                payloads(w0) == out@.map_values(|v: Vec<u8>| v@) + payloads(
                    w0.subrange(pos as int, len as int),
                ),
                pending(w0) == pending(w0.subrange(pos as int, len as int)),
            ensures
                pos <= len,
                payloads(w0) == out@.map_values(|v: Vec<u8>| v@),
                pending(w0) == w0.subrange(pos as int, len as int),
            decreases len - pos,
        {
            let ghost s = w0.subrange(pos as int, len as int);
            let j = match frame_end_at(&whole, pos) {
                Some(e) => e,
                None => {
                    proof {
                        assert(out@.map_values(|v: Vec<u8>| v@) + Seq::<Seq<u8>>::empty()
                            =~= out@.map_values(|v: Vec<u8>| v@));
                    }
                    break;
                },
            };
            proof {
                assert(s.subrange(0, j - pos) =~= w0.subrange(pos as int, j as int));
                assert(s.subrange(j - pos + 1, s.len() as int) =~= w0.subrange(j + 1, len as int));
            }
            let ghost before = out@.map_values(|v: Vec<u8>| v@);
            match frame_payload(&whole, pos, j) {
                Some(p) => {
                    out.push(p);
                    proof {
                        assert(out@.map_values(|v: Vec<u8>| v@) =~= before + seq![p@]);
                    }
                },
                None => {},
            }
            proof {
                let rest = w0.subrange(j + 1, len as int);
                let head = match line_payload(s.subrange(0, j - pos)) {
                    Some(p) => seq![p],
                    None => Seq::<Seq<u8>>::empty(),
                };
                assert(payloads(s) == head + payloads(rest));
                assert(before + (head + payloads(rest)) =~= (before + head) + payloads(rest));
            }
            pos = j + 1;
        }
        let mut rest: Vec<u8> = Vec::new();
        let mut k: usize = pos;
        while k < len
            invariant
                pos <= k <= len,
                len == whole@.len(),
                rest@ == whole@.subrange(pos as int, k as int),
            decreases len - k,
        {
            rest.push(whole[k]);
            k = k + 1;
            assert(rest@ =~= whole@.subrange(pos as int, k as int));
        }
        proof {
            lemma_pending_incomplete(w0);
        }
        self.buf = rest;
        out
    }

    /// Adds `chunk` to the buffer and returns the records of every frame it
    /// completes, in order. Frames with a bad header, too few bytes or JSON that
    /// does not parse are dropped; decoding goes on with the next frame.
    pub fn append(&mut self, chunk: &[u8]) -> (out: Vec<Value>)
        requires
            old(self).wf(),
        ensures
            final(self).wf(),
            out@ == records(old(self).view() + chunk@),
            final(self).view() == pending(old(self).view() + chunk@),
    {
        let ps = self.append_payloads(chunk);
        let ghost pv = ps@.map_values(|v: Vec<u8>| v@);
        let mut out: Vec<Value> = Vec::new();
        let mut i: usize = 0;
        while i < ps.len()
            invariant
                i <= ps@.len(),
                pv == ps@.map_values(|v: Vec<u8>| v@),
                out@ == payload_records(pv.subrange(0, i as int)),
            decreases ps@.len() - i,
        {
            let parsed = parse_json(ps[i].as_slice());
            proof {
                let one = seq![pv[i as int]];
                assert(pv.subrange(0, i + 1) =~= pv.subrange(0, i as int) + one);
                lemma_payload_records_concat(pv.subrange(0, i as int), one);
                lemma_payload_records_single(pv[i as int]);
            }
            match parsed {
                Some(v) => {
                    out.push(v);
                },
                None => {},
            }
            i = i + 1;
            proof {
                assert(out@ =~= payload_records(pv.subrange(0, i as int)));
            }
        }
        assert(pv.subrange(0, pv.len() as int) =~= pv);
        out
    }
}

/// The record a payload decodes to, if its JSON parses.
pub open spec fn payload_record(p: Seq<u8>) -> Seq<Value> {
    match json_document(p) {
        Some(v) => seq![v],
        None => Seq::empty(),
    }
}

/// The records that a sequence of payloads decodes to; payloads whose JSON does
/// not parse are dropped.
pub open spec fn payload_records(ps: Seq<Seq<u8>>) -> Seq<Value>
    decreases ps.len(),
{
    if ps.len() == 0 {
        Seq::empty()
    } else {
        payload_record(ps[0]) + payload_records(ps.drop_first())
    }
}

/// The records of all complete frames in `s`, in order.
pub open spec fn records(s: Seq<u8>) -> Seq<Value> {
    payload_records(payloads(s))
}

/// The records produced by feeding `chunks` one at a time to a decoder whose
/// buffer holds `buf`.
pub open spec fn records_fed(buf: Seq<u8>, chunks: Seq<Seq<u8>>) -> Seq<Value>
    decreases chunks.len(),
{
    if chunks.len() == 0 {
        Seq::empty()
    } else {
        records(buf + chunks[0]) + records_fed(pending(buf + chunks[0]), chunks.drop_first())
    }
}

pub proof fn lemma_payload_records_concat(a: Seq<Seq<u8>>, b: Seq<Seq<u8>>)
    ensures
        payload_records(a + b) == payload_records(a) + payload_records(b),
    decreases a.len(),
{
    if a.len() == 0 {
        assert(a + b =~= b);
        assert(Seq::<Value>::empty() + payload_records(b) =~= payload_records(b));
    } else {
        assert((a + b).drop_first() =~= a.drop_first() + b);
        lemma_payload_records_concat(a.drop_first(), b);
        assert(payload_record(a[0]) + (payload_records(a.drop_first()) + payload_records(b))
            =~= (payload_record(a[0]) + payload_records(a.drop_first())) + payload_records(b));
    }
}

proof fn lemma_payload_records_single(p: Seq<u8>)
    ensures
        payload_records(seq![p]) == payload_record(p),
{
    let one = seq![p];
    assert(one.drop_first() =~= Seq::<Seq<u8>>::empty());
    assert(payload_records(Seq::<Seq<u8>>::empty()) == Seq::<Value>::empty());
    assert(payload_record(p) + Seq::<Value>::empty() =~= payload_record(p));
}

proof fn lemma_records_fed(buf: Seq<u8>, chunks: Seq<Seq<u8>>)
    ensures
        records_fed(buf, chunks) == payload_records(payloads_fed(buf, chunks)),
    decreases chunks.len(),
{
    if chunks.len() > 0 {
        let b = buf + chunks[0];
        lemma_records_fed(pending(b), chunks.drop_first());
        lemma_payload_records_concat(payloads(b), payloads_fed(pending(b), chunks.drop_first()));
    }
}

/// Split invariance of records: however a stream is cut into chunks, feeding
/// them to a fresh decoder yields the records that decoding the whole stream
/// at once yields, in the same order.
pub proof fn lemma_records_split_invariance(chunks: Seq<Seq<u8>>)
    ensures
        records_fed(Seq::empty(), chunks) == records(joined(chunks)),
{
    lemma_records_fed(Seq::empty(), chunks);
    lemma_split_invariance(chunks);
}

/// A frame whose header declares more bytes than have arrived is not emitted:
/// nothing is decoded and every byte waits, even past a newline inside it.
pub proof fn lemma_long_frame_waits(s: Seq<u8>)
    requires
        declared_len(s) matches Some(n) && s.len() <= 5 + n,
    ensures
        payloads(s) == Seq::<Seq<u8>>::empty(),
        pending(s) == s,
{
}

/// Once its declared payload and its delimiter have arrived, a frame yields
/// exactly that payload, whatever it holds (newlines, or text that looks like a
/// header of its own), and the next frame starts right after its delimiter.
pub proof fn lemma_frame_complete(s: Seq<u8>)
    requires
        declared_len(s) matches Some(n) && s.len() > 5 + n && s[5 + n as int] == NEWLINE,
    ensures
        payloads(s) == seq![s.subrange(5, 5 + declared_len(s)->Some_0 as int)] + payloads(
            s.subrange(6 + declared_len(s)->Some_0 as int, s.len() as int),
        ),
{
    let n = declared_len(s)->Some_0 as int;
    let line = s.subrange(0, 5 + n);
    assert(line[0] == s[0] && line[1] == s[1] && line[2] == s[2] && line[3] == s[3] && line[4]
        == s[4]);
    assert(line.subrange(5, line.len() as int) =~= s.subrange(5, 5 + n));
}

/// The bytes before the delimiter of a well-formed frame: a header that gives
/// the exact length of the payload that follows it.
pub open spec fn framed(x: Seq<u8>) -> bool {
    x.len() >= 5 && declared_len(x) == Some((x.len() - 5) as nat)
}

/// The records of the frame whose bytes before the delimiter are `line`.
pub open spec fn line_records(line: Seq<u8>) -> Seq<Value> {
    match line_payload(line) {
        Some(p) => payload_record(p),
        None => Seq::empty(),
    }
}

/// A corrupted frame `bad`, followed in the stream by `after`: its header is not
/// five digits; or it is well framed and its JSON does not parse; or it is
/// truncated, ending at its own newline before the length it declares, where
/// the byte at that length is no newline.
pub open spec fn corrupt_frame(bad: Seq<u8>, after: Seq<u8>) -> bool {
    let t = bad + seq![NEWLINE] + after;
    ||| declared_len(bad) is None && !has_newline(bad)
    ||| framed(bad) && line_records(bad) == Seq::<Value>::empty()
    ||| (declared_len(bad) matches Some(n) && !has_newline(bad) && bad.len() < 5 + n && t.len() > 5
        + n && t[5 + n as int] != NEWLINE)
}

proof fn lemma_records_frame(x: Seq<u8>, rest: Seq<u8>)
    requires
        frame_end(x + seq![NEWLINE] + rest) == x.len(),
    ensures
        records(x + seq![NEWLINE] + rest) == line_records(x) + records(rest),
{
    let s = x + seq![NEWLINE] + rest;
    assert(s.subrange(0, x.len() as int) =~= x);
    assert(s.subrange(x.len() + 1 as int, s.len() as int) =~= rest);
    let head = match line_payload(x) {
        Some(p) => seq![p],
        None => Seq::<Seq<u8>>::empty(),
    };
    lemma_payload_records_concat(head, payloads(rest));
    if let Some(p) = line_payload(x) {
        lemma_payload_records_single(p);
    }
}

proof fn lemma_framed_end(x: Seq<u8>, rest: Seq<u8>)
    requires
        framed(x),
    ensures
        frame_end(x + seq![NEWLINE] + rest) == x.len(),
{
    let s = x + seq![NEWLINE] + rest;
    assert(s[0] == x[0] && s[1] == x[1] && s[2] == x[2] && s[3] == x[3] && s[4] == x[4]);
    assert(declared_len(s) == declared_len(x));
    assert(s[x.len() as int] == NEWLINE);
}

proof fn lemma_corrupt_end(bad: Seq<u8>, after: Seq<u8>)
    requires
        corrupt_frame(bad, after),
    ensures
        frame_end(bad + seq![NEWLINE] + after) == bad.len(),
        line_records(bad) == Seq::<Value>::empty(),
{
    let t = bad + seq![NEWLINE] + after;
    if framed(bad) && line_records(bad) == Seq::<Value>::empty() {
        lemma_framed_end(bad, after);
    } else {
        assert(!has_newline(bad));
        assert forall|k: int| 0 <= k < bad.len() implies t[k] != NEWLINE by {
            assert(t[k] == bad[k]);
        }
        assert(t[bad.len() as int] == NEWLINE);
        lemma_newline_at(t, bad.len() as int);
        if bad.len() >= 5 {
            assert(t[0] == bad[0] && t[1] == bad[1] && t[2] == bad[2] && t[3] == bad[3] && t[4]
                == bad[4]);
            assert(declared_len(t) == declared_len(bad));
        } else {
            let i = bad.len() as int;
            assert(!is_digit(t[i]));
            assert(i == 0 || i == 1 || i == 2 || i == 3 || i == 4);
            assert(declared_len(t) is None);
        }
    }
}

/// A corrupted frame between two good frames costs only itself: both
/// neighbours decode, in order, whatever their payloads hold.
pub proof fn lemma_corrupt_frame_isolated(a: Seq<u8>, bad: Seq<u8>, c: Seq<u8>)
    requires
        framed(a),
        framed(c),
        corrupt_frame(bad, c + seq![NEWLINE]),
    ensures
        records(a + seq![NEWLINE] + bad + seq![NEWLINE] + c + seq![NEWLINE]) == payload_record(
            a.subrange(5, a.len() as int),
        ) + payload_record(c.subrange(5, c.len() as int)),
{
    let empty = Seq::<u8>::empty();
    let tail = c + seq![NEWLINE] + empty;
    let mid = bad + seq![NEWLINE] + tail;
    let s = a + seq![NEWLINE] + mid;
    assert(a + seq![NEWLINE] + bad + seq![NEWLINE] + c + seq![NEWLINE] =~= s);
    assert(tail =~= c + seq![NEWLINE]);
    lemma_framed_end(a, mid);
    lemma_records_frame(a, mid);
    lemma_corrupt_end(bad, c + seq![NEWLINE]);
    lemma_records_frame(bad, tail);
    lemma_framed_end(c, empty);
    lemma_records_frame(c, empty);
    lemma_no_newline(empty);
    assert(payloads(empty) == Seq::<Seq<u8>>::empty());
    assert(records(empty) == Seq::<Value>::empty());
    assert(Seq::<Value>::empty() + records(tail) =~= records(tail));
    assert(line_records(c) + Seq::<Value>::empty() =~= line_records(c));
    assert(c.subrange(5, c.len() as int) == c.subrange(5, c.len() as int));
}

} // verus!
